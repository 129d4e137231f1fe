use rscs::async_next::{Client, Error, Service, ServiceData};

#[derive(Debug, PartialEq)]
struct Name(&'static str);

impl Client for Name {}

struct NoData {}

impl ServiceData for NoData {}

#[test]
fn the_last_client_is_kept() {
    let mut mgr = Service::<Name>::new(NoData {});
    assert!(mgr.clients.is_empty());
    for name in ["one", "two", "three"] {
        assert!(mgr.add_client(Name(name)).is_ok());
        assert_eq!(mgr.next_id, 0);
    }
    assert_eq!(mgr.clients.into_iter().collect::<Vec<_>>(), vec![(0, Name("three"))]);
}

#[test]
fn the_last_id_is_not_given_out() {
    let mut mgr = Service::<Name>::new(NoData {});
    mgr.next_id = u32::MAX - 1;
    assert!(mgr.add_client(Name("last")).is_ok());
    mgr.next_id = u32::MAX;
    match mgr.add_client(Name("one too many")) {
        Err(e) => assert_eq!(e.0, "num clients exceeds u32::MAX"),
        Ok(()) => panic!("too many clients"),
    }
    assert_eq!(mgr.clients.len(), 1);
    assert_eq!(mgr.clients[&(u32::MAX - 1)], Name("last"));
}

#[test]
fn errors_from_strings() {
    assert_eq!(Error::new("slice").0, "slice");
    assert_eq!(Error::new(String::from("string")).0, "string");
}
