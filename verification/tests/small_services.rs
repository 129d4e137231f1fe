use futures::channel::mpsc;
use rscs::echo::{echoed, CHUNK};
use rscs::flag::Service;

#[test]
fn the_first_value_is_taken_over() {
    let (_tx, rx) = mpsc::channel(8);
    let mut svc = Service { handlers: vec![rx], data: true };
    svc.handle_requests(Some(false));
    assert!(!svc.data);
    svc.handle_requests(None);
    assert!(!svc.data);
    svc.handle_requests(Some(true));
    assert!(svc.data);
    assert_eq!(svc.handlers.len(), 1);
}

#[test]
fn bytes_are_echoed_and_failures_are_not() {
    let read: Vec<Result<u8, String>> = vec![Ok(3), Err("broken".into()), Ok(0), Ok(255)];
    let sent: Vec<u8> = read.into_iter().filter_map(echoed).collect();
    assert_eq!(sent, vec![3, 0, 255]);
    assert_eq!(CHUNK, 8);
}
