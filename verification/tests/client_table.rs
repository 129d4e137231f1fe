use rscs::client_table::ClientTable;
use rscs::sync_cs::ClientHandler;
use rscs::test_fixtures::{Error, Request, Response};

/// A handler with the requests to come and the responses that went out.
struct Script {
    requests: Vec<Result<Option<Request>, Error>>,
    responses: Vec<Response>,
}

fn script(requests: Vec<Result<Option<Request>, Error>>) -> Script {
    Script { requests, responses: Vec::new() }
}

impl ClientHandler<Request, Response> for Script {
    type Error = Error;
    fn send(&mut self, res: Response) -> Result<(), Error> {
        self.responses.push(res);
        Ok(())
    }
    fn recv(&mut self) -> Result<Option<Request>, Error> {
        self.requests.remove(0)
    }
}

#[test]
fn ids_go_from_zero_up_and_the_last_one_is_not_given_out() {
    let mut table = ClientTable::new();
    for id in 0..255u32 {
        assert_eq!(table.add_client(id * 2).unwrap() as u32, id);
    }
    for _ in 0..2 {
        match table.add_client(0) {
            Err(e) => assert_eq!(e.to_string(), "exceeded max clients"),
            Ok(_) => panic!("too many clients"),
        }
        assert_eq!(table.clients.len(), 255);
        assert_eq!(table.next_client_id, 255);
    }
    assert_eq!(table.clients[254], (254, 508));
}

#[test]
fn a_table_may_have_gaps() {
    let mut table = ClientTable { next_client_id: 254, clients: vec![(3, 'a')] };
    assert_eq!(table.add_client('b').unwrap(), 254);
    match table.add_client('c') {
        Err(e) => assert_eq!(e.to_string(), "exceeded max clients"),
        Ok(_) => panic!("no id is left"),
    }
    assert_eq!(table.clients, vec![(3, 'a'), (254, 'b')]);
    assert_eq!(table.next_client_id, 255);
}

#[test]
fn handlers_come_in_order_and_can_be_changed() {
    let mut table = ClientTable::new();
    for value in [5u32, 6, 7] {
        table.add_client(value).unwrap();
    }
    for handler in table.handlers() {
        *handler += 10;
    }
    assert_eq!(table.clients, vec![(0, 15), (1, 16), (2, 17)]);
}

#[test]
fn one_request_is_processed_at_a_time() {
    let mut table = ClientTable::new();
    table.add_client(script(vec![Ok(None), Ok(None)])).unwrap();
    table.add_client(script(vec![Ok(Some(Request::B)), Ok(Some(Request::A))])).unwrap();
    table.add_client(script(vec![Ok(Some(Request::A))])).unwrap();
    table.process_next_request().unwrap();
    assert_eq!(table.clients[1].1.responses, vec![Response::B]);
    table.process_next_request().unwrap();
    assert_eq!(table.clients[1].1.responses, vec![Response::B, Response::A]);
    assert!(table.clients[2].1.responses.is_empty());
    assert_eq!(table.clients[2].1.requests.len(), 1);
}

#[test]
fn a_handler_that_fails_ends_the_search() {
    let mut table = ClientTable::new();
    table.add_client(script(vec![Err(Error("broken".into()))])).unwrap();
    table.add_client(script(vec![Ok(Some(Request::A))])).unwrap();
    match table.process_next_request() {
        Err(e) => assert_eq!(e.to_string(), "broken"),
        Ok(()) => panic!("no failure"),
    }
    assert_eq!(table.clients[1].1.requests.len(), 1);
}

#[test]
fn no_client_no_request() {
    let mut table: ClientTable<Script> = ClientTable::new();
    table.process_next_request().unwrap();
    assert!(table.clients.is_empty());
}
