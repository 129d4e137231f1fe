use rscs::async_v2::{
    handle_new_client, handle_next_request, ClientHandler, ClientId, ServeAction, ServeEvent,
    Service, ServiceHandler,
};
use std::collections::BTreeMap;

/// A client with a name and the responses that it got.
#[derive(Debug, PartialEq)]
struct Inbox(&'static str, Vec<u32>);

impl ClientHandler<u32, u32> for Inbox {
    fn send_response(&mut self, res: u32) {
        self.1.push(res);
    }
}

impl From<&'static str> for Inbox {
    fn from(name: &'static str) -> Self {
        Inbox(name, Vec::new())
    }
}

/// Answers with the sum of the requests so far, and not at all to a zero.
struct Sum(u32);

impl ServiceHandler<u32, u32> for Sum {
    fn handle_request(&mut self, id: &ClientId, req: u32) -> Option<u32> {
        self.0 += req + *id;
        if req == 0 {
            None
        } else {
            Some(self.0)
        }
    }
}

type Arrival = Result<&'static str, &'static str>;

fn new_service() -> Service<u32, u32, Inbox, Sum> {
    Service::new(Sum(0))
}

#[test]
fn the_last_arrival_is_kept() {
    let mut svc = new_service();
    let arrivals: Vec<Arrival> = vec![Ok("one"), Err("lost"), Ok("two"), Err("lost"), Err("lost")];
    svc.register_clients(arrivals);
    assert_eq!(svc.next_id, 0);
    assert_eq!(svc.clients.into_iter().collect::<Vec<_>>(), vec![(0, Inbox("two", vec![]))]);
}

#[test]
fn failures_to_arrive_change_nothing() {
    let mut svc = new_service();
    let arrivals: Vec<Arrival> = vec![Err("lost")];
    svc.register_clients(arrivals);
    assert!(svc.clients.is_empty());
}

#[test]
fn failures_to_arrive_can_be_left_out() {
    let mut with_failures = new_service();
    let arrivals: Vec<Arrival> = vec![Err("lost"), Ok("one"), Err("lost"), Ok("two"), Err("lost")];
    with_failures.register_clients(arrivals);
    let mut without_failures = new_service();
    let arrivals: Vec<Arrival> = vec![Ok("one"), Ok("two")];
    without_failures.register_clients(arrivals);
    assert_eq!(with_failures.clients, without_failures.clients);
    assert_eq!(with_failures.next_id, without_failures.next_id);
}

#[test]
fn a_client_of_the_services_own_kind_is_kept_as_it_is() {
    let mut svc = new_service();
    let arrivals: Vec<Result<Inbox, &'static str>> = vec![Ok(Inbox("one", vec![3, 4]))];
    svc.register_clients(arrivals);
    assert_eq!(svc.clients[&0], Inbox("one", vec![3, 4]));
}

#[test]
fn nobody_arrives_without_an_id() {
    let mut svc = new_service();
    svc.next_id = ClientId::MAX;
    let arrivals: Vec<Arrival> = vec![Ok("one")];
    svc.register_clients(arrivals);
    assert!(svc.clients.is_empty());
    let mut clients = BTreeMap::new();
    handle_new_client(Inbox("two", vec![]), &mut clients, &7);
    handle_new_client(Inbox("three", vec![]), &mut clients, &ClientId::MAX);
    assert_eq!(clients.into_iter().collect::<Vec<_>>(), vec![(7, Inbox("two", vec![]))]);
}

#[test]
fn responses_go_to_the_client_that_asked() {
    let mut clients = BTreeMap::new();
    clients.insert(1, Inbox("one", vec![]));
    clients.insert(2, Inbox("two", vec![]));
    let mut handler = Sum(0);
    handle_next_request(2, 10, &mut clients, &mut handler);
    handle_next_request(1, 0, &mut clients, &mut handler);
    handle_next_request(1, 5, &mut clients, &mut handler);
    assert_eq!(clients[&1], Inbox("one", vec![19]));
    assert_eq!(clients[&2], Inbox("two", vec![12]));
    assert_eq!(handler.0, 19);
}

#[test]
fn rounds() {
    let mut svc = new_service();
    type Event = ServeEvent<u32, &'static str, &'static str>;
    assert_eq!(svc.serve(Event::Round), ServeAction::Await);
    assert_eq!(svc.serve(Event::Arrival(Ok("one"))), ServeAction::EndRound);
    assert_eq!(svc.serve(Event::Request(0, 4)), ServeAction::EndRound);
    assert_eq!(svc.serve(Event::Arrival(Err("lost"))), ServeAction::EndRound);
    assert_eq!(svc.clients[&0], Inbox("one", vec![4]));
    svc.shutdown();
    assert_eq!(svc.serve(Event::Request(0, 5)), ServeAction::EndRound);
    assert_eq!(svc.clients[&0], Inbox("one", vec![4, 9]));
    assert_eq!(svc.serve(Event::Round), ServeAction::Stop);
}
