use async_std::task;
use futures::future;
use futures::{stream, SinkExt, StreamExt};
use rscs::async_cs::{Round, RoundAction, RoundEvent, ServeAction, Service, Stage};
use rscs::direct_service::{DirectHandler, DirectService};
use rscs::test_fixtures::{Error, Request, Response};
use std::cell::Cell;
use std::sync::Mutex;

async fn recv(handler: &mut DirectHandler) -> Result<Request, Error> {
    match handler.rx.next().await {
        Some(req) => Ok(req),
        None => Err(Error("stream closed".into())),
    }
}

/// Lets each handler have its turn in a round that begins. Returns the round, which is over then,
/// and the failures to receive.
async fn run_round(handlers: Vec<&mut DirectHandler>) -> (Round, Vec<String>) {
    let round = Mutex::new(Round::begin(handlers.len()));
    let failures = Mutex::new(Vec::new());
    stream::iter(handlers.into_iter().enumerate())
        .for_each_concurrent(None, |(i, handler)| {
            let (round, failures) = (&round, &failures);
            async move {
                let received = recv(handler).await;
                let action = round.lock().unwrap().handle(RoundEvent::Received(i, received));
                match action {
                    RoundAction::Process(req) => {
                        if let Some(res) = DirectService::process_request(req) {
                            handler.tx.send(res).await.unwrap();
                        }
                        let event: RoundEvent<Request, Error> = RoundEvent::Processed(i);
                        assert!(matches!(round.lock().unwrap().handle(event), RoundAction::Rest));
                    }
                    RoundAction::HandleRecvError(e) => {
                        failures.lock().unwrap().push(e.to_string())
                    }
                    RoundAction::Rest => panic!("a request is processed or not"),
                }
            }
        })
        .await;
    let round = round.into_inner().unwrap();
    assert!(round.is_over());
    (round, failures.into_inner().unwrap())
}

/// Serves one round, in which each client is waited for. Returns the failures to receive.
async fn serve_one_round(svc: &mut DirectService) -> Vec<String> {
    assert!(matches!(svc.serve(&Round::none()), ServeAction::BeginRound));
    let (round, failures) = run_round(svc.handlers()).await;
    assert!(matches!(svc.serve(&round), ServeAction::BeginRound));
    failures
}

#[test]
fn async_cs_process_one_request() -> Result<(), Error> {
    let mut svc = DirectService::new();
    let mut cli = svc.client()?;
    task::block_on(async move {
        let client = async move {
            cli.tx.send(Request::A).await?;
            assert_eq!(cli.rx.next().await, Some(Response::A));
            Result::<(), Error>::Ok(())
        };
        let (_, result) = future::join(serve_one_round(&mut svc), client).await;
        result
    })
}

#[test]
fn a_round_waits_for_every_client() -> Result<(), Error> {
    let mut svc = DirectService::new();
    let mut first = svc.client()?;
    let mut second = svc.client()?;
    drop(svc.client()?);
    task::block_on(async move {
        first.tx.send(Request::B).await?;
        second.tx.send(Request::A).await?;
        assert_eq!(serve_one_round(&mut svc).await, vec!["stream closed".to_string()]);
        assert_eq!(first.rx.next().await, Some(Response::B));
        assert_eq!(second.rx.next().await, Some(Response::A));
        Ok(())
    })
}

type Event = RoundEvent<Request, Error>;

#[test]
fn what_is_done_about_what_happens_in_a_round() {
    let svc = DirectService::new();
    assert!(svc.keep_serving());
    let mut round = Round::begin(2);
    assert_eq!(round.stages, vec![Stage::Waiting, Stage::Waiting]);
    assert!(matches!(svc.serve(&round), ServeAction::AwaitHandlers));
    let event: Event = RoundEvent::Received(1, Ok(Request::B));
    assert!(matches!(round.handle(event), RoundAction::Process(Request::B)));
    assert_eq!(round.stages, vec![Stage::Waiting, Stage::Processing]);
    let event: Event = RoundEvent::Received(0, Err(Error("lost".into())));
    match round.handle(event) {
        RoundAction::HandleRecvError(e) => assert_eq!(e.to_string(), "lost"),
        _ => panic!("no failure"),
    }
    assert_eq!(round.stages, vec![Stage::Done, Stage::Processing]);
    assert!(!round.is_over());
    assert!(matches!(svc.serve(&round), ServeAction::AwaitHandlers));
    let event: Event = RoundEvent::Processed(1);
    assert!(matches!(round.handle(event), RoundAction::Rest));
    assert_eq!(round.stages, vec![Stage::Done, Stage::Done]);
    assert!(round.is_over());
    assert!(matches!(svc.serve(&round), ServeAction::BeginRound));
}

#[test]
fn a_round_in_which_all_fail_does_not_end_the_service() {
    let svc = DirectService::new();
    let mut round = Round::begin(2);
    for i in 0..2 {
        let event: Event = RoundEvent::Received(i, Err(Error("lost".into())));
        assert!(matches!(round.handle(event), RoundAction::HandleRecvError(_)));
    }
    assert!(matches!(svc.serve(&round), ServeAction::BeginRound));
}

/// A service that was told to stop.
struct Stopped {}

impl Service<Request, Response> for Stopped {
    type Client = rscs::client_list::DirectClient<Request, Response>;
    type ClientId = u8;
    type Handler = DirectHandler;
    type Error = Error;

    fn keep_serving(&self) -> bool {
        false
    }
    fn client(&mut self) -> Result<Self::Client, Error> {
        Err(Error("stopped".into()))
    }
    fn handlers(&mut self) -> Vec<&mut DirectHandler> {
        Vec::new()
    }
}

#[test]
fn a_service_that_was_told_to_stop_stops() {
    assert!(matches!(Stopped {}.serve(&Round::none()), ServeAction::Stop));
    assert!(matches!(Stopped {}.serve(&Round::begin(1)), ServeAction::AwaitHandlers));
}

/// A service that keeps serving for some rounds.
struct Limited {
    direct: DirectService,
    rounds_left: Cell<u32>,
}

impl Service<Request, Response> for Limited {
    type Client = rscs::client_list::DirectClient<Request, Response>;
    type ClientId = u8;
    type Handler = DirectHandler;
    type Error = Error;

    fn keep_serving(&self) -> bool {
        let left = self.rounds_left.get();
        self.rounds_left.set(left.saturating_sub(1));
        left > 0
    }
    fn client(&mut self) -> Result<Self::Client, Error> {
        self.direct.client()
    }
    fn handlers(&mut self) -> Vec<&mut DirectHandler> {
        self.direct.handlers()
    }
}

/// Serves until the service is to serve no more. Returns the number of rounds.
async fn serve_until_stopped(svc: &mut Limited) -> u32 {
    let mut rounds = 0;
    let mut round = Round::none();
    loop {
        match svc.serve(&round) {
            ServeAction::BeginRound => {
                (round, _) = run_round(svc.handlers()).await;
                rounds += 1;
            }
            ServeAction::AwaitHandlers => panic!("the round is over"),
            ServeAction::Stop => return rounds,
        }
    }
}

#[test]
fn a_service_that_keeps_serving_for_one_round_stops_then() -> Result<(), Error> {
    let mut svc = Limited { direct: DirectService::new(), rounds_left: Cell::new(1) };
    let mut cli = svc.client()?;
    task::block_on(async move {
        let client = async move {
            cli.tx.send(Request::A).await?;
            assert_eq!(cli.rx.next().await, Some(Response::A));
            Result::<(), Error>::Ok(())
        };
        let (rounds, result) = future::join(serve_until_stopped(&mut svc), client).await;
        assert_eq!(rounds, 1);
        result
    })
}

#[test]
fn a_service_is_asked_before_each_round() -> Result<(), Error> {
    let mut svc = Limited { direct: DirectService::new(), rounds_left: Cell::new(3) };
    let mut cli = svc.client()?;
    task::block_on(async move {
        for req in [Request::A, Request::B, Request::A] {
            cli.tx.send(req).await?;
        }
        assert_eq!(serve_until_stopped(&mut svc).await, 3);
        for res in [Response::A, Response::B, Response::A] {
            assert_eq!(cli.rx.next().await, Some(res));
        }
        Ok(())
    })
}

#[test]
fn a_table_with_gaps_keeps_its_ids() -> Result<(), Error> {
    let mut svc = DirectService::new();
    drop(svc.client()?);
    svc.table.clients[0].0 = 5;
    svc.table.next_client_id = 9;
    drop(svc.client()?);
    assert_eq!(svc.handlers().len(), 2);
    let ids: Vec<u8> = svc.table.clients.iter().map(|client| client.0).collect();
    assert_eq!(ids, vec![5, 9]);
    assert_eq!(svc.table.next_client_id, 10);
    Ok(())
}

#[test]
fn ends_meet_and_ids_run_out() -> Result<(), Error> {
    let mut svc = DirectService::new();
    for i in 0..255usize {
        let cli = svc.client()?;
        let handlers = svc.handlers();
        assert_eq!(handlers.len(), i + 1);
        assert!(cli.tx.is_connected_to(&handlers[i].rx));
        assert!(handlers[i].tx.is_connected_to(&cli.rx));
    }
    match svc.client() {
        Err(e) => assert_eq!(e.to_string(), "exceeded max clients"),
        Ok(_) => panic!("too many clients"),
    }
    assert_eq!(svc.handlers().len(), 255);
    Ok(())
}
