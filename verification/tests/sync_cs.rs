use rscs::client_table::ClientTable;
use rscs::sync_cs::{Client, ClientHandler, Service};
use rscs::test_fixtures::{Error, Request, Response};
use std::sync::mpsc;

struct TestClient {
    tx: mpsc::Sender<Request>,
    rx: mpsc::Receiver<Response>,
}

impl Client<Request, Response> for TestClient {
    type Error = Error;
    fn new(tx: mpsc::Sender<Request>, rx: mpsc::Receiver<Response>) -> Self {
        Self { tx, rx }
    }
    fn send(&mut self, req: Request) -> Result<(), Self::Error> {
        self.tx.send(req).map_err(|e| Error(format!("{e:?}")))
    }
    fn recv(&mut self) -> Result<Response, Self::Error> {
        self.rx.recv().map_err(|e| Error(format!("{e:?}")))
    }
}

struct TestClientHandler {
    tx: mpsc::Sender<Response>,
    rx: mpsc::Receiver<Request>,
}

impl ClientHandler<Request, Response> for TestClientHandler {
    type Error = Error;
    fn send(&mut self, res: Response) -> Result<(), Self::Error> {
        self.tx.send(res).map_err(|e| Error(format!("{e:?}")))
    }
    fn recv(&mut self) -> Result<Option<Request>, Self::Error> {
        Ok(self.rx.iter().next())
    }
}

struct TestService {
    clients: ClientTable<TestClientHandler>,
}

impl TestService {
    fn new() -> Self {
        Self { clients: ClientTable::new() }
    }
}

impl Service<Request, Response> for TestService {
    type Error = Error;
    type Client = TestClient;
    type ClientHandler = TestClientHandler;

    fn client(&mut self) -> Result<Self::Client, Self::Error> {
        let (ctx, srx) = mpsc::channel();
        let (stx, crx) = mpsc::channel();
        self.clients.add_client(TestClientHandler { tx: stx, rx: srx })?;
        Ok(Self::Client::new(ctx, crx))
    }

    fn process_next_request(&mut self) -> Result<(), Self::Error> {
        self.clients.process_next_request()
    }
}

#[test]
fn sync_cs_process_one_request() -> Result<(), Error> {
    let mut svc = TestService::new();
    let mut cli = svc.client()?;
    cli.send(Request::A)?;
    svc.process_next_request()?;
    assert_eq!(cli.recv()?, Response::A);
    Ok(())
}

#[test]
fn process_two_requests() -> Result<(), Error> {
    let mut svc = TestService::new();
    let mut cli = svc.client()?;
    cli.send(Request::A)?;
    cli.send(Request::B)?;
    svc.process_next_request()?;
    svc.process_next_request()?;
    assert_eq!(cli.recv()?, Response::A);
    assert_eq!(cli.recv()?, Response::B);
    Ok(())
}

#[test]
fn process_two_requests_sequentially() -> Result<(), Error> {
    let mut svc = TestService::new();
    let mut cli = svc.client()?;
    cli.send(Request::A)?;
    cli.send(Request::B)?;
    svc.process_next_request()?;
    assert_eq!(cli.recv()?, Response::A);
    svc.process_next_request()?;
    assert_eq!(cli.recv()?, Response::B);
    Ok(())
}

#[test]
fn clients_that_left_are_passed_over() -> Result<(), Error> {
    let mut svc = TestService::new();
    drop(svc.client()?);
    let mut cli = svc.client()?;
    cli.send(Request::B)?;
    svc.process_next_request()?;
    assert_eq!(cli.recv()?, Response::B);
    drop(cli);
    svc.process_next_request()
}

#[test]
fn a_client_that_left_gets_no_response() -> Result<(), Error> {
    let mut svc = TestService::new();
    let mut cli = svc.client()?;
    cli.send(Request::A)?;
    drop(cli);
    match svc.process_next_request() {
        Err(e) => assert_eq!(e.to_string(), "SendError { .. }"),
        Ok(()) => panic!("the response went somewhere"),
    }
    Ok(())
}

#[test]
fn shutdown_is_not_answered() -> Result<(), Error> {
    let mut svc = TestService::new();
    let mut cli = svc.client()?;
    cli.send(Request::Shutdown)?;
    cli.send(Request::B)?;
    svc.process_next_request()?;
    svc.process_next_request()?;
    assert_eq!(cli.recv()?, Response::B);
    Ok(())
}
