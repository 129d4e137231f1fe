use async_std::task;
use futures::channel::mpsc;
use futures::future;
use futures::{SinkExt, StreamExt};
use rscs::async_alt::{handle_received, Client, ClientData, ServeAction, ServeEvent, Service};
use rscs::client_list::{ClientList, Data, DirectClient};
use rscs::test_fixtures::{respond, Error, Request, Response};
use std::sync::{Arc, Mutex};

type Svc = Service<
    Request,
    Response,
    DirectClient<Request, Response>,
    u8,
    ClientList<Request, Response>,
    Data,
>;

fn new_service() -> Svc {
    Service::new(Data {}, ClientList::new())
}

/// Serves until `stop` is set.
async fn serve(svc: &mut Svc, stop: Arc<Mutex<bool>>) {
    loop {
        if *stop.lock().unwrap() {
            svc.shutdown();
        }
        match svc.serve(ServeEvent::Round) {
            ServeAction::AwaitClients => {}
            ServeAction::Stop => return,
            _ => panic!("a round begins or not"),
        }
        let data = Mutex::new(&mut svc.data);
        let mut handlers = Vec::with_capacity(svc.client_data.num_clients());
        for (id, tx, rx) in svc.client_data.clients_mut() {
            let data = &data;
            handlers.push(Box::pin(async move {
                let request = rx.next().await;
                let action = handle_received(&mut **data.lock().unwrap(), id, request);
                if let ServeAction::Send(to, response) = action {
                    assert_eq!(to, id);
                    tx.send(response).await.unwrap();
                }
            }));
        }
        future::select_all(handlers).await;
    }
}

#[test]
fn async_alt_process_one_request() -> Result<(), Error> {
    let mut svc = new_service();
    let mut cli = svc.client()?;
    let stop = Arc::new(Mutex::new(false));
    let shutdown = {
        let stop = stop.clone();
        async move {
            *stop.lock().unwrap() = true;
        }
    };
    task::block_on(async move {
        let client = async move {
            cli.send().send(Request::A).await?;
            assert_eq!(cli.recv().next().await, Some(Response::A));
            cli.send().send(Request::Shutdown).await?;
            shutdown.await;
            Result::<(), Error>::Ok(())
        };
        let ((), result) = future::join(serve(&mut svc, stop), client).await;
        result
    })
}

#[test]
fn the_ends_of_a_client_meet_those_of_the_service() -> Result<(), Error> {
    let mut svc = new_service();
    let mut first = svc.client()?;
    let mut second = svc.client()?;
    let clients = svc.client_data.clients_mut();
    assert_eq!(clients.len(), 2);
    for (i, cli) in [&mut first, &mut second].into_iter().enumerate() {
        let (id, tx, rx) = &clients[i];
        assert_eq!(*id as usize, i);
        assert!(cli.send().is_connected_to(rx));
        assert!(tx.is_connected_to(cli.recv()));
        let (_, other_tx, other_rx) = &clients[1 - i];
        assert!(!cli.send().is_connected_to(other_rx));
        assert!(!other_tx.is_connected_to(cli.recv()));
    }
    Ok(())
}

#[test]
fn a_channel_holds_as_many_messages_as_its_buffer_and_one_more() -> Result<(), Error> {
    let mut svc = new_service();
    let mut cli = svc.client()?;
    for _ in 0..33 {
        assert!(cli.send().try_send(Request::A).is_ok());
    }
    match cli.send().try_send(Request::A) {
        Err(e) => assert!(e.is_full()),
        Ok(()) => panic!("too many messages"),
    }
    Ok(())
}

#[test]
fn a_full_list_refuses_clients() {
    let mut svc = new_service();
    for _ in 0..254 {
        assert!(svc.client().is_ok());
    }
    for _ in 0..2 {
        match svc.client() {
            Err(e) => assert_eq!(e.to_string(), "num clients exceeds u8::MAX"),
            Ok(_) => panic!("too many clients"),
        }
        assert_eq!(svc.client_data.num_clients(), 254);
        assert_eq!(svc.client_data.next_id, 254);
    }
    let ids: Vec<u8> = svc.client_data.clients_mut().iter().map(|client| client.0).collect();
    assert_eq!(ids, (0..254u8).collect::<Vec<u8>>());
}

#[test]
fn a_service_that_was_shut_down_stops_at_its_next_round() {
    let mut svc = new_service();
    assert!(svc.client().is_ok());
    assert!(matches!(svc.serve(ServeEvent::Round), ServeAction::AwaitClients));
    svc.shutdown();
    assert!(matches!(
        svc.serve(ServeEvent::Received(3, Some(Request::B))),
        ServeAction::Send(3, Response::B)
    ));
    assert!(matches!(svc.serve(ServeEvent::Sent), ServeAction::EndRound));
    assert!(matches!(svc.serve(ServeEvent::Received(3, None)), ServeAction::EndRound));
    assert!(matches!(
        svc.serve(ServeEvent::Received(3, Some(Request::Shutdown))),
        ServeAction::EndRound
    ));
    assert!(matches!(svc.serve(ServeEvent::Round), ServeAction::Stop));
    assert!(!svc.keep_serving);
}

#[test]
fn a_service_without_clients_can_be_shut_down() {
    let mut svc = new_service();
    svc.shutdown();
    assert!(matches!(svc.serve(ServeEvent::Round), ServeAction::Stop));
}

#[test]
fn each_request_is_answered_to_the_client_that_asked() {
    let mut svc = new_service();
    for _ in 0..2 {
        assert!(svc.client().is_ok());
    }
    for (id, req, res) in [
        (1, Request::A, Response::A),
        (0, Request::B, Response::B),
        (1, Request::B, Response::B),
    ] {
        assert!(matches!(svc.serve(ServeEvent::Round), ServeAction::AwaitClients));
        match svc.serve(ServeEvent::Received(id, Some(req))) {
            ServeAction::Send(to, response) => assert_eq!((to, response), (id, res)),
            _ => panic!("no response"),
        }
        assert!(matches!(svc.serve(ServeEvent::Sent), ServeAction::EndRound));
    }
}

#[test]
fn a_list_whose_ids_are_used_up_refuses_clients() {
    let mut svc: Svc = Service::new(Data {}, ClientList { handlers: Vec::new(), next_id: 254 });
    match svc.client() {
        Err(e) => assert_eq!(e.to_string(), "num clients exceeds u8::MAX"),
        Ok(_) => panic!("no id is left"),
    }
    assert_eq!(svc.client_data.num_clients(), 0);
    assert_eq!(svc.client_data.next_id, 254);
}

#[test]
fn a_list_may_have_gaps() {
    let list = ClientList { handlers: Vec::new(), next_id: 7 };
    let mut svc: Svc = Service::new(Data {}, list);
    assert!(svc.client().is_ok());
    assert!(svc.client().is_ok());
    let ids: Vec<u8> = svc.client_data.clients_mut().iter().map(|client| client.0).collect();
    assert_eq!(ids, vec![7, 8]);
    assert_eq!(svc.client_data.next_id, 9);
}

#[test]
fn answers() {
    assert_eq!(respond(Request::A), Some(Response::A));
    assert_eq!(respond(Request::B), Some(Response::B));
    assert_eq!(respond(Request::Shutdown), None);
}

#[test]
fn errors_of_channels_are_described() {
    let (mut tx, rx) = mpsc::channel::<u8>(0);
    tx.try_send(1).unwrap();
    let full = tx.try_send(2).unwrap_err().into_send_error();
    assert_eq!(Error::from(full).to_string(), "SendError { kind: Full }");
    drop(rx);
    let gone = tx.try_send(3).unwrap_err().into_send_error();
    let text = format!("{gone:?}");
    assert_eq!(text, "SendError { kind: Disconnected }");
    assert_eq!(Error::from(gone).to_string(), text);
}
