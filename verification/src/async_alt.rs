//! A service that waits for whichever client asks first, with the list of clients
//! and the handling of requests left to its users.

use crate::channel::CHANNEL_BUFFER;
use crate::test_fixtures::Error;
use futures::channel::mpsc::{self, Receiver, Sender};
use std::marker::PhantomData;
use vstd::prelude::*;

verus! {

pub trait ClientId: Ord + Copy {

}

impl<T: Ord + Copy> ClientId for T {

}

/// The clients of a service, and the service's ends of the channels to them.
pub trait ClientData<Req, Res, Id: ClientId> {
    /// What holds of the list of clients between any two calls.
    open spec fn inv(&self) -> bool {
        true
    }

    /// The clients in the order in which `clients_mut` hands them out.
    open spec fn clients(&self) -> Seq<(Id, Sender<Res>, Receiver<Req>)> {
        arbitrary()
    }

    /// How a client is added: `self` may answer with `result` and be `next` afterwards.
    open spec fn added(
        &self,
        tx: Sender<Res>,
        rx: Receiver<Req>,
        next: &Self,
        result: Result<(), Error>,
    ) -> bool {
        true
    }

    fn clients_mut(&mut self) -> (clients: Vec<(Id, &mut Sender<Res>, &mut Receiver<Req>)>)
        requires
            old(self).inv(),
        ensures
            final(self).inv(),
            clients@.len() == old(self).clients().len(),
            final(self).clients().len() == old(self).clients().len(),
            forall|i: int|
                0 <= i < clients@.len() ==> {
                    let (id, tx, rx) = #[trigger] clients@[i];
                    old(self).clients()[i] == (id, *tx, *rx)
                },
            forall|i: int|
                0 <= i < clients@.len() ==> {
                    let (id, tx, rx) = clients@[i];
                    #[trigger] final(self).clients()[i] == (id, *final(tx), *final(rx))
                },
    ;

    fn num_clients(&self) -> (n: usize)
        requires
            self.inv(),
        ensures
            n == self.clients().len(),
    ;

    fn add_client(&mut self, tx: Sender<Res>, rx: Receiver<Req>) -> (result: Result<(), Error>)
        requires
            old(self).inv(),
        ensures
            final(self).inv(),
            old(self).added(tx, rx, final(self), result),
    ;
}

/// A client of a service: its ends of the channels.
pub trait Client<Req, Res>: Sized {
    /// Where the requests of the client go.
    open spec fn sender(&self) -> Sender<Req> {
        arbitrary()
    }

    /// Where the responses to the client come from.
    open spec fn receiver(&self) -> Receiver<Res> {
        arbitrary()
    }

    fn new(tx: Sender<Req>, rx: Receiver<Res>) -> (client: Self)
        ensures
            client.sender() == tx,
            client.receiver() == rx,
    ;

    fn send(&mut self) -> (tx: &mut Sender<Req>)
        ensures
            *tx == old(self).sender(),
            final(self).sender() == *final(tx),
            final(self).receiver() == old(self).receiver(),
    ;

    fn recv(&mut self) -> (rx: &mut Receiver<Res>)
        ensures
            *rx == old(self).receiver(),
            final(self).receiver() == *final(rx),
            final(self).sender() == old(self).sender(),
    ;
}

/// What a service does about requests.
pub trait ServiceData<Req, Res, C: ClientId> {
    /// How a request is processed: `self` may answer with `response` and be `next`
    /// afterwards.
    open spec fn processed(
        &self,
        client_id: C,
        req: Req,
        next: &Self,
        response: Option<Res>,
    ) -> bool {
        true
    }

    fn process_request(&mut self, client_id: C, req: Req) -> (response: Option<Res>)
        ensures
            old(self).processed(client_id, req, final(self), response),
    ;
}

/// What a service is told while it serves.
pub enum ServeEvent<Id, Req> {
    /// A round begins.
    Round,
    /// A client was waited for: it sent a request, or its channel is closed.
    Received(Id, Option<Req>),
    /// A response was handed to the channel, which took it or refused it.
    Sent,
}

/// What is to be done about it.
pub enum ServeAction<Id, Res> {
    /// Wait for all clients at once.
    AwaitClients,
    /// Send a response to this client.
    Send(Id, Res),
    /// Stop waiting for the other clients and begin another round.
    EndRound,
    /// Serve no more.
    Stop,
}

#[verifier::reject_recursive_types(Req)]
#[verifier::reject_recursive_types(Res)]
#[verifier::reject_recursive_types(C)]
#[verifier::reject_recursive_types(Id)]
pub struct Service<Req: Send, Res, C, Id, Cd, Sd> where
    Id: ClientId,
    C: Client<Req, Res>,
    Cd: ClientData<Req, Res, Id>,
    Sd: ServiceData<Req, Res, Id>,
 {
    pub client_data: Cd,
    pub data: Sd,
    pub keep_serving: bool,
    pub _phantom_data: PhantomData<(Req, Res, C, Id)>,
}

/// How `handle_received` changes the data of a service.
pub open spec fn received<Req, Res, Id: ClientId, Sd: ServiceData<Req, Res, Id>>(
    data: Sd,
    client_id: Id,
    request: Option<Req>,
    next: Sd,
    response: Option<Res>,
) -> bool {
    match request {
        Some(req) => data.processed(client_id, req, &next, response),
        None => next == data && response is None,
    }
}

/// What is to be done with a response to a client, or without one.
pub open spec fn reply<Id, Res>(client_id: Id, response: Option<Res>) -> ServeAction<Id, Res> {
    match response {
        Some(res) => ServeAction::Send(client_id, res),
        None => ServeAction::EndRound,
    }
}

/// Processes what came of waiting for a client, and decides what to do then: a response is sent to
/// the client that was waited for.
pub fn handle_received<Req, Res, Id: ClientId, Sd: ServiceData<Req, Res, Id>>(
    data: &mut Sd,
    client_id: Id,
    request: Option<Req>,
) -> (action: ServeAction<Id, Res>)
    ensures
        exists|response: Option<Res>| #[trigger]
            received(*old(data), client_id, request, *final(data), response) && action == reply(
                client_id,
                response,
            ),
{
    let response = match request {
        Some(req) => data.process_request(client_id, req),
        None => None,
    };
    assert(received(*old(data), client_id, request, *data, response));
    match response {
        Some(res) => ServeAction::Send(client_id, res),
        None => ServeAction::EndRound,
    }
}

impl<Req: Send, Res, C, Id, Cd, Sd> Service<Req, Res, C, Id, Cd, Sd> where
    Id: ClientId,
    C: Client<Req, Res>,
    Cd: ClientData<Req, Res, Id>,
    Sd: ServiceData<Req, Res, Id>,
 {
    /// How a service serves: `self` may answer `event` with `action` and be `next`
    /// afterwards.
    pub open spec fn served(
        &self,
        event: ServeEvent<Id, Req>,
        next: &Self,
        action: ServeAction<Id, Res>,
    ) -> bool {
        &&& next.client_data == self.client_data
        &&& next.keep_serving == self.keep_serving
        &&& match event {
            ServeEvent::Round => next.data == self.data && action == (if self.keep_serving {
                ServeAction::<Id, Res>::AwaitClients
            } else {
                ServeAction::<Id, Res>::Stop
            }),
            ServeEvent::Received(client_id, request) => exists|response: Option<Res>|
                #[trigger] received(self.data, client_id, request, next.data, response) && action
                    == reply(client_id, response),
            ServeEvent::Sent => next.data == self.data && action == ServeAction::<
                Id,
                Res,
            >::EndRound,
        }
    }

    pub fn new(data: Sd, client_data: Cd) -> (service: Self)
        ensures
            service.client_data == client_data,
            service.data == data,
            service.keep_serving,
    {
        Service { client_data, data, keep_serving: true, _phantom_data: PhantomData }
    }

    /// Adds a client, and returns its ends of two new channels: one for requests
    /// and one for responses.
    pub fn client(&mut self) -> (result: Result<C, Error>)
        requires
            old(self).client_data.inv(),
        ensures
            final(self).client_data.inv(),
            final(self).data == old(self).data,
            final(self).keep_serving == old(self).keep_serving,
            exists|
                ctx: Sender<Req>,
                srx: Receiver<Req>,
                stx: Sender<Res>,
                crx: Receiver<Res>,
                answer: Result<(), Error>,
            |
                {
                    &&& #[trigger] crate::channel::linked(ctx, srx)
                    &&& #[trigger] crate::channel::linked(stx, crx)
                    &&& #[trigger] old(self).client_data.added(
                        stx,
                        srx,
                        &final(self).client_data,
                        answer,
                    )
                    &&& match answer {
                        Ok(()) => result matches Ok(client) && client.sender() == ctx
                            && client.receiver() == crx,
                        Err(e) => result == Err::<C, Error>(e),
                    }
                },
    {
        let (ctx, srx) = mpsc::channel::<Req>(CHANNEL_BUFFER);
        let (stx, crx) = mpsc::channel::<Res>(CHANNEL_BUFFER);
        assert(crate::channel::linked(ctx, srx));
        assert(crate::channel::linked(stx, crx));
        match self.client_data.add_client(stx, srx) {
            Ok(()) => Ok(C::new(ctx, crx)),
            Err(e) => Err(e),
        }
    }

    /// Lets the service stop before its next round.
    pub fn shutdown(&mut self)
        ensures
            !final(self).keep_serving,
            final(self).client_data == old(self).client_data,
            final(self).data == old(self).data,
    {
        self.keep_serving = false;
    }

    /// Decides what to do about an event while the service serves. A round needs a client to wait
    /// for.
    pub fn serve(&mut self, event: ServeEvent<Id, Req>) -> (action: ServeAction<Id, Res>)
        requires
            event is Round && old(self).keep_serving ==> old(self).client_data.clients().len() > 0,
        ensures
            old(self).served(event, final(self), action),
    {
        match event {
            ServeEvent::Round => if self.keep_serving {
                ServeAction::AwaitClients
            } else {
                ServeAction::Stop
            },
            ServeEvent::Received(client_id, request) => {
                let action = handle_received(&mut self.data, client_id, request);
                proof {
                    let response = choose|response: Option<Res>| #[trigger]
                        received(old(self).data, client_id, request, self.data, response)
                            && action == reply(client_id, response);
                    assert(received(old(self).data, client_id, request, self.data, response));
                }
                action
            },
            ServeEvent::Sent => ServeAction::EndRound,
        }
    }
}

/// Nothing that a service is told while it serves makes it stop or go on: a service that was
/// shut down stops at its next round, and one that was not does not stop.
pub proof fn law_only_shutdown_stops<Req: Send, Res, C, Id, Cd, Sd>(
    before: Service<Req, Res, C, Id, Cd, Sd>,
    event: ServeEvent<Id, Req>,
    after: Service<Req, Res, C, Id, Cd, Sd>,
    action: ServeAction<Id, Res>,
) where
    Id: ClientId,
    C: Client<Req, Res>,
    Cd: ClientData<Req, Res, Id>,
    Sd: ServiceData<Req, Res, Id>,

    requires
        before.served(event, &after, action),
    ensures
        after.keep_serving == before.keep_serving,
        action is Stop <==> event is Round && !before.keep_serving,
{
}

/// A service that was `start` has answered each of `events` with the action at the same place in
/// `actions`, and is `end` now.
pub open spec fn served_all<Req: Send, Res, C, Id, Cd, Sd>(
    start: Service<Req, Res, C, Id, Cd, Sd>,
    events: Seq<ServeEvent<Id, Req>>,
    actions: Seq<ServeAction<Id, Res>>,
    end: Service<Req, Res, C, Id, Cd, Sd>,
) -> bool where
    Id: ClientId,
    C: Client<Req, Res>,
    Cd: ClientData<Req, Res, Id>,
    Sd: ServiceData<Req, Res, Id>,

    decreases events.len(),
{
    &&& actions.len() == events.len()
    &&& if events.len() == 0 {
        end == start
    } else {
        exists|mid: Service<Req, Res, C, Id, Cd, Sd>|
            served_all(start, events.drop_last(), actions.drop_last(), mid)
                && #[trigger] mid.served(events.last(), &end, actions.last())
    }
}

/// The requests among events, each with the client that it came from.
pub open spec fn requests<Id, Req>(events: Seq<ServeEvent<Id, Req>>) -> Seq<(Id, Req)>
    decreases events.len(),
{
    if events.len() == 0 {
        seq![]
    } else {
        let earlier = requests(events.drop_last());
        match events.last() {
            ServeEvent::Received(client_id, Some(req)) => earlier.push((client_id, req)),
            _ => earlier,
        }
    }
}

/// The responses that actions send, each with the client that it goes to.
pub open spec fn sends<Id, Res>(actions: Seq<ServeAction<Id, Res>>) -> Seq<(Id, Res)>
    decreases actions.len(),
{
    if actions.len() == 0 {
        seq![]
    } else {
        let earlier = sends(actions.drop_last());
        match actions.last() {
            ServeAction::Send(client_id, res) => earlier.push((client_id, res)),
            _ => earlier,
        }
    }
}

/// Data that was `start` has processed each of `requests` once, in order, with the response at the
/// same place in `responses`, and is `end` now.
pub open spec fn processed_all<Req, Res, Id: ClientId, Sd: ServiceData<Req, Res, Id>>(
    start: Sd,
    requests: Seq<(Id, Req)>,
    responses: Seq<Option<Res>>,
    end: Sd,
) -> bool
    decreases requests.len(),
{
    &&& responses.len() == requests.len()
    &&& if requests.len() == 0 {
        end == start
    } else {
        exists|mid: Sd|
            processed_all(start, requests.drop_last(), responses.drop_last(), mid)
                && #[trigger] mid.processed(
                requests.last().0,
                requests.last().1,
                &end,
                responses.last(),
            )
    }
}

/// The responses to requests, each with the client that asked. A request without a response has
/// no place among them.
pub open spec fn replies<Req, Res, Id>(
    requests: Seq<(Id, Req)>,
    responses: Seq<Option<Res>>,
) -> Seq<(Id, Res)>
    decreases requests.len(),
{
    if requests.len() == 0 {
        seq![]
    } else {
        let earlier = replies(requests.drop_last(), responses.drop_last());
        match responses.last() {
            Some(res) => earlier.push((requests.last().0, res)),
            None => earlier,
        }
    }
}

/// Over any stretch of serving, each request is processed exactly once, in the order in which the
/// requests come, and each response is sent exactly once, to the client that asked; a request
/// that gets no response leads to none. The responses that the data gave are the result.
pub proof fn law_each_request_is_answered_once<Req: Send, Res, C, Id, Cd, Sd>(
    start: Service<Req, Res, C, Id, Cd, Sd>,
    events: Seq<ServeEvent<Id, Req>>,
    actions: Seq<ServeAction<Id, Res>>,
    end: Service<Req, Res, C, Id, Cd, Sd>,
) -> (responses: Seq<Option<Res>>) where
    Id: ClientId,
    C: Client<Req, Res>,
    Cd: ClientData<Req, Res, Id>,
    Sd: ServiceData<Req, Res, Id>,

    requires
        served_all(start, events, actions, end),
    ensures
        processed_all(start.data, requests(events), responses, end.data),
        sends(actions) == replies(requests(events), responses),
        end.keep_serving == start.keep_serving,
    decreases events.len(),
{
    if events.len() == 0 {
        seq![]
    } else {
        let mid = choose|mid: Service<Req, Res, C, Id, Cd, Sd>|
            served_all(start, events.drop_last(), actions.drop_last(), mid)
                && #[trigger] mid.served(events.last(), &end, actions.last());
        let earlier = law_each_request_is_answered_once(
            start,
            events.drop_last(),
            actions.drop_last(),
            mid,
        );
        match events.last() {
            ServeEvent::Received(client_id, Some(req)) => {
                let response = choose|response: Option<Res>| #[trigger]
                    received(mid.data, client_id, Some(req), end.data, response)
                        && actions.last() == reply(client_id, response);
                let all = requests(events);
                let responses = earlier.push(response);
                assert(all.drop_last() =~= requests(events.drop_last()));
                assert(responses.drop_last() =~= earlier);
                assert(mid.data.processed(
                    all.last().0,
                    all.last().1,
                    &end.data,
                    responses.last(),
                ));
                responses
            },
            _ => earlier,
        }
    }
}

/// `serve` has the clients waited for at a round only, and exactly while the service was not shut
/// down; it stops at a round only, and exactly when the service was. Whatever else it is told, a
/// response goes out or the round ends, so that the service is asked again before it waits.
pub proof fn law_serve_waits_at_rounds_only<Req: Send, Res, C, Id, Cd, Sd>(
    service: &mut Service<Req, Res, C, Id, Cd, Sd>,
    event: ServeEvent<Id, Req>,
    action: ServeAction<Id, Res>,
) where
    Id: ClientId,
    C: Client<Req, Res>,
    Cd: ClientData<Req, Res, Id>,
    Sd: ServiceData<Req, Res, Id>,

    requires
        call_ensures(Service::<Req, Res, C, Id, Cd, Sd>::serve, (service, event), action),
    ensures
        action is AwaitClients <==> event is Round && old(service).keep_serving,
        action is Stop <==> event is Round && !old(service).keep_serving,
        event is Sent ==> action is EndRound,
        action is Send ==> (event matches ServeEvent::Received(_, Some(_))),
        final(service).keep_serving == old(service).keep_serving,
        final(service).client_data == old(service).client_data,
        !(event is Received) ==> final(service).data == old(service).data,
{
}

/// `serve` lets the data process every request once, and has the response, if there is one, sent
/// to the client that asked; a request without a response ends the round.
pub proof fn law_serve_answers_every_request<Req: Send, Res, C, Id, Cd, Sd>(
    service: &mut Service<Req, Res, C, Id, Cd, Sd>,
    client_id: Id,
    req: Req,
    action: ServeAction<Id, Res>,
) where
    Id: ClientId,
    C: Client<Req, Res>,
    Cd: ClientData<Req, Res, Id>,
    Sd: ServiceData<Req, Res, Id>,

    requires
        call_ensures(
            Service::<Req, Res, C, Id, Cd, Sd>::serve,
            (service, ServeEvent::Received(client_id, Some(req))),
            action,
        ),
    ensures
        exists|response: Option<Res>|
            {
                &&& #[trigger] old(service).data.processed(
                    client_id,
                    req,
                    &final(service).data,
                    response,
                )
                &&& response is Some <==> action is Send
                &&& response is None <==> action is EndRound
                &&& action matches ServeAction::Send(to, res) ==> to == client_id && response
                    == Some(res)
            },
{
}

/// `serve` ends the round when the channel of a client is closed, and nothing is processed.
pub proof fn law_serve_ends_round_at_closed_channel<Req: Send, Res, C, Id, Cd, Sd>(
    service: &mut Service<Req, Res, C, Id, Cd, Sd>,
    client_id: Id,
    action: ServeAction<Id, Res>,
) where
    Id: ClientId,
    C: Client<Req, Res>,
    Cd: ClientData<Req, Res, Id>,
    Sd: ServiceData<Req, Res, Id>,

    requires
        call_ensures(
            Service::<Req, Res, C, Id, Cd, Sd>::serve,
            (service, ServeEvent::Received(client_id, None)),
            action,
        ),
    ensures
        action is EndRound,
        final(service).data == old(service).data,
{
}

/// A service can be told of anything but of a round in which there is nobody to wait for.
pub proof fn law_serve_can_be_told<Req: Send, Res, C, Id, Cd, Sd>(
    service: &mut Service<Req, Res, C, Id, Cd, Sd>,
    event: ServeEvent<Id, Req>,
) where
    Id: ClientId,
    C: Client<Req, Res>,
    Cd: ClientData<Req, Res, Id>,
    Sd: ServiceData<Req, Res, Id>,

    requires
        event is Round && old(service).keep_serving ==> old(service).client_data.clients().len()
            > 0,
    ensures
        call_requires(Service::<Req, Res, C, Id, Cd, Sd>::serve, (service, event)),
{
}

/// `handle_received` lets the data process a request once, and has the response, if there is one,
/// sent to the client that asked. Without a request the data stays as it is.
pub proof fn law_received_request_is_answered<
    Req,
    Res,
    Id: ClientId,
    Sd: ServiceData<Req, Res, Id>,
>(
    data: &mut Sd,
    client_id: Id,
    request: Option<Req>,
    action: ServeAction<Id, Res>,
)
    requires
        call_ensures(
            handle_received::<Req, Res, Id, Sd>,
            (data, client_id, request),
            action,
        ),
    ensures
        action is Send || action is EndRound,
        action matches ServeAction::Send(to, _) ==> to == client_id,
        request is None ==> action is EndRound && *final(data) == *old(data),
        request is Some ==> old(data).processed(
            client_id,
            request->Some_0,
            final(data),
            match action {
                ServeAction::Send(_, res) => Some(res),
                _ => None,
            },
        ),
{
}

/// `client` has the service's ends of two new channels added to its clients, and gives out the
/// other end of each, exactly when they are taken. A refusal is passed on. Nothing else changes.
pub proof fn law_client_gets_the_other_ends<Req: Send, Res, C, Id, Cd, Sd>(
    service: &mut Service<Req, Res, C, Id, Cd, Sd>,
    result: Result<C, Error>,
) where
    Id: ClientId,
    C: Client<Req, Res>,
    Cd: ClientData<Req, Res, Id>,
    Sd: ServiceData<Req, Res, Id>,

    requires
        call_ensures(Service::<Req, Res, C, Id, Cd, Sd>::client, (service,), result),
    ensures
        final(service).data == old(service).data,
        final(service).keep_serving == old(service).keep_serving,
        exists|
            ctx: Sender<Req>,
            srx: Receiver<Req>,
            stx: Sender<Res>,
            crx: Receiver<Res>,
            answer: Result<(), Error>,
        |
            {
                &&& #[trigger] call_ensures(mpsc::channel::<Req>, (32usize,), (ctx, srx))
                &&& #[trigger] call_ensures(mpsc::channel::<Res>, (32usize,), (stx, crx))
                &&& #[trigger] old(service).client_data.added(
                    stx,
                    srx,
                    &final(service).client_data,
                    answer,
                )
                &&& result is Ok <==> answer is Ok
                &&& result matches Ok(client) ==> client.sender() == ctx && client.receiver()
                    == crx
                &&& result matches Err(e) ==> answer == Err::<(), Error>(e)
            },
{
    let (ctx, srx, stx, crx, answer) = choose|
        ctx: Sender<Req>,
        srx: Receiver<Req>,
        stx: Sender<Res>,
        crx: Receiver<Res>,
        answer: Result<(), Error>,
    |
        {
            &&& #[trigger] crate::channel::linked(ctx, srx)
            &&& #[trigger] crate::channel::linked(stx, crx)
            &&& #[trigger] old(service).client_data.added(
                stx,
                srx,
                &final(service).client_data,
                answer,
            )
            &&& match answer {
                Ok(()) => result matches Ok(client) && client.sender() == ctx
                    && client.receiver() == crx,
                Err(e) => result == Err::<C, Error>(e),
            }
        };
    assert(call_ensures(mpsc::channel::<Req>, (32usize,), (ctx, srx)));
    assert(call_ensures(mpsc::channel::<Res>, (32usize,), (stx, crx)));
}

/// A service that was shut down stops at its next round, with all that it holds.
pub proof fn law_shutdown_stops<Req: Send, Res, C, Id, Cd, Sd>(
    service: &mut Service<Req, Res, C, Id, Cd, Sd>,
) where
    Id: ClientId,
    C: Client<Req, Res>,
    Cd: ClientData<Req, Res, Id>,
    Sd: ServiceData<Req, Res, Id>,

    requires
        call_ensures(Service::<Req, Res, C, Id, Cd, Sd>::shutdown, (service,), ()),
    ensures
        !final(service).keep_serving,
        final(service).client_data == old(service).client_data,
        final(service).data == old(service).data,
{
}

/// A new service serves, with what it was given.
pub proof fn law_new_service_serves<Req: Send, Res, C, Id, Cd, Sd>(
    data: Sd,
    client_data: Cd,
    service: Service<Req, Res, C, Id, Cd, Sd>,
) where
    Id: ClientId,
    C: Client<Req, Res>,
    Cd: ClientData<Req, Res, Id>,
    Sd: ServiceData<Req, Res, Id>,

    requires
        call_ensures(Service::<Req, Res, C, Id, Cd, Sd>::new, (data, client_data), service),
    ensures
        service.keep_serving,
        service.data == data,
        service.client_data == client_data,
{
}

} // verus!
