//! A service that takes in clients while it serves.

use std::collections::BTreeMap;
use std::marker::PhantomData;
use vstd::prelude::*;

verus! {

pub type ClientId = u32;

/// What a service keeps of a client.
pub trait ClientHandler<Req, Res> {
    /// How a response is sent: `self` may be `next` afterwards.
    open spec fn responded(&self, res: Res, next: &Self) -> bool {
        true
    }

    fn send_response(&mut self, res: Res)
        ensures
            old(self).responded(res, final(self)),
    ;
}

/// What a service does about requests.
pub trait ServiceHandler<Req, Res>: Send + 'static {
    /// How a request is handled: `self` may answer with `response` and be `next` afterwards.
    open spec fn handled(
        &self,
        id: ClientId,
        req: Req,
        next: &Self,
        response: Option<Res>,
    ) -> bool {
        true
    }

    fn handle_request(&mut self, id: &ClientId, req: Req) -> (response: Option<Res>)
        ensures
            old(self).handled(*id, req, final(self), response),
    ;
}

/// What a service is told while it serves.
pub enum ServeEvent<Req, T, E> {
    /// A round begins.
    Round,
    /// A client sent a request.
    Request(ClientId, Req),
    /// A client arrived, or failed to.
    Arrival(Result<T, E>),
}

/// What is to be done about it.
#[derive(Debug, PartialEq, Eq, Structural)]
pub enum ServeAction {
    /// Wait for a request of any client and for the arrival of a client, whichever comes first.
    Await,
    /// Begin another round.
    EndRound,
    /// Serve no more.
    Stop,
}

/// The clients after the arrival of one more: it takes the place under the next id,
/// unless that is the last id of all.
pub open spec fn with_client<Cli>(
    clients: Map<ClientId, Cli>,
    next_id: ClientId,
    client: Cli,
) -> Map<ClientId, Cli> {
    if next_id == ClientId::MAX {
        clients
    } else {
        clients.insert(next_id, client)
    }
}

/// Puts a client under the next id, in the place of the one that is there. The next id stays the
/// same. When it is the last id of all the client is dropped.
pub fn handle_new_client<Cli>(
    client: Cli,
    clients: &mut BTreeMap<ClientId, Cli>,
    next_id: &ClientId,
)
    ensures
        final(clients)@ == with_client(old(clients)@, *next_id, client),
{
    if *next_id == ClientId::MAX {
        // there is nobody to tell
    } else {
        clients.insert(*next_id, client);
    }
}

/// How a request is answered: what becomes of the clients and of the handler.
pub open spec fn answered<
    Req,
    Res,
    Cli: ClientHandler<Req, Res>,
    Hdl: ServiceHandler<Req, Res>,
>(
    id: ClientId,
    req: Req,
    clients: Map<ClientId, Cli>,
    handler: Hdl,
    next_clients: Map<ClientId, Cli>,
    next_handler: Hdl,
) -> bool {
    exists|response: Option<Res>| #[trigger]
        handler.handled(id, req, &next_handler, response) && match response {
            Some(res) => exists|client: Cli| #[trigger]
                clients[id].responded(res, &client) && next_clients == clients.insert(id, client),
            None => next_clients == clients,
        }
}

/// A response to the request has somewhere to go: the client is there, or no response
/// can come of it.
pub open spec fn has_recipient<
    Req,
    Res,
    Cli: ClientHandler<Req, Res>,
    Hdl: ServiceHandler<Req, Res>,
>(id: ClientId, req: Req, clients: Map<ClientId, Cli>, handler: Hdl) -> bool {
    clients.contains_key(id) || forall|next: Hdl, res: Res|
        !(#[trigger] handler.handled(id, req, &next, Some(res)))
}

/// Lets the handler see a request, and sends what it answers to the client that
/// asked.
pub fn handle_next_request<
    Req,
    Res,
    Cli: ClientHandler<Req, Res>,
    Hdl: ServiceHandler<Req, Res>,
>(id: ClientId, req: Req, clients: &mut BTreeMap<ClientId, Cli>, handler: &mut Hdl)
    requires
        has_recipient(id, req, old(clients)@, *old(handler)),
    ensures
        answered(id, req, old(clients)@, *old(handler), final(clients)@, *final(handler)),
{
    let response = handler.handle_request(&id, req);
    assert(old(handler).handled(id, req, handler, response));
    if let Some(res) = response {
        if let Some(mut client) = clients.remove(&id) {
            let ghost before = client;
            client.send_response(res);
            assert(before.responded(res, &client));
            clients.insert(id, client);
            assert(old(clients)@.remove(id).insert(id, client) =~= old(clients)@.insert(
                id,
                client,
            ));
        }
    }
}

#[verifier::reject_recursive_types(Req)]
#[verifier::reject_recursive_types(Res)]
#[verifier::reject_recursive_types(Cli)]
pub struct Service<Req, Res, Cli, Hdl> where
    Hdl: ServiceHandler<Req, Res>,
    Cli: ClientHandler<Req, Res>,
 {
    pub handler: Hdl,
    pub keep_serving: bool,
    pub clients: BTreeMap<ClientId, Cli>,
    pub next_id: ClientId,
    pub _phantom_data: PhantomData<(Req, Res)>,
}

/// What becomes of the clients when some arrive. Failures to arrive change nothing.
pub open spec fn with_arrivals<Cli, T: Into<Cli>, E>(
    clients: Map<ClientId, Cli>,
    next_id: ClientId,
    arrivals: Seq<Result<T, E>>,
    next_clients: Map<ClientId, Cli>,
) -> bool
    decreases arrivals.len(),
{
    if arrivals.len() == 0 {
        next_clients == clients
    } else {
        exists|mid: Map<ClientId, Cli>|
            {
                &&& with_arrivals::<Cli, T, E>(clients, next_id, arrivals.drop_last(), mid)
                &&& #[trigger] with_arrival::<Cli, T, E>(
                    mid,
                    next_id,
                    arrivals.last(),
                    next_clients,
                )
            }
    }
}

/// What becomes of the clients when one arrives or fails to.
pub open spec fn with_arrival<Cli, T: Into<Cli>, E>(
    clients: Map<ClientId, Cli>,
    next_id: ClientId,
    arrival: Result<T, E>,
    next_clients: Map<ClientId, Cli>,
) -> bool {
    match arrival {
        Ok(t) => exists|client: Cli| #[trigger]
            call_ensures(<T as Into<Cli>>::into, (t,), client) && next_clients == with_client(
                clients,
                next_id,
                client,
            ),
        Err(_) => next_clients == clients,
    }
}

impl<Req, Res, Cli, Hdl> Service<Req, Res, Cli, Hdl> where
    Cli: ClientHandler<Req, Res>,
    Hdl: ServiceHandler<Req, Res>,
 {
    pub fn new(handler: Hdl) -> (service: Self)
        ensures
            service.handler == handler,
            service.keep_serving,
            service.clients@ == Map::<ClientId, Cli>::empty(),
            service.next_id == 0,
    {
        Service {
            handler,
            keep_serving: true,
            clients: BTreeMap::new(),
            next_id: 0,
            _phantom_data: PhantomData,
        }
    }

    /// Takes in a client that arrives.
    fn register_client<T: Into<Cli>, E>(&mut self, arrival: Result<T, E>)
        ensures
            final(self).handler == old(self).handler,
            final(self).keep_serving == old(self).keep_serving,
            final(self).next_id == old(self).next_id,
            with_arrival::<Cli, T, E>(
                old(self).clients@,
                old(self).next_id,
                arrival,
                final(self).clients@,
            ),
    {
        match arrival {
            Ok(t) => {
                let client: Cli = t.into();
                assert(call_ensures(<T as Into<Cli>>::into, (t,), client));
                handle_new_client(client, &mut self.clients, &self.next_id);
            },
            Err(_) => {},
        }
    }

    /// Takes in the clients that arrive, one after the other.
    pub fn register_clients<T: Into<Cli>, E>(&mut self, arrivals: Vec<Result<T, E>>)
        ensures
            final(self).handler == old(self).handler,
            final(self).keep_serving == old(self).keep_serving,
            final(self).next_id == old(self).next_id,
            with_arrivals::<Cli, T, E>(
                old(self).clients@,
                old(self).next_id,
                arrivals@,
                final(self).clients@,
            ),
    {
        for arrival in iter: arrivals
            invariant
                iter.seq() == arrivals@,
                self.handler == old(self).handler,
                self.keep_serving == old(self).keep_serving,
                self.next_id == old(self).next_id,
                with_arrivals::<Cli, T, E>(
                    old(self).clients@,
                    old(self).next_id,
                    arrivals@.take(iter.index() as int),
                    self.clients@,
                ),
        {
            let ghost i = iter.index() as int;
            let ghost before = self.clients@;
            self.register_client(arrival);
            assert(arrivals@.take(i + 1).drop_last() =~= arrivals@.take(i));
            assert(with_arrival::<Cli, T, E>(
                before,
                old(self).next_id,
                arrivals@.take(i + 1).last(),
                self.clients@,
            ));
        }
        assert(arrivals@.take(arrivals@.len() as int) =~= arrivals@);
    }

    /// Lets the service stop before its next round.
    pub fn shutdown(&mut self)
        ensures
            !final(self).keep_serving,
            final(self).handler == old(self).handler,
            final(self).clients@ == old(self).clients@,
            final(self).next_id == old(self).next_id,
    {
        self.keep_serving = false;
    }

    /// How a service serves: `self` may answer `event` with `action` and be `next`
    /// afterwards.
    pub open spec fn served<T: Into<Cli>, E>(
        &self,
        event: ServeEvent<Req, T, E>,
        next: &Self,
        action: ServeAction,
    ) -> bool {
        &&& next.keep_serving == self.keep_serving
        &&& next.next_id == self.next_id
        &&& match event {
            ServeEvent::Round => {
                &&& next.handler == self.handler
                &&& next.clients@ == self.clients@
                &&& action == (if self.keep_serving {
                    ServeAction::Await
                } else {
                    ServeAction::Stop
                })
            },
            ServeEvent::Request(id, req) => {
                &&& answered(id, req, self.clients@, self.handler, next.clients@, next.handler)
                &&& action == ServeAction::EndRound
            },
            ServeEvent::Arrival(arrival) => {
                &&& next.handler == self.handler
                &&& with_arrival::<Cli, T, E>(self.clients@, self.next_id, arrival, next.clients@)
                &&& action == ServeAction::EndRound
            },
        }
    }

    /// Decides what to do about an event while the service serves.
    pub fn serve<T: Into<Cli>, E>(&mut self, event: ServeEvent<Req, T, E>) -> (action: ServeAction)
        requires
            event matches ServeEvent::Request(id, req) ==> has_recipient(
                id,
                req,
                old(self).clients@,
                old(self).handler,
            ),
        ensures
            old(self).served(event, final(self), action),
    {
        match event {
            ServeEvent::Round => if self.keep_serving {
                ServeAction::Await
            } else {
                ServeAction::Stop
            },
            ServeEvent::Request(id, req) => {
                handle_next_request(id, req, &mut self.clients, &mut self.handler);
                ServeAction::EndRound
            },
            ServeEvent::Arrival(arrival) => {
                self.register_client(arrival);
                ServeAction::EndRound
            },
        }
    }
}

/// The next id is still zero and at most one client is there, under that id.
pub open spec fn holds_one_client_at_most<
    Req,
    Res,
    Cli: ClientHandler<Req, Res>,
    Hdl: ServiceHandler<Req, Res>,
>(service: Service<Req, Res, Cli, Hdl>) -> bool {
    &&& service.next_id == 0
    &&& forall|id: ClientId| #[trigger] service.clients@.contains_key(id) ==> id == 0
}

/// Whatever a service is told while it serves, it holds one client at most, as a new
/// service does: the one that came last.
pub proof fn law_serving_holds_one_client_at_most<
    Req,
    Res,
    Cli: ClientHandler<Req, Res>,
    Hdl: ServiceHandler<Req, Res>,
    T: Into<Cli>,
    E,
>(
    before: Service<Req, Res, Cli, Hdl>,
    event: ServeEvent<Req, T, E>,
    after: Service<Req, Res, Cli, Hdl>,
    action: ServeAction,
)
    requires
        holds_one_client_at_most(before),
        before.served(event, &after, action),
        event matches ServeEvent::Request(id, req) ==> has_recipient(
            id,
            req,
            before.clients@,
            before.handler,
        ),
    ensures
        holds_one_client_at_most(after),
{
}

/// Of the clients that arrive, the last one is kept under the next id, and all others stay
/// as they were. `last` is its place among the arrivals; those behind it are failures.
pub proof fn law_last_arrival_is_kept<Cli, T: Into<Cli>, E>(
    clients: Map<ClientId, Cli>,
    next_id: ClientId,
    arrivals: Seq<Result<T, E>>,
    last: int,
    next_clients: Map<ClientId, Cli>,
)
    requires
        next_id != ClientId::MAX,
        0 <= last < arrivals.len(),
        arrivals[last] is Ok,
        forall|i: int| last < i < arrivals.len() ==> #[trigger] arrivals[i] is Err,
        with_arrivals::<Cli, T, E>(clients, next_id, arrivals, next_clients),
    ensures
        exists|client: Cli| #[trigger]
            call_ensures(<T as Into<Cli>>::into, (arrivals[last]->Ok_0,), client) && next_clients
                == clients.insert(next_id, client),
    decreases arrivals.len(),
{
    let rest = arrivals.drop_last();
    let mid = choose|mid: Map<ClientId, Cli>|
        {
            &&& with_arrivals::<Cli, T, E>(clients, next_id, rest, mid)
            &&& #[trigger] with_arrival::<Cli, T, E>(mid, next_id, arrivals.last(), next_clients)
        };
    if last == arrivals.len() - 1 {
        law_arrivals_touch_only_next_id::<Cli, T, E>(clients, next_id, rest, mid);
        let client = choose|client: Cli| #[trigger]
            call_ensures(<T as Into<Cli>>::into, (arrivals[last]->Ok_0,), client) && next_clients
                == with_client(mid, next_id, client);
        assert(mid.insert(next_id, client) =~= mid.remove(next_id).insert(next_id, client));
        assert(clients.insert(next_id, client) =~= clients.remove(next_id).insert(next_id, client));
    } else {
        assert(rest[last] == arrivals[last]);
        assert forall|i: int| last < i < rest.len() implies #[trigger] rest[i] is Err by {
            assert(rest[i] == arrivals[i]);
        }
        law_last_arrival_is_kept::<Cli, T, E>(clients, next_id, rest, last, mid);
    }
}

/// Arrivals change nothing but what is under the next id.
pub proof fn law_arrivals_touch_only_next_id<Cli, T: Into<Cli>, E>(
    clients: Map<ClientId, Cli>,
    next_id: ClientId,
    arrivals: Seq<Result<T, E>>,
    next_clients: Map<ClientId, Cli>,
)
    requires
        with_arrivals::<Cli, T, E>(clients, next_id, arrivals, next_clients),
    ensures
        next_clients.remove(next_id) == clients.remove(next_id),
    decreases arrivals.len(),
{
    if arrivals.len() > 0 {
        let mid = choose|mid: Map<ClientId, Cli>|
            {
                &&& with_arrivals::<Cli, T, E>(clients, next_id, arrivals.drop_last(), mid)
                &&& #[trigger] with_arrival::<Cli, T, E>(
                    mid,
                    next_id,
                    arrivals.last(),
                    next_clients,
                )
            };
        law_arrivals_touch_only_next_id::<Cli, T, E>(clients, next_id, arrivals.drop_last(), mid);
        assert(next_clients.remove(next_id) =~= mid.remove(next_id));
    }
}

/// A service without an id left for a client takes none, whoever arrives.
pub proof fn law_no_arrival_without_id<Cli, T: Into<Cli>, E>(
    clients: Map<ClientId, Cli>,
    arrivals: Seq<Result<T, E>>,
    next_clients: Map<ClientId, Cli>,
)
    requires
        with_arrivals::<Cli, T, E>(clients, ClientId::MAX, arrivals, next_clients),
    ensures
        next_clients == clients,
    decreases arrivals.len(),
{
    if arrivals.len() > 0 {
        let mid = choose|mid: Map<ClientId, Cli>|
            {
                &&& with_arrivals::<Cli, T, E>(clients, ClientId::MAX, arrivals.drop_last(), mid)
                &&& #[trigger] with_arrival::<Cli, T, E>(
                    mid,
                    ClientId::MAX,
                    arrivals.last(),
                    next_clients,
                )
            };
        law_no_arrival_without_id::<Cli, T, E>(clients, arrivals.drop_last(), mid);
    }
}

/// Failures to arrive have no effect: the same can become of the clients when they are left
/// out.
pub proof fn law_failures_have_no_effect<Cli, T: Into<Cli>, E>(
    clients: Map<ClientId, Cli>,
    next_id: ClientId,
    arrivals: Seq<Result<T, E>>,
    next_clients: Map<ClientId, Cli>,
)
    ensures
        with_arrivals::<Cli, T, E>(clients, next_id, arrivals, next_clients) <==> with_arrivals::<
            Cli,
            T,
            E,
        >(clients, next_id, arrivals.filter(|arrival: Result<T, E>| arrival is Ok), next_clients),
    decreases arrivals.len(),
{
    reveal(Seq::filter);
    let succeeded = |arrival: Result<T, E>| arrival is Ok;
    if arrivals.len() > 0 {
        let rest = arrivals.drop_last();
        let arrived = arrivals.filter(succeeded);
        if arrivals.last() is Ok {
            assert(arrived.drop_last() =~= rest.filter(succeeded));
            if with_arrivals::<Cli, T, E>(clients, next_id, arrivals, next_clients) {
                let mid = choose|mid: Map<ClientId, Cli>|
                    {
                        &&& with_arrivals::<Cli, T, E>(clients, next_id, rest, mid)
                        &&& #[trigger] with_arrival::<Cli, T, E>(
                            mid,
                            next_id,
                            arrivals.last(),
                            next_clients,
                        )
                    };
                law_failures_have_no_effect::<Cli, T, E>(clients, next_id, rest, mid);
                assert(with_arrival::<Cli, T, E>(mid, next_id, arrived.last(), next_clients));
            }
            if with_arrivals::<Cli, T, E>(clients, next_id, arrived, next_clients) {
                let mid = choose|mid: Map<ClientId, Cli>|
                    {
                        &&& with_arrivals::<Cli, T, E>(clients, next_id, arrived.drop_last(), mid)
                        &&& #[trigger] with_arrival::<Cli, T, E>(
                            mid,
                            next_id,
                            arrived.last(),
                            next_clients,
                        )
                    };
                law_failures_have_no_effect::<Cli, T, E>(clients, next_id, rest, mid);
                assert(with_arrival::<Cli, T, E>(mid, next_id, arrivals.last(), next_clients));
            }
        } else {
            law_failures_have_no_effect::<Cli, T, E>(clients, next_id, rest, next_clients);
            assert(with_arrival::<Cli, T, E>(
                next_clients,
                next_id,
                arrivals.last(),
                next_clients,
            ));
        }
    }
}

/// A client that arrives as what the service keeps of it is kept as it is.
pub proof fn law_client_is_kept_as_it_is<Cli, E>(
    clients: Map<ClientId, Cli>,
    next_id: ClientId,
    client: Cli,
    next_clients: Map<ClientId, Cli>,
)
    requires
        with_arrival::<Cli, Cli, E>(clients, next_id, Ok(client), next_clients),
    ensures
        next_clients == with_client(clients, next_id, client),
{
}

/// A request changes no client but the one that asked, and none comes or goes.
pub proof fn law_request_leaves_other_clients<
    Req,
    Res,
    Cli: ClientHandler<Req, Res>,
    Hdl: ServiceHandler<Req, Res>,
>(
    id: ClientId,
    req: Req,
    clients: Map<ClientId, Cli>,
    handler: Hdl,
    next_clients: Map<ClientId, Cli>,
    next_handler: Hdl,
)
    requires
        has_recipient(id, req, clients, handler),
        answered(id, req, clients, handler, next_clients, next_handler),
    ensures
        next_clients.dom() == clients.dom(),
        forall|other: ClientId|
            other != id && clients.contains_key(other) ==> #[trigger] next_clients[other]
                == clients[other],
{
    assert(next_clients.dom() =~= clients.dom());
}

/// Nothing that a service is told while it serves makes it stop or go on: a service that was
/// shut down stops at its next round, and one that was not does not stop.
pub proof fn law_only_shutdown_stops<
    Req,
    Res,
    Cli: ClientHandler<Req, Res>,
    Hdl: ServiceHandler<Req, Res>,
    T: Into<Cli>,
    E,
>(
    before: Service<Req, Res, Cli, Hdl>,
    event: ServeEvent<Req, T, E>,
    after: Service<Req, Res, Cli, Hdl>,
    action: ServeAction,
)
    requires
        before.served(event, &after, action),
    ensures
        after.keep_serving == before.keep_serving,
        action == ServeAction::Stop <==> event is Round && !before.keep_serving,
{
}

/// `serve` takes in every client that arrives: it stands under the next id afterwards, whether or
/// not one stood there before, and all others stay. Only the last id of all is not given out.
/// Failures to arrive change nothing. The handler stays as it is either way.
pub proof fn law_serve_takes_in_every_arrival<
    Req,
    Res,
    Cli: ClientHandler<Req, Res>,
    Hdl: ServiceHandler<Req, Res>,
    T: Into<Cli>,
    E,
>(service: &mut Service<Req, Res, Cli, Hdl>, arrival: Result<T, E>, action: ServeAction)
    requires
        call_ensures(
            Service::<Req, Res, Cli, Hdl>::serve::<T, E>,
            (service, ServeEvent::<Req, T, E>::Arrival(arrival)),
            action,
        ),
    ensures
        action == ServeAction::EndRound,
        final(service).handler == old(service).handler,
        final(service).keep_serving == old(service).keep_serving,
        final(service).next_id == old(service).next_id,
        arrival is Err || old(service).next_id == ClientId::MAX ==> final(service).clients@
            == old(service).clients@,
        arrival is Ok && old(service).next_id < ClientId::MAX ==> exists|client: Cli|
            {
                &&& #[trigger] call_ensures(<T as Into<Cli>>::into, (arrival->Ok_0,), client)
                &&& final(service).clients@ == old(service).clients@.insert(
                    old(service).next_id,
                    client,
                )
            },
{
}

/// `serve` lets the handler see every request once, and sends its response, if it gives one, to
/// the client that asked and to no other. The client is there, or the handler gives none.
pub proof fn law_serve_answers_every_request<
    Req,
    Res,
    Cli: ClientHandler<Req, Res>,
    Hdl: ServiceHandler<Req, Res>,
    T: Into<Cli>,
    E,
>(service: &mut Service<Req, Res, Cli, Hdl>, id: ClientId, req: Req, action: ServeAction)
    requires
        call_ensures(
            Service::<Req, Res, Cli, Hdl>::serve::<T, E>,
            (service, ServeEvent::<Req, T, E>::Request(id, req)),
            action,
        ),
        old(service).clients@.contains_key(id) || forall|next: Hdl, res: Res|
            !(#[trigger] old(service).handler.handled(id, req, &next, Some(res))),
    ensures
        action == ServeAction::EndRound,
        final(service).keep_serving == old(service).keep_serving,
        final(service).next_id == old(service).next_id,
        final(service).clients@.dom() == old(service).clients@.dom(),
        forall|other: ClientId|
            other != id && old(service).clients@.contains_key(other)
                ==> #[trigger] final(service).clients@[other] == old(service).clients@[other],
        exists|response: Option<Res>|
            {
                &&& #[trigger] old(service).handler.handled(
                    id,
                    req,
                    &final(service).handler,
                    response,
                )
                &&& response is None ==> final(service).clients@[id] == old(service).clients@[id]
                &&& response is Some ==> old(service).clients@[id].responded(
                    response->Some_0,
                    &final(service).clients@[id],
                )
            },
{
    assert(final(service).clients@.dom() =~= old(service).clients@.dom());
}

/// `serve` begins to wait at a round exactly while the service was not shut down, stops exactly
/// when it was, and changes nothing.
pub proof fn law_serve_asks_before_each_round<
    Req,
    Res,
    Cli: ClientHandler<Req, Res>,
    Hdl: ServiceHandler<Req, Res>,
    T: Into<Cli>,
    E,
>(service: &mut Service<Req, Res, Cli, Hdl>, event: ServeEvent<Req, T, E>, action: ServeAction)
    requires
        call_ensures(
            Service::<Req, Res, Cli, Hdl>::serve::<T, E>,
            (service, event),
            action,
        ),
    ensures
        action == ServeAction::Await <==> event is Round && old(service).keep_serving,
        action == ServeAction::Stop <==> event is Round && !old(service).keep_serving,
        final(service).keep_serving == old(service).keep_serving,
        event is Round ==> {
            &&& final(service).handler == old(service).handler
            &&& final(service).clients@ == old(service).clients@
            &&& final(service).next_id == old(service).next_id
        },
{
}

/// A service can be told of any round and any arrival, of the requests of all its clients, and of
/// requests that its handler gives no response to.
pub proof fn law_serve_can_be_told<
    Req,
    Res,
    Cli: ClientHandler<Req, Res>,
    Hdl: ServiceHandler<Req, Res>,
    T: Into<Cli>,
    E,
>(service: &mut Service<Req, Res, Cli, Hdl>, event: ServeEvent<Req, T, E>)
    requires
        event matches ServeEvent::Request(id, req) ==> old(service).clients@.contains_key(id)
            || forall|next: Hdl, res: Res|
            !(#[trigger] old(service).handler.handled(id, req, &next, Some(res))),
    ensures
        call_requires(Service::<Req, Res, Cli, Hdl>::serve::<T, E>, (service, event)),
{
}

/// A service that was shut down stops at its next round, with all that it holds.
pub proof fn law_shutdown_stops<
    Req,
    Res,
    Cli: ClientHandler<Req, Res>,
    Hdl: ServiceHandler<Req, Res>,
>(service: &mut Service<Req, Res, Cli, Hdl>)
    requires
        call_ensures(Service::<Req, Res, Cli, Hdl>::shutdown, (service,), ()),
    ensures
        !final(service).keep_serving,
        final(service).handler == old(service).handler,
        final(service).clients@ == old(service).clients@,
        final(service).next_id == old(service).next_id,
{
}

/// A new service serves, holds no client and gives the id zero first.
pub proof fn law_new_service_is_empty<
    Req,
    Res,
    Cli: ClientHandler<Req, Res>,
    Hdl: ServiceHandler<Req, Res>,
>(handler: Hdl, service: Service<Req, Res, Cli, Hdl>)
    requires
        call_ensures(Service::<Req, Res, Cli, Hdl>::new, (handler,), service),
    ensures
        service.handler == handler,
        service.keep_serving,
        forall|id: ClientId| !service.clients@.contains_key(id),
        service.next_id == 0,
{
}

/// `handle_new_client` puts the client under the next id, unless that is the last id of all, and
/// leaves what stands under the other ids.
pub proof fn law_new_client_stands_under_next_id<Cli>(
    client: Cli,
    clients: &mut BTreeMap<ClientId, Cli>,
    next_id: ClientId,
)
    requires
        call_ensures(handle_new_client::<Cli>, (client, clients, &next_id), ()),
    ensures
        next_id < ClientId::MAX ==> final(clients)@.contains_key(next_id)
            && final(clients)@[next_id] == client,
        next_id == ClientId::MAX ==> final(clients)@ == old(clients)@,
        final(clients)@.remove(next_id) == old(clients)@.remove(next_id),
{
    assert(final(clients)@.remove(next_id) =~= old(clients)@.remove(next_id));
}

/// `handle_next_request` lets the handler see the request once, and sends its response, if it
/// gives one, to the client that asked and to no other. The client is there, or the handler gives
/// none.
pub proof fn law_response_goes_to_the_client_that_asked<
    Req,
    Res,
    Cli: ClientHandler<Req, Res>,
    Hdl: ServiceHandler<Req, Res>,
>(id: ClientId, req: Req, clients: &mut BTreeMap<ClientId, Cli>, handler: &mut Hdl)
    requires
        call_ensures(
            handle_next_request::<Req, Res, Cli, Hdl>,
            (id, req, clients, handler),
            (),
        ),
        old(clients)@.contains_key(id) || forall|next: Hdl, res: Res|
            !(#[trigger] old(handler).handled(id, req, &next, Some(res))),
    ensures
        call_requires(
            handle_next_request::<Req, Res, Cli, Hdl>,
            (id, req, clients, handler),
        ),
        final(clients)@.dom() == old(clients)@.dom(),
        final(clients)@.remove(id) == old(clients)@.remove(id),
        exists|response: Option<Res>|
            {
                &&& #[trigger] old(handler).handled(id, req, final(handler), response)
                &&& response is None ==> final(clients)@[id] == old(clients)@[id]
                &&& response is Some ==> old(clients)@[id].responded(
                    response->Some_0,
                    &final(clients)@[id],
                )
            },
{
    assert(final(clients)@.dom() =~= old(clients)@.dom());
    assert(final(clients)@.remove(id) =~= old(clients)@.remove(id));
}

/// `register_clients` leaves the last client that arrived under the next id, and all others as
/// they were. `last` is its place among the arrivals; those behind it are failures.
pub proof fn law_register_clients_keeps_the_last<
    Req,
    Res,
    Cli: ClientHandler<Req, Res>,
    Hdl: ServiceHandler<Req, Res>,
    T: Into<Cli>,
    E,
>(service: &mut Service<Req, Res, Cli, Hdl>, arrivals: Vec<Result<T, E>>, last: int)
    requires
        call_ensures(
            Service::<Req, Res, Cli, Hdl>::register_clients::<T, E>,
            (service, arrivals),
            (),
        ),
        old(service).next_id < ClientId::MAX,
        0 <= last < arrivals@.len(),
        arrivals@[last] is Ok,
        forall|i: int| last < i < arrivals@.len() ==> #[trigger] arrivals@[i] is Err,
    ensures
        final(service).handler == old(service).handler,
        final(service).keep_serving == old(service).keep_serving,
        final(service).next_id == old(service).next_id,
        exists|client: Cli|
            {
                &&& #[trigger] call_ensures(
                    <T as Into<Cli>>::into,
                    (arrivals@[last]->Ok_0,),
                    client,
                )
                &&& final(service).clients@ == old(service).clients@.insert(
                    old(service).next_id,
                    client,
                )
            },
{
    law_last_arrival_is_kept::<Cli, T, E>(
        old(service).clients@,
        old(service).next_id,
        arrivals@,
        last,
        final(service).clients@,
    );
}

/// `register_clients` changes nothing when no client arrives or no id is left.
pub proof fn law_register_clients_takes_no_failure<
    Req,
    Res,
    Cli: ClientHandler<Req, Res>,
    Hdl: ServiceHandler<Req, Res>,
    T: Into<Cli>,
    E,
>(service: &mut Service<Req, Res, Cli, Hdl>, arrivals: Vec<Result<T, E>>)
    requires
        call_ensures(
            Service::<Req, Res, Cli, Hdl>::register_clients::<T, E>,
            (service, arrivals),
            (),
        ),
        old(service).next_id == ClientId::MAX || forall|i: int|
            0 <= i < arrivals@.len() ==> #[trigger] arrivals@[i] is Err,
    ensures
        final(service).handler == old(service).handler,
        final(service).keep_serving == old(service).keep_serving,
        final(service).next_id == old(service).next_id,
        final(service).clients@ == old(service).clients@,
{
    if old(service).next_id == ClientId::MAX {
        law_no_arrival_without_id::<Cli, T, E>(
            old(service).clients@,
            arrivals@,
            final(service).clients@,
        );
    } else {
        lemma_failures_leave_clients::<Cli, T, E>(
            old(service).clients@,
            old(service).next_id,
            arrivals@,
            final(service).clients@,
        );
    }
}

proof fn lemma_failures_leave_clients<Cli, T: Into<Cli>, E>(
    clients: Map<ClientId, Cli>,
    next_id: ClientId,
    arrivals: Seq<Result<T, E>>,
    next_clients: Map<ClientId, Cli>,
)
    requires
        with_arrivals::<Cli, T, E>(clients, next_id, arrivals, next_clients),
        forall|i: int| 0 <= i < arrivals.len() ==> #[trigger] arrivals[i] is Err,
    ensures
        next_clients == clients,
    decreases arrivals.len(),
{
    if arrivals.len() > 0 {
        let rest = arrivals.drop_last();
        assert forall|i: int| 0 <= i < rest.len() implies #[trigger] rest[i] is Err by {
            assert(rest[i] == arrivals[i]);
        }
        let mid = choose|mid: Map<ClientId, Cli>|
            {
                &&& with_arrivals::<Cli, T, E>(clients, next_id, rest, mid)
                &&& #[trigger] with_arrival::<Cli, T, E>(
                    mid,
                    next_id,
                    arrivals.last(),
                    next_clients,
                )
            };
        lemma_failures_leave_clients::<Cli, T, E>(clients, next_id, rest, mid);
    }
}

/// A service that was `start` was told of `events` while it served, with the action at the same
/// place in `actions`, and is `end` now. A request came from a client that could be answered.
pub open spec fn served_all<
    Req,
    Res,
    Cli: ClientHandler<Req, Res>,
    Hdl: ServiceHandler<Req, Res>,
    T: Into<Cli>,
    E,
>(
    start: Service<Req, Res, Cli, Hdl>,
    events: Seq<ServeEvent<Req, T, E>>,
    actions: Seq<ServeAction>,
    end: Service<Req, Res, Cli, Hdl>,
) -> bool
    decreases events.len(),
{
    &&& actions.len() == events.len()
    &&& if events.len() == 0 {
        end == start
    } else {
        exists|mid: Service<Req, Res, Cli, Hdl>|
            {
                &&& served_all(start, events.drop_last(), actions.drop_last(), mid)
                &&& #[trigger] mid.served(events.last(), &end, actions.last())
                &&& events.last() matches ServeEvent::Request(id, req) ==> has_recipient(
                    id,
                    req,
                    mid.clients@,
                    mid.handler,
                )
            }
    }
}

/// A client that was `client` was sent `responses` one after the other, and is `now`.
pub open spec fn sent_all<Req, Res, Cli: ClientHandler<Req, Res>>(
    client: Cli,
    responses: Seq<Res>,
    now: Cli,
) -> bool
    decreases responses.len(),
{
    if responses.len() == 0 {
        now == client
    } else {
        exists|mid: Cli|
            sent_all::<Req, Res, Cli>(client, responses.drop_last(), mid) && #[trigger]
                mid.responded(responses.last(), &now)
    }
}

/// Over any stretch of serving, the client under the next id is in the end the one that the last
/// arrival that succeeded was made into, with the responses that it was sent since. Where nobody
/// asks since, it is just as it arrived. `last` is the place of that arrival among the events.
pub proof fn law_serving_keeps_the_last_arrival<
    Req,
    Res,
    Cli: ClientHandler<Req, Res>,
    Hdl: ServiceHandler<Req, Res>,
    T: Into<Cli>,
    E,
>(
    start: Service<Req, Res, Cli, Hdl>,
    events: Seq<ServeEvent<Req, T, E>>,
    actions: Seq<ServeAction>,
    end: Service<Req, Res, Cli, Hdl>,
    last: int,
) -> (found: (Cli, Seq<Res>))
    requires
        served_all(start, events, actions, end),
        start.next_id < ClientId::MAX,
        0 <= last < events.len(),
        events[last] matches ServeEvent::Arrival(Ok(_)),
        forall|i: int|
            last < i < events.len() ==> !(#[trigger] events[i] matches ServeEvent::Arrival(Ok(_))),
    ensures
        call_ensures(<T as Into<Cli>>::into, (events[last]->Arrival_0->Ok_0,), found.0),
        end.next_id == start.next_id,
        end.clients@.contains_key(start.next_id),
        sent_all::<Req, Res, Cli>(found.0, found.1, end.clients@[start.next_id]),
        (forall|i: int| last < i < events.len() ==> !(#[trigger] events[i] is Request))
            ==> found.1.len() == 0 && end.clients@[start.next_id] == found.0,
    decreases events.len(),
{
    let rest = events.drop_last();
    let mid = choose|mid: Service<Req, Res, Cli, Hdl>|
        {
            &&& served_all(start, rest, actions.drop_last(), mid)
            &&& #[trigger] mid.served(events.last(), &end, actions.last())
            &&& events.last() matches ServeEvent::Request(id, req) ==> has_recipient(
                id,
                req,
                mid.clients@,
                mid.handler,
            )
        };
    lemma_serving_keeps_next_id(start, rest, actions.drop_last(), mid);
    let id = start.next_id;
    if last == events.len() - 1 {
        let t = events[last]->Arrival_0->Ok_0;
        let client = choose|client: Cli| #[trigger]
            call_ensures(<T as Into<Cli>>::into, (t,), client) && end.clients@ == with_client(
                mid.clients@,
                id,
                client,
            );
        (client, seq![])
    } else {
        assert(rest[last] == events[last]);
        assert forall|i: int| last < i < rest.len() implies !(#[trigger] rest[i] matches
            ServeEvent::Arrival(Ok(_))) by {
            assert(rest[i] == events[i]);
        }
        let (client, responses) = law_serving_keeps_the_last_arrival(
            start,
            rest,
            actions.drop_last(),
            mid,
            last,
        );
        if forall|i: int| last < i < events.len() ==> !(#[trigger] events[i] is Request) {
            assert forall|i: int| last < i < rest.len() implies !(#[trigger] rest[i] is
                Request) by {
                assert(rest[i] == events[i]);
            }
        }
        match events.last() {
            ServeEvent::Request(asked, req) => {
                assert(events[events.len() - 1] is Request);
                let response = choose|response: Option<Res>| #[trigger]
                    mid.handler.handled(asked, req, &end.handler, response) && match response {
                        Some(res) => exists|client: Cli| #[trigger]
                            mid.clients@[asked].responded(res, &client) && end.clients@
                                == mid.clients@.insert(asked, client),
                        None => end.clients@ == mid.clients@,
                    };
                if asked == id && response is Some {
                    let all = responses.push(response->Some_0);
                    assert(all.drop_last() =~= responses);
                    assert(mid.clients@[id].responded(all.last(), &end.clients@[id]));
                    (client, all)
                } else {
                    (client, responses)
                }
            },
            _ => (client, responses),
        }
    }
}

proof fn lemma_serving_keeps_next_id<
    Req,
    Res,
    Cli: ClientHandler<Req, Res>,
    Hdl: ServiceHandler<Req, Res>,
    T: Into<Cli>,
    E,
>(
    start: Service<Req, Res, Cli, Hdl>,
    events: Seq<ServeEvent<Req, T, E>>,
    actions: Seq<ServeAction>,
    end: Service<Req, Res, Cli, Hdl>,
)
    requires
        served_all(start, events, actions, end),
    ensures
        end.next_id == start.next_id,
        end.keep_serving == start.keep_serving,
    decreases events.len(),
{
    if events.len() > 0 {
        let mid = choose|mid: Service<Req, Res, Cli, Hdl>|
            {
                &&& served_all(start, events.drop_last(), actions.drop_last(), mid)
                &&& #[trigger] mid.served(events.last(), &end, actions.last())
                &&& events.last() matches ServeEvent::Request(id, req) ==> has_recipient(
                    id,
                    req,
                    mid.clients@,
                    mid.handler,
                )
            };
        lemma_serving_keeps_next_id(start, events.drop_last(), actions.drop_last(), mid);
    }
}

} // verus!
