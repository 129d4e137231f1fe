//! A service whose clients live in the same process and which never stops.

use crate::async_cs::{Client, Handler, Service};
use crate::channel::CHANNEL_BUFFER;
use crate::client_list::DirectClient;
use crate::client_table::ClientTable;
use crate::test_fixtures::{respond, Error, Request, Response};
use futures::channel::mpsc::{self, Receiver, Sender};
use vstd::prelude::*;

verus! {

impl<Req, Res> Client<Req, Res> for DirectClient<Req, Res> {
    type Error = Error;

    open spec fn sender(&self) -> Sender<Req> {
        self.tx
    }

    open spec fn receiver(&self) -> Receiver<Res> {
        self.rx
    }

    fn new(tx: Sender<Req>, rx: Receiver<Res>) -> Self {
        DirectClient { tx, rx }
    }
}

/// The service's ends of the channels to a client.
pub struct DirectHandler {
    pub tx: Sender<Response>,
    pub rx: Receiver<Request>,
}

impl Handler<Request, Response> for DirectHandler {
    type Error = Error;
}

pub struct DirectService {
    pub table: ClientTable<DirectHandler>,
}

impl DirectService {
    pub fn new() -> (service: Self)
        ensures
            service.inv(),
            service.all_handlers().len() == 0,
            service.table.next_client_id == 0,
    {
        DirectService { table: ClientTable::new() }
    }

    /// What to send back for a request, if anything.
    pub fn process_request(req: Request) -> (response: Option<Response>)
        ensures
            response == crate::test_fixtures::answer(req),
    {
        respond(req)
    }
}

impl Service<Request, Response> for DirectService {
    type Client = DirectClient<Request, Response>;

    type ClientId = u8;

    type Handler = DirectHandler;

    type Error = Error;

    open spec fn inv(&self) -> bool {
        self.table.inv()
    }

    open spec fn may_say(&self, keep_serving: bool) -> bool {
        keep_serving
    }

    open spec fn all_handlers(&self) -> Seq<DirectHandler> {
        self.table.clients@.map_values(|client: (u8, DirectHandler)| client.1)
    }

    fn keep_serving(&self) -> bool {
        true
    }

    /// Takes in a client with two new channels to it, while an id is left for it.
    fn client(&mut self) -> (result: Result<DirectClient<Request, Response>, Error>)
        ensures
            match result {
                Ok(client) => {
                    &&& old(self).table.next_client_id < u8::MAX
                    &&& final(self).table.next_client_id == old(self).table.next_client_id + 1
                    &&& final(self).table.clients@ == old(self).table.clients@.push(
                        (old(self).table.next_client_id, final(self).all_handlers().last()),
                    )
                    &&& final(self).all_handlers().len() == old(self).all_handlers().len() + 1
                    &&& final(self).all_handlers().drop_last() == old(self).all_handlers()
                    &&& crate::channel::linked(client.tx, final(self).all_handlers().last().rx)
                    &&& crate::channel::linked(final(self).all_handlers().last().tx, client.rx)
                },
                Err(e) => {
                    &&& old(self).table.next_client_id == u8::MAX
                    &&& final(self).table.next_client_id == u8::MAX
                    &&& final(self).table.clients@ == old(self).table.clients@
                    &&& e@ == "exceeded max clients"@
                },
            },
    {
        let (ctx, srx) = mpsc::channel::<Request>(CHANNEL_BUFFER);
        let (stx, crx) = mpsc::channel::<Response>(CHANNEL_BUFFER);
        match self.table.add_client(DirectHandler { tx: stx, rx: srx }) {
            Ok(_) => {
                assert(self.all_handlers().drop_last() =~= old(self).all_handlers());
                Ok(DirectClient { tx: ctx, rx: crx })
            },
            Err(e) => Err(e),
        }
    }

    fn handlers(&mut self) -> (handlers: Vec<&mut DirectHandler>)
        ensures
            final(self).table.next_client_id == old(self).table.next_client_id,
            forall|i: int|
                0 <= i < handlers@.len() ==> (#[trigger] final(self).table.clients@[i]).0
                    == old(self).table.clients@[i].0,
    {
        self.table.handlers()
    }
}

/// A new service holds no client and gives the id zero first.
pub proof fn law_new_service_is_empty(service: DirectService)
    requires
        call_ensures(DirectService::new, (), service),
    ensures
        service.table.clients@.len() == 0,
        service.table.next_client_id == 0,
{
}

/// `client` puts the service's ends of two new channels behind the other clients, under the next
/// id, and gives out the other end of each. It refuses exactly when the next id is the largest,
/// and then nothing changes.
pub proof fn law_client_gets_the_other_ends(
    service: &mut DirectService,
    result: Result<DirectClient<Request, Response>, Error>,
)
    requires
        call_ensures(
            <DirectService as Service<Request, Response>>::client,
            (service,),
            result,
        ),
    ensures
        result is Err <==> old(service).table.next_client_id == u8::MAX,
        result matches Err(e) ==> e.0@ == "exceeded max clients"@,
        result is Err ==> final(service).table.clients@ == old(service).table.clients@
            && final(service).table.next_client_id == old(service).table.next_client_id,
        result matches Ok(client) ==> {
            let added = final(service).table.clients@.last();
            &&& final(service).table.next_client_id == old(service).table.next_client_id + 1
            &&& final(service).table.clients@ == old(service).table.clients@.push(added)
            &&& added.0 == old(service).table.next_client_id
            &&& call_ensures(mpsc::channel::<Request>, (32usize,), (client.tx, added.1.rx))
            &&& call_ensures(mpsc::channel::<Response>, (32usize,), (added.1.tx, client.rx))
        },
{
}

/// `handlers` hands out the handler of each client once, in order. What is done to what it hands
/// out is done to the service, and nothing else is.
pub proof fn law_each_handler_is_handed_out(
    service: &mut DirectService,
    handlers: Vec<&mut DirectHandler>,
    i: int,
)
    requires
        call_ensures(
            <DirectService as Service<Request, Response>>::handlers,
            (service,),
            handlers,
        ),
    ensures
        final(service).table.next_client_id == old(service).table.next_client_id,
        handlers@.len() == old(service).table.clients@.len(),
        final(service).table.clients@.len() == old(service).table.clients@.len(),
        0 <= i < handlers@.len() ==> {
            &&& *handlers@[i] == old(service).table.clients@[i].1
            &&& final(service).table.clients@[i].0 == old(service).table.clients@[i].0
            &&& final(service).table.clients@[i].1 == *final(handlers@[i])
        },
{
    if 0 <= i < handlers@.len() {
        assert(*handlers@[i] == old(service).all_handlers()[i]);
        assert(final(service).all_handlers()[i] == *final(handlers@[i]));
        assert(final(service).table.clients@[i].0 == old(service).table.clients@[i].0);
    }
}

/// The service never stops: it begins a round whenever the last one is over.
pub proof fn law_service_keeps_serving(
    service: DirectService,
    keep: bool,
    round: crate::async_cs::Round,
    action: crate::async_cs::ServeAction,
)
    requires
        call_ensures(
            <DirectService as Service<Request, Response>>::keep_serving,
            (&service,),
            keep,
        ),
        call_ensures(
            <DirectService as Service<Request, Response>>::serve,
            (&service, &round),
            action,
        ),
    ensures
        keep,
        !(action is Stop),
{
}

/// The service answers each of the two requests in kind.
pub proof fn law_service_answers_in_kind(req: Request, response: Option<Response>)
    requires
        call_ensures(DirectService::process_request, (req,), response),
    ensures
        req is A <==> response == Some(Response::A),
        req is B <==> response == Some(Response::B),
        req is Shutdown <==> response is None,
{
}

/// A client holds the ends that it was made of.
pub proof fn law_client_holds_its_ends<Req, Res>(
    tx: Sender<Req>,
    rx: Receiver<Res>,
    client: DirectClient<Req, Res>,
)
    requires
        call_ensures(<DirectClient<Req, Res> as Client<Req, Res>>::new, (tx, rx), client),
    ensures
        client.tx == tx,
        client.rx == rx,
{
}

/// A service can be asked for its handlers, and for a client, as long as its clients stand in the
/// order of their ids, which are below the next one.
pub proof fn law_ordered_service_can_be_used(service: &mut DirectService)
    requires
        forall|i: int|
            0 <= i < old(service).table.clients@.len() ==> (
            #[trigger] old(service).table.clients@[i]).0 < old(service).table.next_client_id,
        forall|i: int, j: int|
            0 <= i < j < old(service).table.clients@.len() ==> (
            #[trigger] old(service).table.clients@[i]).0 < (
            #[trigger] old(service).table.clients@[j]).0,
    ensures
        call_requires(<DirectService as Service<Request, Response>>::client, (service,)),
        call_requires(<DirectService as Service<Request, Response>>::handlers, (service,)),
{
}

} // verus!
