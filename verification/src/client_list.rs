//! The parts of a service whose clients live in the same process.

use crate::async_alt::{Client, ClientData, ClientId, ServiceData};
use crate::test_fixtures::{respond, Error, Request, Response};
use futures::channel::mpsc::{Receiver, Sender};
use vstd::prelude::*;

verus! {

/// The first id that is not given out: one short of the largest one.
pub const MAX_CLIENTS: u8 = 254;

/// Clients that get the ids from zero up, in the order in which they come.
#[verifier::reject_recursive_types(Req)]
#[verifier::reject_recursive_types(Res)]
pub struct ClientList<Req, Res> {
    pub handlers: Vec<(u8, Sender<Res>, Receiver<Req>)>,
    pub next_id: u8,
}

impl<Req, Res> ClientList<Req, Res> {
    pub fn new() -> (list: Self)
        ensures
            list.inv(),
            list.clients().len() == 0,
            list.next_id == 0,
    {
        ClientList { handlers: Vec::new(), next_id: 0 }
    }
}

impl<Req, Res> ClientData<Req, Res, u8> for ClientList<Req, Res> {
    /// The clients stand in the order of their ids, which are below the next one.
    open spec fn inv(&self) -> bool {
        &&& self.next_id <= MAX_CLIENTS
        &&& forall|i: int|
            0 <= i < self.handlers@.len() ==> (#[trigger] self.handlers@[i]).0 < self.next_id
        &&& forall|i: int, j: int|
            0 <= i < j < self.handlers@.len() ==> (#[trigger] self.handlers@[i]).0 < (
            #[trigger] self.handlers@[j]).0
    }

    open spec fn clients(&self) -> Seq<(u8, Sender<Res>, Receiver<Req>)> {
        self.handlers@
    }

    /// A list takes a client under the next id until the ids are used up, and then it takes none
    /// and stays as it is.
    open spec fn added(
        &self,
        tx: Sender<Res>,
        rx: Receiver<Req>,
        next: &Self,
        result: Result<(), Error>,
    ) -> bool {
        if self.next_id == MAX_CLIENTS {
            &&& result matches Err(e) && e@ == "num clients exceeds u8::MAX"@
            &&& next.handlers@ == self.handlers@
            &&& next.next_id == self.next_id
        } else {
            &&& result is Ok
            &&& next.handlers@ == self.handlers@.push((self.next_id, tx, rx))
            &&& next.next_id == self.next_id + 1
        }
    }

    fn clients_mut(&mut self) -> (clients: Vec<(u8, &mut Sender<Res>, &mut Receiver<Req>)>)
        ensures
            final(self).next_id == old(self).next_id,
    {
        let mut clients: Vec<(u8, &mut Sender<Res>, &mut Receiver<Req>)> = Vec::new();
        let mut rest: &mut [(u8, Sender<Res>, Receiver<Req>)] = self.handlers.as_mut_slice();
        while rest.len() > 0
            invariant
                clients@.len() + rest@.len() == old(self).handlers@.len(),
                rest@ == old(self).handlers@.skip(clients@.len() as int),
                forall|i: int|
                    0 <= i < clients@.len() ==> {
                        let (id, tx, rx) = #[trigger] clients@[i];
                        old(self).handlers@[i] == (id, *tx, *rx)
                    },
                after_borrow(self.handlers)@ == Seq::new(
                    clients@.len(),
                    |i: int| (clients@[i].0, *final(clients@[i].1), *final(clients@[i].2)),
                ) + final(rest)@,
            decreases rest@.len(),
        {
            let (head, tail) = rest.split_at_mut(1);
            let client = &mut head[0];
            clients.push((client.0, &mut client.1, &mut client.2));
            rest = tail;
        }
        clients
    }

    fn num_clients(&self) -> usize {
        self.handlers.len()
    }

    fn add_client(&mut self, tx: Sender<Res>, rx: Receiver<Req>) -> Result<(), Error> {
        if self.next_id == MAX_CLIENTS {
            return Err(Error("num clients exceeds u8::MAX".to_owned()));
        }
        self.handlers.push((self.next_id, tx, rx));
        self.next_id += 1;
        Ok(())
    }
}

/// A client that holds the two ends and nothing else.
#[verifier::reject_recursive_types(Req)]
#[verifier::reject_recursive_types(Res)]
pub struct DirectClient<Req, Res> {
    pub tx: Sender<Req>,
    pub rx: Receiver<Res>,
}

impl<Req, Res> Client<Req, Res> for DirectClient<Req, Res> {
    open spec fn sender(&self) -> Sender<Req> {
        self.tx
    }

    open spec fn receiver(&self) -> Receiver<Res> {
        self.rx
    }

    fn new(tx: Sender<Req>, rx: Receiver<Res>) -> Self {
        DirectClient { tx, rx }
    }

    fn send(&mut self) -> &mut Sender<Req> {
        &mut self.tx
    }

    fn recv(&mut self) -> &mut Receiver<Res> {
        &mut self.rx
    }
}

/// A service without data of its own.
pub struct Data {}

impl<C: ClientId> ServiceData<Request, Response, C> for Data {
    open spec fn processed(
        &self,
        client_id: C,
        req: Request,
        next: &Self,
        response: Option<Response>,
    ) -> bool {
        next == self && response == crate::test_fixtures::answer(req)
    }

    fn process_request(&mut self, _client_id: C, req: Request) -> Option<Response> {
        respond(req)
    }
}

/// No two clients of a list have the same id.
pub proof fn law_ids_are_distinct<Req, Res>(list: ClientList<Req, Res>, i: int, j: int)
    requires
        list.inv(),
        0 <= i < j < list.clients().len(),
    ensures
        list.clients()[i].0 != list.clients()[j].0,
{
    assert(list.handlers@[i].0 < list.handlers@[j].0);
}

/// Every id below the next one is that of a client, as in a list that was new once and has only
/// grown.
pub open spec fn is_gapless<Req, Res>(list: ClientList<Req, Res>) -> bool {
    &&& list.handlers@.len() == list.next_id
    &&& forall|i: int| 0 <= i < list.handlers@.len() ==> (#[trigger] list.handlers@[i]).0 == i
}

/// A gapless list, such as a new one, takes a client exactly as long as it holds less than
/// `MAX_CLIENTS` of them, and stays gapless. A client that it takes stands behind the others, which
/// stay as they are, and a client that it refuses leaves the list as it was.
pub proof fn law_list_takes_clients_until_full<Req, Res>(
    list: ClientList<Req, Res>,
    tx: Sender<Res>,
    rx: Receiver<Req>,
    next: ClientList<Req, Res>,
    result: Result<(), Error>,
)
    requires
        list.inv(),
        is_gapless(list),
        list.added(tx, rx, &next, result),
    ensures
        is_gapless(next),
        result is Ok <==> list.clients().len() < MAX_CLIENTS,
        next.clients() == (if result is Ok {
            list.clients().push((list.clients().len() as u8, tx, rx))
        } else {
            list.clients()
        }),
{
}

/// `add_client` puts a client behind the others, under the next id, and the next id goes up by
/// one. It refuses a client exactly when the next id is one short of the largest, and then
/// nothing changes.
pub proof fn law_client_is_added_under_next_id<Req, Res>(
    list: &mut ClientList<Req, Res>,
    tx: Sender<Res>,
    rx: Receiver<Req>,
    result: Result<(), Error>,
)
    requires
        call_ensures(
            <ClientList<Req, Res> as ClientData<Req, Res, u8>>::add_client,
            (list, tx, rx),
            result,
        ),
    ensures
        result is Err <==> old(list).next_id == u8::MAX - 1,
        result matches Err(e) ==> e.0@ == "num clients exceeds u8::MAX"@,
        final(list).next_id == old(list).next_id + (if result is Ok {
            1int
        } else {
            0
        }),
        final(list).handlers@.len() == old(list).handlers@.len() + (if result is Ok {
            1int
        } else {
            0
        }),
        forall|i: int|
            0 <= i < old(list).handlers@.len() ==> #[trigger] final(list).handlers@[i]
                == old(list).handlers@[i],
        result is Ok ==> final(list).handlers@.last() == (old(list).next_id, tx, rx),
{
}

/// `clients_mut` hands out each client once, in order, with its id. What is done to the ends that
/// it hands out is done to the list, and nothing else is.
pub proof fn law_each_client_is_handed_out<Req, Res>(
    list: &mut ClientList<Req, Res>,
    clients: Vec<(u8, &mut Sender<Res>, &mut Receiver<Req>)>,
    i: int,
)
    requires
        call_ensures(
            <ClientList<Req, Res> as ClientData<Req, Res, u8>>::clients_mut,
            (list,),
            clients,
        ),
    ensures
        final(list).next_id == old(list).next_id,
        clients@.len() == old(list).handlers@.len(),
        final(list).handlers@.len() == old(list).handlers@.len(),
        0 <= i < clients@.len() ==> {
            let before = old(list).handlers@[i];
            let after = final(list).handlers@[i];
            &&& clients@[i].0 == before.0
            &&& *clients@[i].1 == before.1
            &&& *clients@[i].2 == before.2
            &&& after.0 == before.0
            &&& after.1 == *final(clients@[i].1)
            &&& after.2 == *final(clients@[i].2)
        },
{
    assert(0 <= i < clients@.len() ==> final(list).clients()[i] == (
        clients@[i].0,
        *final(clients@[i].1),
        *final(clients@[i].2),
    ));
}

/// `num_clients` counts the clients.
pub proof fn law_clients_are_counted<Req, Res>(list: ClientList<Req, Res>, n: usize)
    requires
        call_ensures(
            <ClientList<Req, Res> as ClientData<Req, Res, u8>>::num_clients,
            (&list,),
            n,
        ),
    ensures
        n == list.handlers@.len(),
{
}

/// A list can be asked and added to as long as its clients stand in the order of their ids, which
/// are below the next one, and the largest id is not the next one.
pub proof fn law_ordered_list_can_be_used<Req, Res>(
    list: &mut ClientList<Req, Res>,
    tx: Sender<Res>,
    rx: Receiver<Req>,
)
    requires
        old(list).next_id < u8::MAX,
        forall|i: int|
            0 <= i < old(list).handlers@.len() ==> (#[trigger] old(list).handlers@[i]).0
                < old(list).next_id,
        forall|i: int, j: int|
            0 <= i < j < old(list).handlers@.len() ==> (#[trigger] old(list).handlers@[i]).0 < (
            #[trigger] old(list).handlers@[j]).0,
    ensures
        call_requires(
            <ClientList<Req, Res> as ClientData<Req, Res, u8>>::add_client,
            (list, tx, rx),
        ),
        call_requires(<ClientList<Req, Res> as ClientData<Req, Res, u8>>::clients_mut, (list,)),
        call_requires(
            <ClientList<Req, Res> as ClientData<Req, Res, u8>>::num_clients,
            (&*old(list),),
        ),
{
}

/// A new list holds no client and gives the id zero first.
pub proof fn law_new_list_is_empty<Req, Res>(list: ClientList<Req, Res>)
    requires
        call_ensures(ClientList::<Req, Res>::new, (), list),
    ensures
        list.handlers@.len() == 0,
        list.next_id == 0,
{
}

/// A client holds the ends that it was made of.
pub proof fn law_client_holds_its_ends<Req, Res>(
    tx: Sender<Req>,
    rx: Receiver<Res>,
    client: DirectClient<Req, Res>,
)
    requires
        call_ensures(<DirectClient<Req, Res> as Client<Req, Res>>::new, (tx, rx), client),
    ensures
        client.tx == tx,
        client.rx == rx,
{
}

/// A client gives out the end that requests go into, and keeps the other one as it is.
pub proof fn law_client_sends_into_its_end<Req, Res>(
    client: &mut DirectClient<Req, Res>,
    tx: &mut Sender<Req>,
)
    requires
        call_ensures(<DirectClient<Req, Res> as Client<Req, Res>>::send, (client,), tx),
    ensures
        *old(tx) == old(client).tx,
        final(client).tx == *final(tx),
        final(client).rx == old(client).rx,
{
}

/// A client gives out the end that responses come out of, and keeps the other one as it is.
pub proof fn law_client_receives_from_its_end<Req, Res>(
    client: &mut DirectClient<Req, Res>,
    rx: &mut Receiver<Res>,
)
    requires
        call_ensures(<DirectClient<Req, Res> as Client<Req, Res>>::recv, (client,), rx),
    ensures
        *old(rx) == old(client).rx,
        final(client).rx == *final(rx),
        final(client).tx == old(client).tx,
{
}

/// The data of a service answers each of the two requests in kind, whoever asks, and no other.
pub proof fn law_data_answers_in_kind<C: ClientId>(
    data: &mut Data,
    client_id: C,
    req: Request,
    response: Option<Response>,
)
    requires
        call_ensures(
            <Data as ServiceData<Request, Response, C>>::process_request,
            (data, client_id, req),
            response,
        ),
    ensures
        req is A <==> response == Some(Response::A),
        req is B <==> response == Some(Response::B),
        req is Shutdown <==> response is None,
{
}

} // verus!
