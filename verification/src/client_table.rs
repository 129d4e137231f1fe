//! The clients of a service that looks after each of them in turn.

use crate::sync_cs::ClientHandler;
use crate::test_fixtures::{respond, Error, Request, Response};
use vstd::prelude::*;

verus! {

/// What a service keeps of its clients, under ids that go from zero up in the order in which
/// the clients come.
pub struct ClientTable<H> {
    pub next_client_id: u8,
    pub clients: Vec<(u8, H)>,
}

/// How one request was processed for a client whose handler was `before` and is
/// `after` now: the handler gave a request or failed, and a request that has an
/// answer was answered.
pub open spec fn processed<H: ClientHandler<Request, Response>>(
    before: H,
    after: H,
    result: Result<(), H::Error>,
) -> bool {
    exists|mid: H, got: Result<Option<Request>, H::Error>| #[trigger]
        before.received(&mid, got) && match got {
            Ok(Some(request)) => match crate::test_fixtures::answer(request) {
                Some(response) => mid.sent(response, &after, result),
                None => after == mid && result is Ok,
            },
            Ok(None) => false,
            Err(e) => after == mid && result == Err::<(), H::Error>(e),
        }
}

impl<H> ClientTable<H> {
    /// The clients stand in the order of their ids, which are below the next one.
    pub open spec fn inv(&self) -> bool {
        &&& forall|i: int|
            0 <= i < self.clients@.len() ==> (#[trigger] self.clients@[i]).0 < self.next_client_id
        &&& forall|i: int, j: int|
            0 <= i < j < self.clients@.len() ==> (#[trigger] self.clients@[i]).0 < (
            #[trigger] self.clients@[j]).0
    }

    /// Every id below the next one is that of a client, as in a table that was new once and has
    /// only grown.
    pub open spec fn is_gapless(&self) -> bool {
        &&& self.clients@.len() == self.next_client_id
        &&& forall|i: int| 0 <= i < self.clients@.len() ==> (#[trigger] self.clients@[i]).0 == i
    }

    /// How a client is taken in.
    pub open spec fn added(&self, handler: H, next: &Self, result: Result<u8, Error>) -> bool {
        if self.next_client_id == u8::MAX {
            &&& result matches Err(e) && e@ == "exceeded max clients"@
            &&& next.clients@ == self.clients@
            &&& next.next_client_id == self.next_client_id
        } else {
            &&& result == Ok::<u8, Error>(self.next_client_id)
            &&& next.clients@ == self.clients@.push((self.next_client_id, handler))
            &&& next.next_client_id == self.next_client_id + 1
        }
    }

    pub fn new() -> (table: Self)
        ensures
            table.inv(),
            table.clients@.len() == 0,
            table.next_client_id == 0,
    {
        ClientTable { next_client_id: 0, clients: Vec::new() }
    }

    /// Takes in a client under the next id. The last id is not given out: when it is the
    /// next one, the client is refused and nothing changes.
    pub fn add_client(&mut self, handler: H) -> (result: Result<u8, Error>)
        requires
            old(self).inv(),
        ensures
            final(self).inv(),
            old(self).added(handler, final(self), result),
    {
        if self.next_client_id == u8::MAX {
            return Err(Error("exceeded max clients".to_owned()));
        }
        let client_id = self.next_client_id;
        self.next_client_id += 1;
        self.clients.push((client_id, handler));
        Ok(client_id)
    }

    /// The handlers of all clients, in the order of their ids.
    pub fn handlers(&mut self) -> (handlers: Vec<&mut H>)
        requires
            old(self).inv(),
        ensures
            final(self).inv(),
            final(self).next_client_id == old(self).next_client_id,
            handlers@.len() == old(self).clients@.len(),
            final(self).clients@.len() == old(self).clients@.len(),
            forall|i: int|
                0 <= i < handlers@.len() ==> *(#[trigger] handlers@[i]) == old(self).clients@[i].1,
            forall|i: int|
                0 <= i < handlers@.len() ==> #[trigger] final(self).clients@[i] == (
                    old(self).clients@[i].0,
                    *final(handlers@[i]),
                ),
    {
        let mut handlers: Vec<&mut H> = Vec::new();
        let mut rest: &mut [(u8, H)] = self.clients.as_mut_slice();
        let ghost ids: Seq<u8> = old(self).clients@.map_values(|client: (u8, H)| client.0);
        while rest.len() > 0
            invariant
                handlers@.len() + rest@.len() == old(self).clients@.len(),
                rest@ == old(self).clients@.skip(handlers@.len() as int),
                ids == old(self).clients@.map_values(|client: (u8, H)| client.0),
                forall|i: int|
                    0 <= i < handlers@.len() ==> *(#[trigger] handlers@[i])
                        == old(self).clients@[i].1,
                after_borrow(self.clients)@ == Seq::new(
                    handlers@.len(),
                    |i: int| (ids[i], *final(handlers@[i])),
                ) + final(rest)@,
            decreases rest@.len(),
        {
            let (head, tail) = rest.split_at_mut(1);
            let client = &mut head[0];
            handlers.push(&mut client.1);
            rest = tail;
        }
        handlers
    }
}

impl<H: ClientHandler<Request, Response>> ClientTable<H> {
    /// Processes one request: that of the first client that has one, while the clients
    /// before it will send none. A handler that fails ends the search.
    pub fn process_next_request(&mut self) -> (result: Result<(), H::Error>)
        requires
            old(self).inv(),
        ensures
            final(self).inv(),
            final(self).next_client_id == old(self).next_client_id,
            exists|turn: int|
                {
                    &&& #[trigger] turns(old(self).clients@, final(self).clients@, turn)
                    &&& if turn == old(self).clients@.len() {
                        result is Ok
                    } else {
                        processed(
                            old(self).clients@[turn].1,
                            final(self).clients@[turn].1,
                            result,
                        )
                    }
                },
    {
        let mut i: usize = 0;
        while i < self.clients.len()
            invariant
                i <= self.clients@.len(),
                old(self).inv(),
                self.inv(),
                self.next_client_id == old(self).next_client_id,
                self.clients@.len() == old(self).clients@.len(),
                passed(old(self).clients@, self.clients@, i as int),
                forall|j: int|
                    i <= j < self.clients@.len() ==> #[trigger] self.clients@[j]
                        == old(self).clients@[j],
            decreases self.clients@.len() - i,
        {
            let ghost before = self.clients@[i as int].1;
            let got = self.clients[i].1.recv();
            let ghost mid = self.clients@[i as int].1;
            assert(before.received(&mid, got));
            match got {
                Ok(Some(request)) => {
                    let result = match respond(request) {
                        Some(response) => self.clients[i].1.send(response),
                        None => Ok(()),
                    };
                    assert(processed(before, self.clients@[i as int].1, result));
                    assert(turns(old(self).clients@, self.clients@, i as int));
                    return result;
                },
                Ok(None) => {},
                Err(e) => {
                    assert(turns(old(self).clients@, self.clients@, i as int));
                    return Err(e);
                },
            }
            i += 1;
        }
        assert(turns(old(self).clients@, self.clients@, i as int));
        Ok(())
    }
}

/// The clients before the place `turn` have said that they will send no request.
pub open spec fn passed<H: ClientHandler<Request, Response>>(
    before: Seq<(u8, H)>,
    after: Seq<(u8, H)>,
    turn: int,
) -> bool {
    forall|i: int|
        0 <= i < turn ==> before[i].0 == (#[trigger] after[i]).0 && before[i].1.received(
            &after[i].1,
            Ok(None),
        )
}

/// It was the turn of the client at a place, or of none when the place is behind the last one:
/// the clients before it had nothing to say, and those behind it are untouched.
pub open spec fn turns<H: ClientHandler<Request, Response>>(
    before: Seq<(u8, H)>,
    after: Seq<(u8, H)>,
    turn: int,
) -> bool {
    &&& 0 <= turn <= before.len()
    &&& after.len() == before.len()
    &&& passed(before, after, turn)
    &&& turn < before.len() ==> after[turn].0 == before[turn].0
    &&& forall|i: int| turn < i < before.len() ==> #[trigger] after[i] == before[i]
}

/// No two clients of a table have the same id.
pub proof fn law_ids_are_distinct<H>(table: ClientTable<H>, i: int, j: int)
    requires
        table.inv(),
        0 <= i < j < table.clients@.len(),
    ensures
        table.clients@[i].0 != table.clients@[j].0,
{
    assert(table.clients@[i].0 < table.clients@[j].0);
}

/// A gapless table, such as a new one, takes a client exactly as long as it holds less than 255 of
/// them, and stays gapless. A client that it refuses leaves it as it was.
pub proof fn law_table_takes_clients_until_full<H>(
    table: ClientTable<H>,
    handler: H,
    next: ClientTable<H>,
    result: Result<u8, Error>,
)
    requires
        table.is_gapless(),
        table.added(handler, &next, result),
    ensures
        next.is_gapless(),
        result is Ok <==> table.clients@.len() < u8::MAX,
        next.clients@ == (if result is Ok {
            table.clients@.push((table.clients@.len() as u8, handler))
        } else {
            table.clients@
        }),
{
}

/// What is sent for a request.
pub open spec fn sent_for(request: Request) -> Seq<Response> {
    match crate::test_fixtures::answer(request) {
        Some(response) => seq![response],
        None => seq![],
    }
}

/// The answers to requests, in order, without those that have none.
pub open spec fn answers(requests: Seq<Request>) -> Seq<Response>
    decreases requests.len(),
{
    if requests.len() == 0 {
        seq![]
    } else {
        answers(requests.drop_last()) + sent_for(requests.last())
    }
}

/// A handler that passes messages on in order: `inbox` is what it will receive, and `outbox` is
/// what it has sent.
pub open spec fn in_order<H: ClientHandler<Request, Response>>(
    inbox: spec_fn(H) -> Seq<Request>,
    outbox: spec_fn(H) -> Seq<Response>,
) -> bool {
    &&& forall|h: H, next: H, got: Result<Option<Request>, H::Error>| #[trigger]
        h.received(&next, got) ==> outbox(next) == outbox(h) && match got {
            Ok(Some(request)) => inbox(h).len() > 0 && request == inbox(h)[0] && inbox(next)
                == inbox(h).drop_first(),
            _ => inbox(next) == inbox(h),
        }
    &&& forall|h: H, res: Response, next: H, result: Result<(), H::Error>| #[trigger]
        h.sent(res, &next, result) ==> inbox(next) == inbox(h) && (result is Ok ==> outbox(next)
            == outbox(h).push(res))
}

/// A handler that passes messages on in order and is processed once without a failure has sent
/// what is to be sent for the first request that it was to receive.
proof fn lemma_first_request_is_answered<H: ClientHandler<Request, Response>>(
    inbox: spec_fn(H) -> Seq<Request>,
    outbox: spec_fn(H) -> Seq<Response>,
    before: H,
    after: H,
)
    requires
        in_order(inbox, outbox),
        processed(before, after, Ok(())),
    ensures
        inbox(before).len() > 0,
        inbox(after) == inbox(before).drop_first(),
        outbox(after) == outbox(before) + sent_for(inbox(before)[0]),
{
    let (mid, got) = choose|mid: H, got: Result<Option<Request>, H::Error>| #[trigger]
        before.received(&mid, got) && match got {
            Ok(Some(request)) => match crate::test_fixtures::answer(request) {
                Some(response) => mid.sent(response, &after, Ok(())),
                None => after == mid,
            },
            _ => false,
        };
    assert(outbox(after) =~= outbox(before) + sent_for(inbox(before)[0]));
}

/// Requests are answered in the order in which they were sent: when a handler that passes
/// messages on in order is processed several times without a failure, it has sent the answers to
/// as many of the requests that it was to receive, the first one first.
pub proof fn law_requests_are_answered_in_order<H: ClientHandler<Request, Response>>(
    inbox: spec_fn(H) -> Seq<Request>,
    outbox: spec_fn(H) -> Seq<Response>,
    states: Seq<H>,
)
    requires
        in_order(inbox, outbox),
        states.len() > 0,
        forall|i: int|
            0 <= i < states.len() - 1 ==> processed(#[trigger] states[i], states[i + 1], Ok(())),
    ensures
        states.len() - 1 <= inbox(states[0]).len(),
        inbox(states.last()) == inbox(states[0]).skip(states.len() - 1),
        outbox(states.last()) == outbox(states[0]) + answers(
            inbox(states[0]).take(states.len() - 1),
        ),
    decreases states.len(),
{
    let sent = inbox(states[0]);
    let n = states.len() - 1;
    if n == 0 {
        assert(sent.skip(0) =~= sent);
        assert(outbox(states[0]) + answers(sent.take(0)) =~= outbox(states[0]));
    } else {
        let rest = states.drop_last();
        assert forall|i: int| 0 <= i < rest.len() - 1 implies processed(
            #[trigger] rest[i],
            rest[i + 1],
            Ok(()),
        ) by {
            assert(processed(states[i], states[i + 1], Ok(())));
        }
        law_requests_are_answered_in_order(inbox, outbox, rest);
        assert(processed(states[n - 1], states[n - 1 + 1], Ok(())));
        lemma_first_request_is_answered(inbox, outbox, rest.last(), states.last());
        assert(sent.skip(n - 1).drop_first() =~= sent.skip(n));
        assert(sent.take(n).drop_last() =~= sent.take(n - 1));
        assert((outbox(states[0]) + answers(sent.take(n - 1))) + sent_for(sent[n - 1])
            =~= outbox(states[0]) + answers(sent.take(n)));
    }
}

/// `process_next_request` asks the clients in order: a client that surely has a request, behind
/// clients that surely have none, has that request received and answered in kind, and is the last
/// one to be asked. The place of the client does not matter.
pub proof fn law_first_request_is_processed<H: ClientHandler<Request, Response>>(
    table: &mut ClientTable<H>,
    result: Result<(), H::Error>,
    place: int,
    request: Request,
)
    requires
        call_ensures(ClientTable::<H>::process_next_request, (table,), result),
        0 <= place < old(table).clients@.len(),
        forall|i: int, next: H, got: Result<Option<Request>, H::Error>|
            0 <= i < place && #[trigger] old(table).clients@[i].1.received(&next, got) ==> got
                == Ok::<Option<Request>, H::Error>(None),
        forall|next: H, got: Result<Option<Request>, H::Error>| #[trigger]
            old(table).clients@[place].1.received(&next, got) ==> got == Ok::<
                Option<Request>,
                H::Error,
            >(Some(request)),
    ensures
        final(table).clients@.len() == old(table).clients@.len(),
        final(table).next_client_id == old(table).next_client_id,
        forall|i: int|
            0 <= i < place ==> (#[trigger] final(table).clients@[i]).0
                == old(table).clients@[i].0 && old(table).clients@[i].1.received(
                &final(table).clients@[i].1,
                Ok(None),
            ),
        final(table).clients@[place].0 == old(table).clients@[place].0,
        exists|mid: H|
            {
                &&& #[trigger] old(table).clients@[place].1.received(&mid, Ok(Some(request)))
                &&& request is A ==> mid.sent(
                    Response::A,
                    &final(table).clients@[place].1,
                    result,
                )
                &&& request is B ==> mid.sent(
                    Response::B,
                    &final(table).clients@[place].1,
                    result,
                )
                &&& request is Shutdown ==> final(table).clients@[place].1 == mid && result is Ok
            },
        forall|i: int|
            place < i < old(table).clients@.len() ==> #[trigger] final(table).clients@[i]
                == old(table).clients@[i],
{
    let turn = choose|turn: int|
        {
            &&& #[trigger] turns(old(table).clients@, final(table).clients@, turn)
            &&& if turn == old(table).clients@.len() {
                result is Ok
            } else {
                processed(old(table).clients@[turn].1, final(table).clients@[turn].1, result)
            }
        };
    if turn < place {
        assert(processed(
            old(table).clients@[turn].1,
            final(table).clients@[turn].1,
            result,
        ));
    } else if turn > place {
        assert(final(table).clients@[place].0 == old(table).clients@[place].0);
        assert(old(table).clients@[place].1.received(&final(table).clients@[place].1, Ok(None)));
    }
}

/// `process_next_request` asks every client of a table, at whatever place, when none of them has
/// a request, and then there is nothing to answer.
pub proof fn law_every_client_is_asked<H: ClientHandler<Request, Response>>(
    table: &mut ClientTable<H>,
    result: Result<(), H::Error>,
)
    requires
        call_ensures(ClientTable::<H>::process_next_request, (table,), result),
        forall|i: int, next: H, got: Result<Option<Request>, H::Error>|
            0 <= i < old(table).clients@.len() && #[trigger] old(table).clients@[i].1.received(
                &next,
                got,
            ) ==> got == Ok::<Option<Request>, H::Error>(None),
    ensures
        result is Ok,
        final(table).clients@.len() == old(table).clients@.len(),
        final(table).next_client_id == old(table).next_client_id,
        forall|i: int|
            0 <= i < old(table).clients@.len() ==> (#[trigger] final(table).clients@[i]).0
                == old(table).clients@[i].0 && old(table).clients@[i].1.received(
                &final(table).clients@[i].1,
                Ok(None),
            ),
{
    let turn = choose|turn: int|
        {
            &&& #[trigger] turns(old(table).clients@, final(table).clients@, turn)
            &&& if turn == old(table).clients@.len() {
                result is Ok
            } else {
                processed(old(table).clients@[turn].1, final(table).clients@[turn].1, result)
            }
        };
    if turn < old(table).clients@.len() {
        assert(processed(
            old(table).clients@[turn].1,
            final(table).clients@[turn].1,
            result,
        ));
    }
}

/// `process_next_request` passes on the failure of a client that surely fails behind clients that
/// surely have no request, and asks nobody else.
pub proof fn law_failure_ends_the_search<H: ClientHandler<Request, Response>>(
    table: &mut ClientTable<H>,
    result: Result<(), H::Error>,
    place: int,
    e: H::Error,
)
    requires
        call_ensures(ClientTable::<H>::process_next_request, (table,), result),
        0 <= place < old(table).clients@.len(),
        forall|i: int, next: H, got: Result<Option<Request>, H::Error>|
            0 <= i < place && #[trigger] old(table).clients@[i].1.received(&next, got) ==> got
                == Ok::<Option<Request>, H::Error>(None),
        forall|next: H, got: Result<Option<Request>, H::Error>| #[trigger]
            old(table).clients@[place].1.received(&next, got) ==> got == Err::<
                Option<Request>,
                H::Error,
            >(e),
    ensures
        result == Err::<(), H::Error>(e),
        final(table).clients@.len() == old(table).clients@.len(),
        final(table).next_client_id == old(table).next_client_id,
        old(table).clients@[place].1.received(&final(table).clients@[place].1, Err(e)),
        forall|i: int|
            place < i < old(table).clients@.len() ==> #[trigger] final(table).clients@[i]
                == old(table).clients@[i],
{
    let turn = choose|turn: int|
        {
            &&& #[trigger] turns(old(table).clients@, final(table).clients@, turn)
            &&& if turn == old(table).clients@.len() {
                result is Ok
            } else {
                processed(old(table).clients@[turn].1, final(table).clients@[turn].1, result)
            }
        };
    if turn < place {
        assert(processed(
            old(table).clients@[turn].1,
            final(table).clients@[turn].1,
            result,
        ));
    } else if turn > place {
        assert(final(table).clients@[place].0 == old(table).clients@[place].0);
        assert(old(table).clients@[place].1.received(&final(table).clients@[place].1, Ok(None)));
    }
}

/// Whatever the handlers of a table do, there is a place up to which all clients were asked and
/// had no request, behind which nobody was asked, and at which a client was asked and gave a
/// request or failed. When there is no such client every one was asked.
pub proof fn law_search_goes_in_order<H: ClientHandler<Request, Response>>(
    table: &mut ClientTable<H>,
    result: Result<(), H::Error>,
)
    requires
        call_ensures(ClientTable::<H>::process_next_request, (table,), result),
    ensures
        exists|place: int|
            #![trigger old(table).clients@[place]]
            {
                &&& 0 <= place <= old(table).clients@.len()
                &&& final(table).clients@.len() == old(table).clients@.len()
                &&& forall|i: int|
                    0 <= i < old(table).clients@.len() ==> (#[trigger] final(table).clients@[i]).0
                        == old(table).clients@[i].0
                &&& forall|i: int|
                    0 <= i < place ==> old(table).clients@[i].1.received(
                        &(#[trigger] final(table).clients@[i]).1,
                        Ok(None),
                    )
                &&& place == old(table).clients@.len() ==> result is Ok
                &&& place < old(table).clients@.len() ==> exists|
                    mid: H,
                    got: Result<Option<Request>, H::Error>,
                |
                    {
                        &&& #[trigger] old(table).clients@[place].1.received(&mid, got)
                        &&& got != Ok::<Option<Request>, H::Error>(None)
                        &&& got matches Err(e) ==> result == Err::<(), H::Error>(e)
                            && final(table).clients@[place].1 == mid
                        &&& got matches Ok(Some(Request::A)) ==> mid.sent(
                            Response::A,
                            &final(table).clients@[place].1,
                            result,
                        )
                        &&& got matches Ok(Some(Request::B)) ==> mid.sent(
                            Response::B,
                            &final(table).clients@[place].1,
                            result,
                        )
                        &&& got matches Ok(Some(Request::Shutdown)) ==> result is Ok
                            && final(table).clients@[place].1 == mid
                    }
                &&& forall|i: int|
                    place < i < old(table).clients@.len() ==> #[trigger] final(table).clients@[i]
                        == old(table).clients@[i]
            },
{
    let place = choose|turn: int|
        {
            &&& #[trigger] turns(old(table).clients@, final(table).clients@, turn)
            &&& if turn == old(table).clients@.len() {
                result is Ok
            } else {
                processed(old(table).clients@[turn].1, final(table).clients@[turn].1, result)
            }
        };
    if place < old(table).clients@.len() {
        assert(processed(
            old(table).clients@[place].1,
            final(table).clients@[place].1,
            result,
        ));
    }
}

/// `add_client` puts a client behind the others, under the next id, which it returns, and the
/// next id goes up by one. It refuses a client exactly when the next id is the largest, and then
/// nothing changes.
pub proof fn law_client_is_added_under_next_id<H>(
    table: &mut ClientTable<H>,
    handler: H,
    result: Result<u8, Error>,
)
    requires
        call_ensures(ClientTable::<H>::add_client, (table, handler), result),
    ensures
        result is Err <==> old(table).next_client_id == u8::MAX,
        result matches Err(e) ==> e.0@ == "exceeded max clients"@,
        result matches Ok(id) ==> id == old(table).next_client_id,
        result is Ok ==> final(table).clients@.last() == (old(table).next_client_id, handler),
        final(table).next_client_id == old(table).next_client_id + (if result is Ok {
            1int
        } else {
            0
        }),
        final(table).clients@.len() == old(table).clients@.len() + (if result is Ok {
            1int
        } else {
            0
        }),
        forall|i: int|
            0 <= i < old(table).clients@.len() ==> #[trigger] final(table).clients@[i]
                == old(table).clients@[i],
{
}

/// `handlers` hands out the handler of each client once, in order. What is done to what it hands
/// out is done to the table, and nothing else is.
pub proof fn law_each_handler_is_handed_out<H>(
    table: &mut ClientTable<H>,
    handlers: Vec<&mut H>,
    i: int,
)
    requires
        call_ensures(ClientTable::<H>::handlers, (table,), handlers),
    ensures
        final(table).next_client_id == old(table).next_client_id,
        handlers@.len() == old(table).clients@.len(),
        final(table).clients@.len() == old(table).clients@.len(),
        0 <= i < handlers@.len() ==> {
            &&& *handlers@[i] == old(table).clients@[i].1
            &&& final(table).clients@[i].0 == old(table).clients@[i].0
            &&& final(table).clients@[i].1 == *final(handlers@[i])
        },
{
}

/// A table can be asked and added to as long as its clients stand in the order of their ids, which
/// are below the next one.
pub proof fn law_ordered_table_can_be_used<H: ClientHandler<Request, Response>>(
    table: &mut ClientTable<H>,
    handler: H,
)
    requires
        forall|i: int|
            0 <= i < old(table).clients@.len() ==> (#[trigger] old(table).clients@[i]).0
                < old(table).next_client_id,
        forall|i: int, j: int|
            0 <= i < j < old(table).clients@.len() ==> (#[trigger] old(table).clients@[i]).0 < (
            #[trigger] old(table).clients@[j]).0,
    ensures
        call_requires(ClientTable::<H>::add_client, (table, handler)),
        call_requires(ClientTable::<H>::handlers, (table,)),
        call_requires(ClientTable::<H>::process_next_request, (table,)),
{
}

/// A new table holds no client and gives the id zero first.
pub proof fn law_new_table_is_empty<H>(table: ClientTable<H>)
    requires
        call_ensures(ClientTable::<H>::new, (), table),
    ensures
        table.clients@.len() == 0,
        table.next_client_id == 0,
{
}

} // verus!
