//! A service that serves all its clients at once, round by round: the interfaces of the
//! service, of its clients and of what it keeps of each client, as far as they do not
//! wait.

use futures::channel::mpsc::{Receiver, Sender};
use vstd::prelude::*;

verus! {

pub trait Client<Req, Res>: Sized {
    type Error;

    /// Where the requests of the client go.
    open spec fn sender(&self) -> Sender<Req> {
        arbitrary()
    }

    /// Where the responses to the client come from.
    open spec fn receiver(&self) -> Receiver<Res> {
        arbitrary()
    }

    fn new(tx: Sender<Req>, rx: Receiver<Res>) -> (client: Self)
        ensures
            client.sender() == tx,
            client.receiver() == rx,
    ;
}

/// What a service keeps of a client.
pub trait Handler<Req: Send, Res>: Send {
    type Error: Send;
}

/// How far a handler has come in a round.
#[derive(Clone, Copy, Debug, PartialEq, Eq, Structural)]
pub enum Stage {
    /// It is waited for.
    Waiting,
    /// Its request is being processed.
    Processing,
    /// It has had its turn.
    Done,
}

/// What happens in a round. The handlers are told apart by where they stand among all
/// handlers.
pub enum RoundEvent<Req, E> {
    /// A handler gave a request or failed.
    Received(usize, Result<Req, E>),
    /// The request of a handler was processed.
    Processed(usize),
}

/// What is to be done about it, for the handler that it happened to.
pub enum RoundAction<Req, E> {
    /// Process the request.
    Process(Req),
    /// Take note of the failure to receive a request.
    HandleRecvError(E),
    /// Nothing: the handler has had its turn.
    Rest,
}

impl<Req, E> RoundEvent<Req, E> {
    /// The handler that it happens to.
    pub open spec fn handler(self) -> int {
        match self {
            RoundEvent::Received(i, _) => i as int,
            RoundEvent::Processed(i) => i as int,
        }
    }

    /// It can happen while the handlers have come that far: a handler that is waited for gives
    /// something, and a request that is being processed is processed at some time.
    pub open spec fn fits(self, stages: Seq<Stage>) -> bool {
        &&& self.handler() < stages.len()
        &&& stages[self.handler()] == match self {
            RoundEvent::Received(..) => Stage::Waiting,
            RoundEvent::Processed(_) => Stage::Processing,
        }
    }

    /// How far the handler has come then.
    pub open spec fn stage(self) -> Stage {
        match self {
            RoundEvent::Received(_, Ok(_)) => Stage::Processing,
            RoundEvent::Received(_, Err(_)) => Stage::Done,
            RoundEvent::Processed(_) => Stage::Done,
        }
    }

    /// What is to be done about it.
    pub open spec fn reaction(self) -> RoundAction<Req, E> {
        match self {
            RoundEvent::Received(_, Ok(req)) => RoundAction::Process(req),
            RoundEvent::Received(_, Err(e)) => RoundAction::HandleRecvError(e),
            RoundEvent::Processed(_) => RoundAction::Rest,
        }
    }
}

/// All handlers have had their turn.
pub open spec fn all_done(stages: Seq<Stage>) -> bool {
    forall|i: int| 0 <= i < stages.len() ==> #[trigger] stages[i] == Stage::Done
}

/// The stages of handlers that are all waited for.
pub open spec fn all_waiting(num_handlers: nat) -> Seq<Stage> {
    Seq::new(num_handlers, |i: int| Stage::Waiting)
}

/// A round, in which the handlers are waited for at once.
pub struct Round {
    /// How far each handler has come.
    pub stages: Vec<Stage>,
}

impl Round {
    /// The round of no handler, which is over from the start.
    pub fn none() -> (round: Self)
        ensures
            round.stages@.len() == 0,
    {
        Round { stages: Vec::new() }
    }

    /// A round that begins.
    pub fn begin(num_handlers: usize) -> (round: Self)
        ensures
            round.stages@ == all_waiting(num_handlers as nat),
    {
        let mut stages: Vec<Stage> = Vec::new();
        while stages.len() < num_handlers
            invariant
                stages@.len() <= num_handlers,
                stages@ == all_waiting(stages@.len()),
            decreases num_handlers - stages@.len(),
        {
            stages.push(Stage::Waiting);
        }
        Round { stages }
    }

    /// Tells whether all handlers have had their turn.
    pub fn is_over(&self) -> (over: bool)
        ensures
            over == all_done(self.stages@),
    {
        let mut i: usize = 0;
        while i < self.stages.len()
            invariant
                i <= self.stages@.len(),
                forall|j: int| 0 <= j < i ==> #[trigger] self.stages@[j] == Stage::Done,
            decreases self.stages@.len() - i,
        {
            if self.stages[i] != Stage::Done {
                return false;
            }
            i += 1;
        }
        true
    }

    /// Decides what to do about what happens in the round. A failure to receive ends nothing
    /// but the handler's own turn.
    pub fn handle<Req, E>(&mut self, event: RoundEvent<Req, E>) -> (action: RoundAction<Req, E>)
        requires
            event.fits(old(self).stages@),
        ensures
            final(self).stages@ == old(self).stages@.update(event.handler(), event.stage()),
            action == event.reaction(),
    {
        match event {
            RoundEvent::Received(i, Ok(req)) => {
                self.stages[i] = Stage::Processing;
                RoundAction::Process(req)
            },
            RoundEvent::Received(i, Err(e)) => {
                self.stages[i] = Stage::Done;
                RoundAction::HandleRecvError(e)
            },
            RoundEvent::Processed(i) => {
                self.stages[i] = Stage::Done;
                RoundAction::Rest
            },
        }
    }
}

/// What a service is to do next while it serves.
pub enum ServeAction {
    /// Begin a round with all handlers.
    BeginRound,
    /// Wait for what happens next in the round.
    AwaitHandlers,
    /// Serve no more.
    Stop,
}

/// How far the handlers have come after what happened, one after the other.
pub open spec fn played<Req, E>(
    stages: Seq<Stage>,
    events: Seq<RoundEvent<Req, E>>,
) -> Seq<Stage>
    decreases events.len(),
{
    if events.len() == 0 {
        stages
    } else {
        played(stages, events.drop_last()).update(
            events.last().handler(),
            events.last().stage(),
        )
    }
}

/// All that happened could happen when it did.
pub open spec fn playable<Req, E>(stages: Seq<Stage>, events: Seq<RoundEvent<Req, E>>) -> bool
    decreases events.len(),
{
    events.len() > 0 ==> {
        &&& playable(stages, events.drop_last())
        &&& events.last().fits(played(stages, events.drop_last()))
    }
}

/// What happened to one handler.
pub open spec fn turn_of<Req, E>(
    handler: int,
    events: Seq<RoundEvent<Req, E>>,
) -> Seq<RoundEvent<Req, E>>
    decreases events.len(),
{
    if events.len() == 0 {
        seq![]
    } else if events.last().handler() == handler {
        turn_of(handler, events.drop_last()).push(events.last())
    } else {
        turn_of(handler, events.drop_last())
    }
}

/// The handler failed to give a request, and that was its turn.
pub open spec fn is_failed_turn<Req, E>(turn: Seq<RoundEvent<Req, E>>) -> bool {
    turn.len() == 1 && turn[0] matches RoundEvent::Received(_, Err(_))
}

/// The handler gave a request, which was then processed, and that was its turn.
pub open spec fn is_served_turn<Req, E>(turn: Seq<RoundEvent<Req, E>>) -> bool {
    &&& turn.len() == 2
    &&& turn[0] matches RoundEvent::Received(_, Ok(_))
    &&& turn[1] is Processed
}

/// In a round that goes from its begin to its end each handler has exactly one turn: it fails
/// once, and nothing is processed for it, or it gives one request, which is processed once.
/// Nothing happens to any other handler.
pub proof fn law_each_handler_has_one_turn<Req, E>(
    num_handlers: nat,
    events: Seq<RoundEvent<Req, E>>,
    handler: int,
)
    requires
        playable(all_waiting(num_handlers), events),
        all_done(played(all_waiting(num_handlers), events)),
    ensures
        0 <= handler < num_handlers ==> is_failed_turn(turn_of(handler, events)) || is_served_turn(
            turn_of(handler, events),
        ),
        !(0 <= handler < num_handlers) ==> turn_of(handler, events).len() == 0,
{
    lemma_turn_so_far(num_handlers, events, handler);
    if 0 <= handler < num_handlers {
        assert(played(all_waiting(num_handlers), events)[handler] == Stage::Done);
    }
}

/// How far a handler has come says what has happened to it.
proof fn lemma_turn_so_far<Req, E>(
    num_handlers: nat,
    events: Seq<RoundEvent<Req, E>>,
    handler: int,
)
    requires
        playable(all_waiting(num_handlers), events),
    ensures
        played(all_waiting(num_handlers), events).len() == num_handlers,
        !(0 <= handler < num_handlers) ==> turn_of(handler, events).len() == 0,
        0 <= handler < num_handlers ==> {
            let turn = turn_of(handler, events);
            match played(all_waiting(num_handlers), events)[handler] {
                Stage::Waiting => turn.len() == 0,
                Stage::Processing => turn.len() == 1 && turn[0] matches RoundEvent::Received(
                    _,
                    Ok(_),
                ),
                Stage::Done => is_failed_turn(turn) || is_served_turn(turn),
            }
        },
    decreases events.len(),
{
    if events.len() > 0 {
        lemma_turn_so_far(num_handlers, events.drop_last(), handler);
    }
}

/// A handler that fails to give a request leaves the turns of all others as they are, whatever
/// has happened in the round.
pub proof fn law_failure_ends_only_its_own_turn<Req, E>(
    num_handlers: nat,
    events: Seq<RoundEvent<Req, E>>,
    handler: usize,
    e: E,
)
    requires
        playable(all_waiting(num_handlers), events),
        RoundEvent::<Req, E>::Received(handler, Err(e)).fits(
            played(all_waiting(num_handlers), events),
        ),
    ensures
        ({
            let before = played(all_waiting(num_handlers), events);
            let after = played(
                all_waiting(num_handlers),
                events.push(RoundEvent::Received(handler, Err(e))),
            );
            &&& after.len() == num_handlers
            &&& after[handler as int] == Stage::Done
            &&& forall|i: int|
                0 <= i < num_handlers && i != handler ==> #[trigger] after[i] == before[i]
        }),
{
    lemma_turn_so_far(num_handlers, events, handler as int);
    assert(events.push(RoundEvent::Received(handler, Err(e))).drop_last() =~= events);
}

pub trait Service<Req: Send, Res>: Sized {
    type Client: Client<Req, Res>;

    type ClientId: Eq;

    type Handler: Handler<Req, Res>;

    type Error: From<<Self::Handler as Handler<Req, Res>>::Error>;

    /// What holds of the service between any two calls.
    open spec fn inv(&self) -> bool {
        true
    }

    /// The service may say that another round is to begin, or that none is.
    open spec fn may_say(&self, keep_serving: bool) -> bool {
        true
    }

    /// The handlers of the clients, in the order in which `handlers` hands them out.
    open spec fn all_handlers(&self) -> Seq<Self::Handler> {
        arbitrary()
    }

    fn keep_serving(&self) -> (keep: bool)
        ensures
            self.may_say(keep),
    ;

    fn client(&mut self) -> (result: Result<Self::Client, Self::Error>)
        requires
            old(self).inv(),
        ensures
            final(self).inv(),
    ;

    fn handlers(&mut self) -> (handlers: Vec<&mut Self::Handler>)
        requires
            old(self).inv(),
        ensures
            final(self).inv(),
            handlers@.len() == old(self).all_handlers().len(),
            final(self).all_handlers().len() == old(self).all_handlers().len(),
            forall|i: int|
                0 <= i < handlers@.len() ==> *(#[trigger] handlers@[i])
                    == old(self).all_handlers()[i],
            forall|i: int|
                0 <= i < handlers@.len() ==> #[trigger] final(self).all_handlers()[i]
                    == *final(handlers@[i]),
    ;

    /// Decides what to do next while the service serves. It is asked whether to keep serving
    /// before each round, and not again until all handlers have had their turn.
    fn serve(&self, round: &Round) -> (action: ServeAction)
        ensures
            if all_done(round.stages@) {
                action !is AwaitHandlers && self.may_say(action is BeginRound)
            } else {
                action is AwaitHandlers
            },
    {
        if !round.is_over() {
            ServeAction::AwaitHandlers
        } else if self.keep_serving() {
            ServeAction::BeginRound
        } else {
            ServeAction::Stop
        }
    }
}

/// `handle` has the request of every handler processed, at whatever place it stands, just as it
/// was received; the handler's request is being processed then.
pub proof fn law_every_request_is_processed<Req, E>(
    round: &mut Round,
    i: usize,
    req: Req,
    action: RoundAction<Req, E>,
)
    requires
        call_ensures(
            Round::handle::<Req, E>,
            (round, RoundEvent::<Req, E>::Received(i, Ok(req))),
            action,
        ),
        i < old(round).stages@.len(),
    ensures
        action == RoundAction::<Req, E>::Process(req),
        final(round).stages@ == old(round).stages@.update(i as int, Stage::Processing),
{
}

/// `handle` has every failure to receive taken note of, just as it was; the handler has had its
/// turn then.
pub proof fn law_every_failure_is_noted<Req, E>(
    round: &mut Round,
    i: usize,
    e: E,
    action: RoundAction<Req, E>,
)
    requires
        call_ensures(
            Round::handle::<Req, E>,
            (round, RoundEvent::<Req, E>::Received(i, Err(e))),
            action,
        ),
        i < old(round).stages@.len(),
    ensures
        action == RoundAction::<Req, E>::HandleRecvError(e),
        final(round).stages@ == old(round).stages@.update(i as int, Stage::Done),
{
}

/// A handler whose request was processed has had its turn, and there is nothing left to do.
pub proof fn law_processed_request_ends_the_turn<Req, E>(
    round: &mut Round,
    i: usize,
    action: RoundAction<Req, E>,
)
    requires
        call_ensures(
            Round::handle::<Req, E>,
            (round, RoundEvent::<Req, E>::Processed(i)),
            action,
        ),
        i < old(round).stages@.len(),
    ensures
        action is Rest,
        final(round).stages@ == old(round).stages@.update(i as int, Stage::Done),
{
}

/// Any handler that is waited for may give anything, and any request that is being processed may
/// be done with.
pub proof fn law_handle_can_be_told<Req, E>(
    round: &mut Round,
    i: usize,
    received: Result<Req, E>,
)
    requires
        i < old(round).stages@.len(),
    ensures
        old(round).stages@[i as int] is Waiting ==> call_requires(
            Round::handle::<Req, E>,
            (round, RoundEvent::<Req, E>::Received(i, received)),
        ),
        old(round).stages@[i as int] is Processing ==> call_requires(
            Round::handle::<Req, E>,
            (round, RoundEvent::<Req, E>::Processed(i)),
        ),
{
}

/// In a round that begins all handlers are waited for; before the first round there are none.
pub proof fn law_round_begins_with_all_waiting(num_handlers: usize, round: Round, none: Round)
    requires
        call_ensures(Round::begin, (num_handlers,), round),
        call_ensures(Round::none, (), none),
    ensures
        round.stages@.len() == num_handlers,
        forall|i: int| 0 <= i < num_handlers ==> #[trigger] round.stages@[i] is Waiting,
        none.stages@.len() == 0,
{
}

/// A round is over exactly when no handler is waited for and no request is being processed.
pub proof fn law_round_is_over_when_all_are_done(round: Round, over: bool)
    requires
        call_ensures(Round::is_over, (&round,), over),
    ensures
        over <==> forall|i: int| 0 <= i < round.stages@.len() ==> #[trigger] round.stages@[i]
            is Done,
{
    if !over {
        let i = choose|i: int|
            0 <= i < round.stages@.len() && #[trigger] round.stages@[i] != Stage::Done;
        assert(!(round.stages@[i] is Done));
    }
}

/// A service goes on with a round while any handler has not had its turn. It is asked before a
/// round, and a round begins, or the service stops, as it says.
pub proof fn law_serve_finishes_every_round<Req: Send, Res, S: Service<Req, Res>>(
    service: S,
    round: Round,
    action: ServeAction,
)
    requires
        call_ensures(<S as Service<Req, Res>>::serve, (&service, &round), action),
    ensures
        action is AwaitHandlers <==> exists|i: int|
            0 <= i < round.stages@.len() && !(#[trigger] round.stages@[i] is Done),
        action is BeginRound ==> service.may_say(true),
        action is Stop ==> service.may_say(false),
{
    if all_done(round.stages@) {
        assert forall|i: int| 0 <= i < round.stages@.len() implies #[trigger] round.stages@[i]
            is Done by {
            assert(round.stages@[i] == Stage::Done);
        }
    } else {
        let i = choose|i: int|
            0 <= i < round.stages@.len() && #[trigger] round.stages@[i] != Stage::Done;
        assert(!(round.stages@[i] is Done));
    }
}

/// Over a whole round, each handler gives something exactly once. A request that it gives is
/// handed out for processing as it is, and is processed once, later on; where it fails, the
/// failure is handed on as it is, and nothing is processed for it. `given` is the place among the
/// events at which the handler gives something.
pub proof fn law_round_processes_what_it_receives<Req, E>(
    num_handlers: nat,
    events: Seq<RoundEvent<Req, E>>,
    actions: Seq<RoundAction<Req, E>>,
    handler: usize,
) -> (given: int)
    requires
        playable(all_waiting(num_handlers), events),
        all_done(played(all_waiting(num_handlers), events)),
        actions.len() == events.len(),
        forall|k: int| 0 <= k < events.len() ==> #[trigger] actions[k] == events[k].reaction(),
        handler < num_handlers,
    ensures
        0 <= given < events.len(),
        events[given] matches RoundEvent::Received(i, _) && i == handler,
        forall|k: int|
            0 <= k < events.len() && k != given ==> !(#[trigger] events[k] matches
                RoundEvent::Received(i, _) && i == handler),
        events[given] matches RoundEvent::Received(_, Ok(req)) ==> actions[given]
            == RoundAction::<Req, E>::Process(req),
        events[given] matches RoundEvent::Received(_, Err(e)) ==> actions[given]
            == RoundAction::<Req, E>::HandleRecvError(e),
        events[given] matches RoundEvent::Received(_, Ok(_)) ==> exists|done: int|
            {
                &&& given < done < events.len()
                &&& #[trigger] events[done] == RoundEvent::<Req, E>::Processed(handler)
                &&& forall|k: int|
                    0 <= k < events.len() && k != done ==> #[trigger] events[k] != RoundEvent::<
                        Req,
                        E,
                    >::Processed(handler)
            },
        events[given] matches RoundEvent::Received(_, Err(_)) ==> forall|k: int|
            0 <= k < events.len() ==> #[trigger] events[k] != RoundEvent::<Req, E>::Processed(
                handler,
            ),
{
    lemma_turn_so_far(num_handlers, events, handler as int);
    let (given, done) = lemma_places(num_handlers, events, handler);
    assert(played(all_waiting(num_handlers), events)[handler as int] == Stage::Done);
    assert(actions[given] == events[given].reaction());
    if events[given] matches RoundEvent::Received(_, Ok(_)) {
        assert(events[done] == RoundEvent::<Req, E>::Processed(handler));
    }
    given
}

/// Where a handler gave something, and where its request was processed, as far as that has
/// happened.
proof fn lemma_places<Req, E>(
    num_handlers: nat,
    events: Seq<RoundEvent<Req, E>>,
    handler: usize,
) -> (places: (int, int))
    requires
        playable(all_waiting(num_handlers), events),
        handler < num_handlers,
    ensures
        ({
            let (given, done) = places;
            let stage = played(all_waiting(num_handlers), events)[handler as int];
            &&& stage is Waiting ==> forall|k: int|
                0 <= k < events.len() ==> (#[trigger] events[k]).handler() != handler
            &&& !(stage is Waiting) ==> {
                &&& 0 <= given < events.len()
                &&& events[given] matches RoundEvent::Received(i, _) && i == handler
            }
            &&& stage is Processing ==> {
                &&& events[given] matches RoundEvent::Received(_, Ok(_))
                &&& forall|k: int|
                    0 <= k < events.len() && k != given ==> (#[trigger] events[k]).handler()
                        != handler
            }
            &&& stage is Done && (events[given] matches RoundEvent::Received(_, Err(_)))
                ==> forall|k: int|
                0 <= k < events.len() && k != given ==> (#[trigger] events[k]).handler() != handler
            &&& stage is Done && (events[given] matches RoundEvent::Received(_, Ok(_))) ==> {
                &&& given < done < events.len()
                &&& events[done] == RoundEvent::<Req, E>::Processed(handler)
                &&& forall|k: int|
                    0 <= k < events.len() && k != given && k != done ==> (
                    #[trigger] events[k]).handler() != handler
            }
        }),
    decreases events.len(),
{
    if events.len() == 0 {
        (0, 0)
    } else {
        let rest = events.drop_last();
        let (given, done) = lemma_places(num_handlers, rest, handler);
        lemma_turn_so_far(num_handlers, rest, handler as int);
        let n = events.len() - 1;
        assert(forall|k: int| 0 <= k < n ==> #[trigger] events[k] == rest[k]);
        match events.last() {
            RoundEvent::Received(i, _) => if i == handler {
                (n, n)
            } else {
                (given, done)
            },
            RoundEvent::Processed(i) => if i == handler {
                (given, n)
            } else {
                (given, done)
            },
        }
    }
}

} // verus!
