//! A stream combinator that turns a stream of one type into a stream of
//! another, with a parser that may need several items before it has something
//! to say.

use std::marker::PhantomData;
use vstd::prelude::*;

verus! {

/// What a parser answers to one item.
pub enum ParseStatus<T, E> {
    /// Parsed values. The stream yields them from the last to the first.
    Output(Vec<T>),
    /// Nothing yet.
    NeedsMore,
    /// The item cannot be parsed.
    Error(E),
}

/// A parser that is fed one item at a time.
pub trait Parser<I, O, E> {
    /// The transitions of the parser: `self` may answer `item` with `status`
    /// and be `next` afterwards. A parser that does not say may do anything.
    open spec fn step(&self, item: I, next: &Self, status: ParseStatus<O, E>) -> bool {
        true
    }

    fn process_next_item(&mut self, item: I) -> (status: ParseStatus<O, E>)
        ensures
            old(self).step(item, final(self), status),
    ;
}

/// What the stream is told.
pub enum StreamEvent<I> {
    /// A consumer asks for the next value.
    Poll,
    /// The inner stream was polled and gave an item.
    Item(I),
    /// The inner stream was polled and has ended.
    End,
    /// The inner stream was polled and has nothing yet.
    NotReady,
}

/// What is to be done about it.
pub enum StreamAction<O, E> {
    /// Poll the inner stream, and report what it gave.
    PollInner,
    /// Hand this to the consumer.
    Yield(Result<O, E>),
    /// Tell the consumer that the stream has ended.
    End,
    /// Tell the consumer that nothing is ready.
    Pending,
}

/// The stream of what a parser makes of the items of an inner stream. The inner
/// stream is polled by the owner of this value, as `poll_next` asks for it.
pub struct ParseWithStream<I, O, E, P: Parser<I, O, E>> {
    pub parser: P,
    /// Values that were parsed and not yet yielded, the next one last.
    pub items: Vec<O>,
    pub _phantom_data: PhantomData<(I, E)>,
}

/// What comes of a stock of parsed values: the last one is yielded, or the inner
/// stream is polled when there is none.
pub open spec fn taken<O, E>(items: Seq<O>) -> (Seq<O>, StreamAction<O, E>) {
    if items.len() == 0 {
        (items, StreamAction::PollInner)
    } else {
        (items.drop_last(), StreamAction::Yield(Ok(items.last())))
    }
}

impl<I, O, E, P: Parser<I, O, E>> ParseWithStream<I, O, E, P> {
    /// What the stream does about an item that the parser answered with `status`.
    pub open spec fn answered(
        &self,
        status: ParseStatus<O, E>,
        next: &Self,
        action: StreamAction<O, E>,
    ) -> bool {
        match status {
            ParseStatus::Output(values) => (next.items@, action) == taken::<O, E>(
                self.items@ + values@,
            ),
            ParseStatus::NeedsMore => (next.items@, action) == taken::<O, E>(self.items@),
            ParseStatus::Error(e) => next.items@ == self.items@ && action
                == StreamAction::<O, E>::Yield(Err(e)),
        }
    }

    /// The transitions of the stream.
    pub open spec fn polled(
        &self,
        event: StreamEvent<I>,
        next: &Self,
        action: StreamAction<O, E>,
    ) -> bool {
        match event {
            StreamEvent::Poll => next.parser == self.parser && (next.items@, action) == taken::<
                O,
                E,
            >(self.items@),
            StreamEvent::Item(item) => exists|status: ParseStatus<O, E>|
                #[trigger] self.parser.step(item, &next.parser, status) && self.answered(
                    status,
                    next,
                    action,
                ),
            StreamEvent::End => next == self && action == StreamAction::<O, E>::End,
            StreamEvent::NotReady => next == self && action == StreamAction::<O, E>::Pending,
        }
    }

    /// A stream that has parsed nothing yet.
    pub fn new(parser: P) -> (stream: Self)
        ensures
            stream.parser == parser,
            stream.items@ == Seq::<O>::empty(),
    {
        ParseWithStream { parser, items: Vec::new(), _phantom_data: PhantomData }
    }

    /// Yields the last of the parsed values, or asks for the inner stream.
    fn take_item(&mut self) -> (action: StreamAction<O, E>)
        ensures
            final(self).parser == old(self).parser,
            (final(self).items@, action) == taken::<O, E>(old(self).items@),
    {
        match self.items.pop() {
            Some(o) => StreamAction::Yield(Ok(o)),
            None => StreamAction::PollInner,
        }
    }

    /// Decides what to do about an answer of the parser.
    pub fn handle_status(&mut self, status: ParseStatus<O, E>) -> (action: StreamAction<O, E>)
        ensures
            final(self).parser == old(self).parser,
            old(self).answered(status, final(self), action),
    {
        match status {
            ParseStatus::Output(mut o) => {
                self.items.append(&mut o);
                self.take_item()
            },
            ParseStatus::NeedsMore => self.take_item(),
            ParseStatus::Error(e) => StreamAction::Yield(Err(e)),
        }
    }

    /// Decides what to do about an event. Parsed values are yielded before the
    /// inner stream is asked for more.
    pub fn poll_next(&mut self, event: StreamEvent<I>) -> (action: StreamAction<O, E>)
        ensures
            old(self).polled(event, final(self), action),
            action is PollInner ==> final(self).items@.len() == 0,
    {
        match event {
            StreamEvent::Poll => self.take_item(),
            StreamEvent::Item(item) => {
                let status = self.parser.process_next_item(item);
                self.handle_status(status)
            },
            StreamEvent::End => StreamAction::End,
            StreamEvent::NotReady => StreamAction::Pending,
        }
    }
}

/// The results that a stock of parsed values stands for, in the order in which
/// they are yielded.
pub open spec fn yielding<O, E>(items: Seq<O>) -> Seq<Result<O, E>> {
    Seq::new(items.len(), |i: int| Ok(items[items.len() - 1 - i]))
}

/// The results that one answer of a parser leads to.
pub open spec fn emission<O, E>(status: ParseStatus<O, E>) -> Seq<Result<O, E>> {
    match status {
        ParseStatus::Output(values) => yielding(values@),
        ParseStatus::NeedsMore => seq![],
        ParseStatus::Error(e) => seq![Err(e)],
    }
}

/// The results that a history of answers leads to.
pub open spec fn emitted<O, E>(statuses: Seq<ParseStatus<O, E>>) -> Seq<Result<O, E>>
    decreases statuses.len(),
{
    if statuses.len() == 0 {
        seq![]
    } else {
        emitted(statuses.drop_last()) + emission(statuses.last())
    }
}

/// A parser that was `start` has answered each of `items` with the status at the
/// same place in `statuses`, and is `end` now.
pub open spec fn run<I, O, E, P: Parser<I, O, E>>(
    start: P,
    items: Seq<I>,
    statuses: Seq<ParseStatus<O, E>>,
    end: P,
) -> bool
    decreases items.len(),
{
    &&& statuses.len() == items.len()
    &&& if items.len() == 0 {
        end == start
    } else {
        exists|mid: P|
            run(start, items.drop_last(), statuses.drop_last(), mid) && #[trigger] mid.step(
                items.last(),
                &end,
                statuses.last(),
            )
    }
}

/// What an action hands to the consumer.
pub open spec fn handed<O, E>(action: StreamAction<O, E>) -> Seq<Result<O, E>> {
    match action {
        StreamAction::Yield(result) => seq![result],
        _ => seq![],
    }
}

/// The books of a stream: the parser was `start` when the stream was new, it has
/// answered the items `consumed` with `statuses`, and `returned` is what the
/// consumer got so far. What was parsed is what was returned and what is in stock.
pub open spec fn accounted<I, O, E, P: Parser<I, O, E>>(
    start: P,
    consumed: Seq<I>,
    statuses: Seq<ParseStatus<O, E>>,
    stream: ParseWithStream<I, O, E, P>,
    returned: Seq<Result<O, E>>,
) -> bool {
    &&& run(start, consumed, statuses, stream.parser)
    &&& returned + yielding::<O, E>(stream.items@) == emitted(statuses)
}

/// The books of a new stream balance.
pub proof fn law_new_stream_is_accounted<I, O, E, P: Parser<I, O, E>>(
    stream: ParseWithStream<I, O, E, P>,
)
    requires
        stream.items@.len() == 0,
    ensures
        accounted(stream.parser, seq![], seq![], stream, seq![]),
{
    let nothing: Seq<Result<O, E>> = seq![];
    assert(nothing + yielding::<O, E>(stream.items@) =~= emitted::<O, E>(seq![]));
}

proof fn lemma_taken<O, E>(items: Seq<O>)
    ensures
        handed(taken::<O, E>(items).1) + yielding::<O, E>(taken::<O, E>(items).0) == yielding::<
            O,
            E,
        >(items),
{
    assert(handed(taken::<O, E>(items).1) + yielding::<O, E>(taken::<O, E>(items).0) =~= yielding::<
        O,
        E,
    >(items));
}

/// Nothing is lost, repeated or reordered: every event keeps the books balanced,
/// with the item that it brings entered as consumed and the value that the action
/// hands out entered as returned. An item is brought only when the stream
/// has asked for it, that is with nothing in stock.
pub proof fn law_poll_next_keeps_account<I, O, E, P: Parser<I, O, E>>(
    start: P,
    consumed: Seq<I>,
    statuses: Seq<ParseStatus<O, E>>,
    returned: Seq<Result<O, E>>,
    before: ParseWithStream<I, O, E, P>,
    event: StreamEvent<I>,
    after: ParseWithStream<I, O, E, P>,
    action: StreamAction<O, E>,
)
    requires
        accounted(start, consumed, statuses, before, returned),
        before.polled(event, &after, action),
        event is Item ==> before.items@.len() == 0,
    ensures
        match event {
            StreamEvent::Item(item) => exists|status: ParseStatus<O, E>|
                #[trigger] before.parser.step(item, &after.parser, status) && accounted(
                    start,
                    consumed.push(item),
                    statuses.push(status),
                    after,
                    returned + handed(action),
                ),
            _ => accounted(start, consumed, statuses, after, returned + handed(action)),
        },
{
    match event {
        StreamEvent::Poll => {
            lemma_taken::<O, E>(before.items@);
            assert((returned + handed(action)) + yielding::<O, E>(after.items@) =~= returned + (
            handed(action) + yielding::<O, E>(after.items@)));
        },
        StreamEvent::Item(item) => {
            let status = choose|status: ParseStatus<O, E>|
                #[trigger] before.parser.step(item, &after.parser, status) && before.answered(
                    status,
                    &after,
                    action,
                );
            assert(consumed.push(item).drop_last() =~= consumed);
            assert(statuses.push(status).drop_last() =~= statuses);
            assert(run(start, consumed, statuses, before.parser));
            assert(returned =~= returned + yielding::<O, E>(before.items@));
            assert(handed(action) + yielding::<O, E>(after.items@) =~= emission(status)) by {
                match status {
                    ParseStatus::Output(values) => {
                        assert(before.items@ + values@ =~= values@);
                        lemma_taken::<O, E>(values@);
                    },
                    ParseStatus::NeedsMore => {
                        lemma_taken::<O, E>(before.items@);
                    },
                    ParseStatus::Error(_) => {},
                }
            }
            assert((returned + handed(action)) + yielding::<O, E>(after.items@) =~= returned + (
            handed(action) + yielding::<O, E>(after.items@)));
            assert(before.parser.step(
                consumed.push(item).last(),
                &after.parser,
                statuses.push(status).last(),
            ));
        },
        _ => {
            assert(returned + handed(action) =~= returned);
        },
    }
}

/// When the stream asks for the inner stream, or has nothing in stock for any
/// other reason, all that was parsed has been returned, in order.
pub proof fn law_empty_stock_means_all_returned<I, O, E, P: Parser<I, O, E>>(
    start: P,
    consumed: Seq<I>,
    statuses: Seq<ParseStatus<O, E>>,
    stream: ParseWithStream<I, O, E, P>,
    returned: Seq<Result<O, E>>,
)
    requires
        accounted(start, consumed, statuses, stream, returned),
        stream.items@.len() == 0,
    ensures
        returned == emitted(statuses),
{
    assert(returned + yielding::<O, E>(stream.items@) =~= returned);
}

/// A stream was `start`, was told what the history says, did about it what the history says, and
/// is `end` now. An item was brought only when the stream had nothing in stock.
pub open spec fn streamed<I, O, E, P: Parser<I, O, E>>(
    start: ParseWithStream<I, O, E, P>,
    history: Seq<(StreamEvent<I>, StreamAction<O, E>)>,
    end: ParseWithStream<I, O, E, P>,
) -> bool
    decreases history.len(),
{
    if history.len() == 0 {
        end == start
    } else {
        exists|mid: ParseWithStream<I, O, E, P>|
            {
                &&& streamed(start, history.drop_last(), mid)
                &&& #[trigger] mid.polled(history.last().0, &end, history.last().1)
                &&& history.last().0 is Item ==> mid.items@.len() == 0
            }
    }
}

/// The items that were brought.
pub open spec fn consumed<I, O, E>(
    history: Seq<(StreamEvent<I>, StreamAction<O, E>)>,
) -> Seq<I>
    decreases history.len(),
{
    if history.len() == 0 {
        seq![]
    } else {
        match history.last().0 {
            StreamEvent::Item(item) => consumed(history.drop_last()).push(item),
            _ => consumed(history.drop_last()),
        }
    }
}

/// What the consumer got.
pub open spec fn returned<I, O, E>(
    history: Seq<(StreamEvent<I>, StreamAction<O, E>)>,
) -> Seq<Result<O, E>>
    decreases history.len(),
{
    if history.len() == 0 {
        seq![]
    } else {
        returned(history.drop_last()) + handed(history.last().1)
    }
}

/// From a new stream the consumer gets what the parser makes of the items that were brought, in
/// order, as far as it is not in stock still: all of it, where nothing is in stock.
pub proof fn law_stream_returns_what_was_parsed<I, O, E, P: Parser<I, O, E>>(
    start: ParseWithStream<I, O, E, P>,
    history: Seq<(StreamEvent<I>, StreamAction<O, E>)>,
    end: ParseWithStream<I, O, E, P>,
) -> (statuses: Seq<ParseStatus<O, E>>)
    requires
        start.items@.len() == 0,
        streamed(start, history, end),
    ensures
        accounted(start.parser, consumed(history), statuses, end, returned(history)),
        end.items@.len() == 0 ==> returned(history) == emitted(statuses),
    decreases history.len(),
{
    let statuses = if history.len() == 0 {
        law_new_stream_is_accounted(start);
        seq![]
    } else {
        let (event, action) = history.last();
        let mid = choose|mid: ParseWithStream<I, O, E, P>|
            {
                &&& streamed(start, history.drop_last(), mid)
                &&& #[trigger] mid.polled(event, &end, action)
                &&& event is Item ==> mid.items@.len() == 0
            };
        let before = law_stream_returns_what_was_parsed(start, history.drop_last(), mid);
        law_poll_next_keeps_account(
            start.parser,
            consumed(history.drop_last()),
            before,
            returned(history.drop_last()),
            mid,
            event,
            end,
            action,
        );
        match event {
            StreamEvent::Item(item) => {
                let status = choose|status: ParseStatus<O, E>|
                    #[trigger] mid.parser.step(item, &end.parser, status) && accounted(
                        start.parser,
                        consumed(history.drop_last()).push(item),
                        before.push(status),
                        end,
                        returned(history.drop_last()) + handed(action),
                    );
                before.push(status)
            },
            _ => before,
        }
    };
    if end.items@.len() == 0 {
        law_empty_stock_means_all_returned(
            start.parser,
            consumed(history),
            statuses,
            end,
            returned(history),
        );
    }
    statuses
}

/// Waiting loses nothing: a stream comes to the same end, with the same items brought and the
/// same results handed out, when the times at which the inner stream had nothing yet are left
/// out.
pub proof fn law_waiting_loses_nothing<I, O, E, P: Parser<I, O, E>>(
    start: ParseWithStream<I, O, E, P>,
    history: Seq<(StreamEvent<I>, StreamAction<O, E>)>,
    end: ParseWithStream<I, O, E, P>,
)
    requires
        streamed(start, history, end),
    ensures
        ({
            let swift = history.filter(
                |step: (StreamEvent<I>, StreamAction<O, E>)| step.0 !is NotReady,
            );
            &&& streamed(start, swift, end)
            &&& consumed(swift) == consumed(history)
            &&& returned(swift) == returned(history)
        }),
    decreases history.len(),
{
    reveal(Seq::filter);
    let ready = |step: (StreamEvent<I>, StreamAction<O, E>)| step.0 !is NotReady;
    if history.len() > 0 {
        let rest = history.drop_last();
        let (event, action) = history.last();
        let mid = choose|mid: ParseWithStream<I, O, E, P>|
            {
                &&& streamed(start, rest, mid)
                &&& #[trigger] mid.polled(event, &end, action)
                &&& event is Item ==> mid.items@.len() == 0
            };
        law_waiting_loses_nothing(start, rest, mid);
        let swift = history.filter(ready);
        if event !is NotReady {
            assert(swift.drop_last() =~= rest.filter(ready));
            assert(mid.polled(swift.last().0, &end, swift.last().1));
        } else {
            assert(returned(rest) + handed(action) =~= returned(rest));
        }
    }
}

/// A longer history leads to what its two parts lead to, one after the other.
pub proof fn law_emitted_in_order<O, E>(
    first: Seq<ParseStatus<O, E>>,
    second: Seq<ParseStatus<O, E>>,
)
    ensures
        emitted(first + second) == emitted(first) + emitted(second),
    decreases second.len(),
{
    if second.len() == 0 {
        assert(first + second =~= first);
        assert(emitted(first) + emitted(second) =~= emitted(first));
    } else {
        law_emitted_in_order(first, second.drop_last());
        assert((first + second).drop_last() =~= first + second.drop_last());
        assert(emitted(first) + emitted(second) =~= (emitted(first) + emitted(second.drop_last()))
            + emission(second.last()));
    }
}

/// A run over two stretches of items is a run over the first and then one over
/// the second.
pub proof fn law_run_in_two_parts<I, O, E, P: Parser<I, O, E>>(
    start: P,
    first: Seq<I>,
    second: Seq<I>,
    statuses: Seq<ParseStatus<O, E>>,
    end: P,
) -> (mid: P)
    requires
        run(start, first + second, statuses, end),
    ensures
        run(start, first, statuses.take(first.len() as int), mid),
        run(mid, second, statuses.skip(first.len() as int), end),
    decreases second.len(),
{
    let n = first.len() as int;
    if second.len() == 0 {
        assert(first + second =~= first);
        assert(statuses.take(n) =~= statuses);
        end
    } else {
        let items = first + second;
        let before = choose|before: P|
            run(start, items.drop_last(), statuses.drop_last(), before) && #[trigger] before.step(
                items.last(),
                &end,
                statuses.last(),
            );
        assert(items.drop_last() =~= first + second.drop_last());
        let mid = law_run_in_two_parts(
            start,
            first,
            second.drop_last(),
            statuses.drop_last(),
            before,
        );
        assert(statuses.drop_last().take(n) =~= statuses.take(n));
        assert(statuses.drop_last().skip(n) =~= statuses.skip(n).drop_last());
        assert(before.step(second.last(), &end, statuses.skip(n).last()));
        mid
    }
}

/// A stream that is asked hands out the last of the values in stock, which then leaves the stock,
/// and polls the inner stream exactly when there is none.
pub proof fn law_stock_is_handed_out_first<I, O, E, P: Parser<I, O, E>>(
    stream: &mut ParseWithStream<I, O, E, P>,
    action: StreamAction<O, E>,
)
    requires
        call_ensures(
            ParseWithStream::<I, O, E, P>::poll_next,
            (stream, StreamEvent::<I>::Poll),
            action,
        ),
    ensures
        final(stream).parser == old(stream).parser,
        old(stream).items@.len() == 0 ==> action is PollInner && final(stream).items@.len() == 0,
        old(stream).items@.len() > 0 ==> {
            &&& action == StreamAction::<O, E>::Yield(Ok(old(stream).items@.last()))
            &&& final(stream).items@ == old(stream).items@.drop_last()
        },
{
}

/// Every item goes to the parser, once. The values that it answers with go behind those in stock
/// as they are, and the last of all is handed out; without any the inner stream is polled again; an
/// error is handed out as it is, before all that is in stock.
pub proof fn law_every_item_is_parsed<I, O, E, P: Parser<I, O, E>>(
    stream: &mut ParseWithStream<I, O, E, P>,
    item: I,
    action: StreamAction<O, E>,
)
    requires
        call_ensures(
            ParseWithStream::<I, O, E, P>::poll_next,
            (stream, StreamEvent::<I>::Item(item)),
            action,
        ),
    ensures
        exists|status: ParseStatus<O, E>|
            {
                &&& #[trigger] old(stream).parser.step(item, &final(stream).parser, status)
                &&& status matches ParseStatus::Error(e) ==> final(stream).items@
                    == old(stream).items@ && action == StreamAction::<O, E>::Yield(Err(e))
                &&& !(status is Error) ==> {
                    let stock = old(stream).items@ + (match status {
                        ParseStatus::Output(values) => values@,
                        _ => seq![],
                    });
                    if stock.len() == 0 {
                        final(stream).items@.len() == 0 && action is PollInner
                    } else {
                        &&& action == StreamAction::<O, E>::Yield(Ok(stock.last()))
                        &&& final(stream).items@ == stock.drop_last()
                    }
                }
            },
{
    assert(old(stream).items@ + Seq::<O>::empty() =~= old(stream).items@);
}

/// The stream ends exactly when the inner stream does, waits exactly when the inner stream does,
/// and both change nothing.
pub proof fn law_stream_ends_and_waits_with_the_inner_stream<I, O, E, P: Parser<I, O, E>>(
    stream: &mut ParseWithStream<I, O, E, P>,
    event: StreamEvent<I>,
    action: StreamAction<O, E>,
)
    requires
        call_ensures(ParseWithStream::<I, O, E, P>::poll_next, (stream, event), action),
    ensures
        action is End <==> event is End,
        action is Pending <==> event is NotReady,
        action is End || action is Pending ==> final(stream).parser == old(stream).parser
            && final(stream).items@ == old(stream).items@,
{
}

/// Whatever the parser answers, the values in stock stay where they are, in front of what comes of
/// it, and only the last of all is handed out; an error goes before all of them.
pub proof fn law_answer_goes_behind_the_stock<I, O, E, P: Parser<I, O, E>>(
    stream: &mut ParseWithStream<I, O, E, P>,
    status: ParseStatus<O, E>,
    action: StreamAction<O, E>,
)
    requires
        call_ensures(ParseWithStream::<I, O, E, P>::handle_status, (stream, status), action),
    ensures
        final(stream).parser == old(stream).parser,
        status matches ParseStatus::Error(e) ==> final(stream).items@ == old(stream).items@
            && action == StreamAction::<O, E>::Yield(Err(e)),
        !(status is Error) ==> {
            let stock = old(stream).items@ + (match status {
                ParseStatus::Output(values) => values@,
                _ => seq![],
            });
            if stock.len() == 0 {
                final(stream).items@.len() == 0 && action is PollInner
            } else {
                &&& action == StreamAction::<O, E>::Yield(Ok(stock.last()))
                &&& final(stream).items@ == stock.drop_last()
            }
        },
{
    assert(old(stream).items@ + Seq::<O>::empty() =~= old(stream).items@);
}

/// A new stream has nothing in stock.
pub proof fn law_new_stream_is_empty<I, O, E, P: Parser<I, O, E>>(
    parser: P,
    stream: ParseWithStream<I, O, E, P>,
)
    requires
        call_ensures(ParseWithStream::<I, O, E, P>::new, (parser,), stream),
    ensures
        stream.parser == parser,
        stream.items@.len() == 0,
{
}

} // verus!
