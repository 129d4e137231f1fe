//! Strings of bytes that end with a zero, read from a stream of bytes.

use crate::stream_parser::{self, ParseStatus, Parser};
use crate::test_fixtures::Error;
use vstd::prelude::*;

verus! {

/// A null-terminated sequence of bytes
#[derive(Debug, PartialEq)]
pub struct CString(pub Vec<u8>);

/// A zero stands at the end of the bytes and nowhere else.
pub open spec fn is_terminated(bytes: Seq<u8>) -> bool {
    &&& bytes.len() > 0
    &&& bytes.last() == 0
    &&& is_open(bytes.drop_last())
}

/// No byte is zero.
pub open spec fn is_open(bytes: Seq<u8>) -> bool {
    forall|i: int| 0 <= i < bytes.len() ==> #[trigger] bytes[i] != 0
}

pub struct CStringParser {
    /// The bytes since the last string.
    pub context: Vec<u8>,
}

impl CStringParser {
    pub fn new() -> (parser: Self)
        ensures
            parser.context@.len() == 0,
    {
        CStringParser { context: Vec::new() }
    }
}

impl Parser<u8, CString, Error> for CStringParser {
    open spec fn step(&self, item: u8, next: &Self, status: ParseStatus<CString, Error>) -> bool {
        let bytes = self.context@.push(item);
        if item == 0 {
            &&& next.context@.len() == 0
            &&& status matches ParseStatus::Output(strings) && strings@.len() == 1
                && strings@[0].0@ == bytes
        } else {
            next.context@ == bytes && status is NeedsMore
        }
    }

    fn process_next_item(&mut self, item: u8) -> ParseStatus<CString, Error> {
        self.context.push(item);
        if item == 0 {
            let mut bytes: Vec<u8> = Vec::new();
            std::mem::swap(&mut bytes, &mut self.context);
            let mut strings = Vec::new();
            strings.push(CString(bytes));
            ParseStatus::Output(strings)
        } else {
            ParseStatus::NeedsMore
        }
    }
}

/// The bytes of the strings that a stream yields, one after the other.
pub open spec fn joined(results: Seq<Result<CString, Error>>) -> Seq<u8>
    decreases results.len(),
{
    if results.len() == 0 {
        seq![]
    } else {
        joined(results.drop_last()) + (match results.last() {
            Ok(string) => string.0@,
            Err(_) => seq![],
        })
    }
}

/// A new parser cuts the bytes behind each zero and changes nothing: the strings
/// that it yields and the bytes that it still holds are the bytes that it got, each
/// string has its zero at the end and nowhere else, what it holds has none,
/// and it never fails.
pub proof fn law_bytes_are_cut_behind_zeros(
    bytes: Seq<u8>,
    start: CStringParser,
    statuses: Seq<ParseStatus<CString, Error>>,
    end: CStringParser,
)
    requires
        start.context@.len() == 0,
        stream_parser::run::<u8, CString, Error, CStringParser>(start, bytes, statuses, end),
    ensures
        joined(stream_parser::emitted(statuses)) + end.context@ == bytes,
        forall|i: int|
            0 <= i < stream_parser::emitted(statuses).len() ==> (
            #[trigger] stream_parser::emitted(statuses)[i] matches Ok(string) && is_terminated(
                string.0@,
            )),
        is_open(end.context@),
    decreases bytes.len(),
{
    let results = stream_parser::emitted(statuses);
    if bytes.len() == 0 {
        assert(joined(results) + end.context@ =~= bytes);
    } else {
        let before = choose|before: CStringParser|
            stream_parser::run::<u8, CString, Error, CStringParser>(
                start,
                bytes.drop_last(),
                statuses.drop_last(),
                before,
            ) && #[trigger] before.step(bytes.last(), &end, statuses.last());
        law_bytes_are_cut_behind_zeros(bytes.drop_last(), start, statuses.drop_last(), before);
        let earlier = stream_parser::emitted(statuses.drop_last());
        if bytes.last() == 0 {
            assert(results.drop_last() =~= earlier);
            let string = results.last()->Ok_0.0@;
            assert(string.drop_last() =~= before.context@);
        } else {
            assert(results =~= earlier);
        }
        assert(joined(results) + end.context@ =~= (joined(earlier) + before.context@).push(
            bytes.last(),
        ));
        assert(bytes.drop_last().push(bytes.last()) =~= bytes);
    }
}

/// Every byte but a zero is kept, behind those that are kept already; a zero ends the string that
/// is made of them, which is given out with the zero at its end, and none is kept then.
pub proof fn law_zero_ends_the_string(
    parser: &mut CStringParser,
    item: u8,
    status: ParseStatus<CString, Error>,
)
    requires
        call_ensures(
            <CStringParser as Parser<u8, CString, Error>>::process_next_item,
            (parser, item),
            status,
        ),
    ensures
        item != 0 ==> status is NeedsMore && final(parser).context@
            == old(parser).context@.push(item),
        item == 0 ==> final(parser).context@.len() == 0,
        item == 0 ==> (status matches ParseStatus::Output(strings) && strings@.len() == 1
            && strings@[0].0@ == old(parser).context@.push(0u8)),
{
}

/// A new parser that gets any bytes without a zero and then a zero yields one string, of exactly
/// these bytes.
pub proof fn law_terminated_bytes_are_one_string(
    text: Seq<u8>,
    start: CStringParser,
    statuses: Seq<ParseStatus<CString, Error>>,
    end: CStringParser,
)
    requires
        call_ensures(CStringParser::new, (), start),
        forall|i: int| 0 <= i < text.len() ==> #[trigger] text[i] != 0,
        stream_parser::run::<u8, CString, Error, CStringParser>(
            start,
            text.push(0u8),
            statuses,
            end,
        ),
    ensures
        end.context@.len() == 0,
        stream_parser::emitted(statuses).len() == 1,
        stream_parser::emitted(statuses)[0] matches Ok(string) && string.0@ == text.push(0u8),
{
    let bytes = text.push(0u8);
    assert(bytes.drop_last() =~= text);
    let before = choose|before: CStringParser|
        stream_parser::run::<u8, CString, Error, CStringParser>(
            start,
            bytes.drop_last(),
            statuses.drop_last(),
            before,
        ) && #[trigger] before.step(bytes.last(), &end, statuses.last());
    lemma_open_bytes_are_kept(text, start, statuses.drop_last(), before);
    assert(stream_parser::emitted(statuses) =~= stream_parser::emission(statuses.last()));
}

proof fn lemma_open_bytes_are_kept(
    text: Seq<u8>,
    start: CStringParser,
    statuses: Seq<ParseStatus<CString, Error>>,
    end: CStringParser,
)
    requires
        start.context@.len() == 0,
        forall|i: int| 0 <= i < text.len() ==> #[trigger] text[i] != 0,
        stream_parser::run::<u8, CString, Error, CStringParser>(start, text, statuses, end),
    ensures
        end.context@ == text,
        stream_parser::emitted(statuses).len() == 0,
    decreases text.len(),
{
    if text.len() > 0 {
        let before = choose|before: CStringParser|
            stream_parser::run::<u8, CString, Error, CStringParser>(
                start,
                text.drop_last(),
                statuses.drop_last(),
                before,
            ) && #[trigger] before.step(text.last(), &end, statuses.last());
        lemma_open_bytes_are_kept(text.drop_last(), start, statuses.drop_last(), before);
        assert(text.drop_last().push(text.last()) =~= text);
    }
}

} // verus!
