//! Messages as bytes: an encoder and a decoder for [`ParseWithStream`].
//!
//! [`ParseWithStream`]: crate::stream_parser::ParseWithStream

use crate::stream_parser::{self, ParseStatus, Parser};
use crate::test_fixtures::Error;
use vstd::prelude::*;

verus! {

#[derive(Debug, Clone, PartialEq)]
pub enum Message {
    Noop,
    Echo(String),
}

/// A message, with the text as a sequence of characters.
pub enum MessageView {
    Noop,
    Echo(Seq<char>),
}

impl View for Message {
    type V = MessageView;

    open spec fn view(&self) -> MessageView {
        match self {
            Message::Noop => MessageView::Noop,
            Message::Echo(text) => MessageView::Echo(text@),
        }
    }
}

/// The bytes of a message: two zeros, or a one, the text and a zero.
pub open spec fn frame(message: MessageView) -> Seq<u8> {
    match message {
        MessageView::Noop => seq![0u8, 0u8],
        MessageView::Echo(text) => seq![1u8] + vstd::utf8::encode_utf8(text) + seq![0u8],
    }
}

/// The text that says why bytes are not UTF-8.
pub uninterp spec fn utf8_error_text(bytes: Seq<u8>) -> Seq<char>;

/// `String::from_utf8`: the string that the bytes encode, or, when they are not valid
/// UTF-8, the `Display` text of the error, which is a function of the bytes.
#[verifier::external_body]
fn utf8_string(bytes: Vec<u8>) -> (result: Result<String, String>)
    ensures
        match result {
            Ok(text) => vstd::utf8::valid_utf8(bytes@) && text@ == vstd::utf8::decode_utf8(bytes@),
            Err(text) => !vstd::utf8::valid_utf8(bytes@) && text@ == utf8_error_text(bytes@),
        },
{
    match String::from_utf8(bytes) {
        Ok(text) => Ok(text),
        Err(e) => Err(e.to_string()),
    }
}

pub struct MessageEncoder {}

impl MessageEncoder {
    pub fn new() -> (encoder: Self)
        ensures
            encoder == (MessageEncoder {  }),
    {
        MessageEncoder {  }
    }

    /// The bytes of a message from the last to the first, which is the order in which
    /// a stream takes them.
    pub fn encode(message: &Message) -> (bytes: Vec<u8>)
        ensures
            bytes@ == frame(message@).reverse(),
    {
        let mut bytes: Vec<u8> = Vec::new();
        bytes.push(0);
        match message {
            Message::Noop => {
                bytes.push(0);
            },
            Message::Echo(text) => {
                let text_bytes = text.as_str().as_bytes();
                let mut left: usize = text_bytes.len();
                while left > 0
                    invariant
                        left <= text_bytes@.len(),
                        bytes@ == seq![0u8] + text_bytes@.skip(left as int).reverse(),
                    decreases left,
                {
                    left -= 1;
                    bytes.push(text_bytes[left]);
                    assert(text_bytes@.skip(left as int).reverse() =~= text_bytes@.skip(
                        left + 1,
                    ).reverse().push(text_bytes@[left as int]));
                }
                bytes.push(1);
                assert(text_bytes@.skip(0) =~= text_bytes@);
            },
        }
        assert(bytes@ =~= frame(message@).reverse());
        bytes
    }
}

impl Parser<Message, u8, Error> for MessageEncoder {
    open spec fn step(&self, item: Message, next: &Self, status: ParseStatus<u8, Error>) -> bool {
        &&& next == self
        &&& status matches ParseStatus::Output(bytes) && bytes@ == frame(item@).reverse()
    }

    fn process_next_item(&mut self, item: Message) -> ParseStatus<u8, Error> {
        ParseStatus::Output(MessageEncoder::encode(&item))
    }
}

pub struct MessageDecoder {
    /// The bytes of the message that is not complete yet.
    pub context: Vec<u8>,
}

/// What a decoder makes of a message whose bytes but for the zero at the end are
/// `context`.
pub open spec fn decoded(context: Seq<u8>, status: ParseStatus<Message, Error>) -> bool {
    let text = context.skip(1);
    if context.last() == 0 {
        status matches ParseStatus::Output(messages) && messages@.len() == 1 && messages@[0]@
            == MessageView::Noop
    } else if vstd::utf8::valid_utf8(text) {
        status matches ParseStatus::Output(messages) && messages@.len() == 1 && messages@[0]@
            == MessageView::Echo(vstd::utf8::decode_utf8(text))
    } else {
        status matches ParseStatus::Error(e) && e@ == utf8_error_text(text)
    }
}

impl MessageDecoder {
    pub fn new() -> (decoder: Self)
        ensures
            decoder.context@.len() == 0,
    {
        MessageDecoder { context: Vec::new() }
    }
}

impl Parser<u8, Message, Error> for MessageDecoder {
    open spec fn step(&self, item: u8, next: &Self, status: ParseStatus<Message, Error>) -> bool {
        if self.context@.len() == 0 || item != 0 {
            next.context@ == self.context@.push(item) && status is NeedsMore
        } else {
            next.context@.len() == 0 && decoded(self.context@, status)
        }
    }

    fn process_next_item(&mut self, item: u8) -> ParseStatus<Message, Error> {
        let len = self.context.len();
        if len == 0 || item != 0 {
            self.context.push(item);
            ParseStatus::NeedsMore
        } else {
            let mut context: Vec<u8> = Vec::new();
            std::mem::swap(&mut context, &mut self.context);
            if context[len - 1] == 0 {
                let mut messages = Vec::new();
                messages.push(Message::Noop);
                ParseStatus::Output(messages)
            } else {
                let text = context.split_off(1);
                assert(text@ == old(self).context@.skip(1));
                match utf8_string(text) {
                    Ok(text) => {
                        let mut messages = Vec::new();
                        messages.push(Message::Echo(text));
                        ParseStatus::Output(messages)
                    },
                    Err(e) => ParseStatus::Error(Error(e)),
                }
            }
        }
    }
}

impl Parser<Result<u8, Error>, Message, Error> for MessageDecoder {
    open spec fn step(
        &self,
        item: Result<u8, Error>,
        next: &Self,
        status: ParseStatus<Message, Error>,
    ) -> bool {
        match item {
            Ok(byte) => Parser::<u8, Message, Error>::step(self, byte, next, status),
            Err(e) => next == self && status == ParseStatus::<Message, Error>::Error(e),
        }
    }

    fn process_next_item(&mut self, item: Result<u8, Error>) -> ParseStatus<Message, Error> {
        match item {
            Ok(byte) => Parser::<u8, Message, Error>::process_next_item(self, byte),
            Err(e) => ParseStatus::Error(e),
        }
    }
}

/// The bytes of messages, one after the other.
pub open spec fn wire(messages: Seq<MessageView>) -> Seq<u8>
    decreases messages.len(),
{
    if messages.len() == 0 {
        seq![]
    } else {
        wire(messages.drop_last()) + frame(messages.last())
    }
}

/// The decoder can tell where the message ends: its text holds no zero character.
pub open spec fn is_framed(message: MessageView) -> bool {
    match message {
        MessageView::Noop => true,
        MessageView::Echo(text) => !text.contains('\0'),
    }
}

/// The messages that were yielded, in order, and no error.
pub open spec fn yields(
    results: Seq<Result<Message, Error>>,
    messages: Seq<MessageView>,
) -> bool {
    &&& results.len() == messages.len()
    &&& forall|i: int|
        0 <= i < messages.len() ==> (#[trigger] results[i] matches Ok(message) && message@
            == messages[i])
}

proof fn lemma_scalar_bytes(scalar: u32)
    by (bit_vector)
    requires
        scalar != 0,
    ensures
        scalar <= 0x7F ==> (scalar & 0x7F) as u8 != 0,
        0xC0u8 | ((scalar >> 6) & 0x1F) as u8 != 0,
        0xE0u8 | ((scalar >> 12) & 0x0F) as u8 != 0,
        0xF0u8 | ((scalar >> 18) & 0x07) as u8 != 0,
        0x80u8 | (scalar & 0x3F) as u8 != 0,
        0x80u8 | ((scalar >> 6) & 0x3F) as u8 != 0,
        0x80u8 | ((scalar >> 12) & 0x3F) as u8 != 0,
{
}

/// Text without a zero character has no zero byte.
proof fn lemma_no_zero_byte(text: Seq<char>)
    requires
        !text.contains('\0'),
    ensures
        forall|i: int|
            0 <= i < vstd::utf8::encode_utf8(text).len() ==> #[trigger] vstd::utf8::encode_utf8(
                text,
            )[i] != 0,
    decreases text.len(),
{
    if text.len() > 0 {
        assert(text.contains(text[0]));
        let scalar = text[0] as u32;
        vstd::utf8::char_u32_cast(text[0], scalar);
        assert(text[0] != '\0');
        assert(0u32 as char == '\0');
        assert(scalar != 0);
        lemma_scalar_bytes(scalar);
        assert forall|c: char| text.drop_first().contains(c) implies text.contains(c) by {
            let i = choose|i: int| 0 <= i < text.drop_first().len() && text.drop_first()[i] == c;
            assert(text[i + 1] == c);
        }
        lemma_no_zero_byte(text.drop_first());
        let head = vstd::utf8::encode_scalar(scalar);
        let tail = vstd::utf8::encode_utf8(text.drop_first());
        assert(forall|i: int| 0 <= i < head.len() ==> head[i] != 0);
        assert(vstd::utf8::encode_utf8(text) == head + tail);
    }
}

/// A decoder between two messages collects bytes up to the next zero.
proof fn lemma_decoder_collects(
    start: MessageDecoder,
    bytes: Seq<u8>,
    statuses: Seq<ParseStatus<Message, Error>>,
    end: MessageDecoder,
)
    requires
        start.context@.len() == 0,
        stream_parser::run::<u8, Message, Error, MessageDecoder>(start, bytes, statuses, end),
        forall|i: int| 1 <= i < bytes.len() ==> #[trigger] bytes[i] != 0,
    ensures
        end.context@ == bytes,
        stream_parser::emitted(statuses) == Seq::<Result<Message, Error>>::empty(),
    decreases bytes.len(),
{
    if bytes.len() > 0 {
        let before = choose|before: MessageDecoder|
            stream_parser::run::<u8, Message, Error, MessageDecoder>(
                start,
                bytes.drop_last(),
                statuses.drop_last(),
                before,
            ) && #[trigger] Parser::<u8, Message, Error>::step(
                &before,
                bytes.last(),
                &end,
                statuses.last(),
            );
        lemma_decoder_collects(start, bytes.drop_last(), statuses.drop_last(), before);
        assert(bytes.drop_last().push(bytes.last()) =~= bytes);
    }
}

/// A decoder that is between two messages yields the message that the next bytes
/// are the frame of, and is between two messages again.
pub proof fn law_decoder_reads_frame(
    message: MessageView,
    start: MessageDecoder,
    statuses: Seq<ParseStatus<Message, Error>>,
    end: MessageDecoder,
)
    requires
        is_framed(message),
        start.context@.len() == 0,
        stream_parser::run::<u8, Message, Error, MessageDecoder>(
            start,
            frame(message),
            statuses,
            end,
        ),
    ensures
        end.context@.len() == 0,
        yields(stream_parser::emitted(statuses), seq![message]),
{
    let bytes = frame(message);
    let before = choose|before: MessageDecoder|
        stream_parser::run::<u8, Message, Error, MessageDecoder>(
            start,
            bytes.drop_last(),
            statuses.drop_last(),
            before,
        ) && #[trigger] Parser::<u8, Message, Error>::step(
            &before,
            bytes.last(),
            &end,
            statuses.last(),
        );
    match message {
        MessageView::Noop => {},
        MessageView::Echo(text) => {
            let text_bytes = vstd::utf8::encode_utf8(text);
            lemma_no_zero_byte(text);
            vstd::utf8::encode_utf8_valid_utf8(text);
            vstd::utf8::encode_utf8_decode_utf8(text);
            assert(bytes.drop_last() =~= seq![1u8] + text_bytes);
            assert(bytes.drop_last().skip(1) =~= text_bytes);
        },
    }
    lemma_decoder_collects(start, bytes.drop_last(), statuses.drop_last(), before);
    assert(stream_parser::emitted(statuses) =~= stream_parser::emission(statuses.last()));
}

/// A decoder reads back all messages whose bytes it gets, in order, whatever
/// they are, as long as their texts hold no zero character.
pub proof fn law_decoder_reads_wire(
    messages: Seq<MessageView>,
    start: MessageDecoder,
    statuses: Seq<ParseStatus<Message, Error>>,
    end: MessageDecoder,
)
    requires
        forall|i: int| 0 <= i < messages.len() ==> is_framed(#[trigger] messages[i]),
        start.context@.len() == 0,
        stream_parser::run::<u8, Message, Error, MessageDecoder>(
            start,
            wire(messages),
            statuses,
            end,
        ),
    ensures
        end.context@.len() == 0,
        yields(stream_parser::emitted(statuses), messages),
    decreases messages.len(),
{
    if messages.len() > 0 {
        let first = wire(messages.drop_last());
        let n = first.len() as int;
        let mid = stream_parser::law_run_in_two_parts::<u8, Message, Error, MessageDecoder>(
            start,
            first,
            frame(messages.last()),
            statuses,
            end,
        );
        law_decoder_reads_wire(messages.drop_last(), start, statuses.take(n), mid);
        law_decoder_reads_frame(messages.last(), mid, statuses.skip(n), end);
        stream_parser::law_emitted_in_order(statuses.take(n), statuses.skip(n));
        assert(statuses.take(n) + statuses.skip(n) =~= statuses);
    }
}

/// What a stream of bytes yields that come without an error.
pub open spec fn arrived(bytes: Seq<u8>) -> Seq<Result<u8, Error>> {
    bytes.map_values(|byte: u8| Ok(byte))
}

/// The views of messages.
pub open spec fn views(messages: Seq<Message>) -> Seq<MessageView> {
    messages.map_values(|message: Message| message@)
}

/// A stream with an encoder yields the frames of the messages, one after the
/// other, and no error.
pub proof fn law_encoder_writes_wire(
    messages: Seq<Message>,
    start: MessageEncoder,
    statuses: Seq<ParseStatus<u8, Error>>,
    end: MessageEncoder,
)
    requires
        stream_parser::run::<Message, u8, Error, MessageEncoder>(start, messages, statuses, end),
    ensures
        stream_parser::emitted(statuses) == arrived(wire(views(messages))),
    decreases messages.len(),
{
    if messages.len() == 0 {
        assert(stream_parser::emitted(statuses) =~= arrived(wire(views(messages))));
    } else {
        let before = choose|before: MessageEncoder|
            stream_parser::run::<Message, u8, Error, MessageEncoder>(
                start,
                messages.drop_last(),
                statuses.drop_last(),
                before,
            ) && #[trigger] Parser::<Message, u8, Error>::step(
                &before,
                messages.last(),
                &end,
                statuses.last(),
            );
        law_encoder_writes_wire(messages.drop_last(), start, statuses.drop_last(), before);
        assert(views(messages).drop_last() =~= views(messages.drop_last()));
        assert(stream_parser::emission(statuses.last()) =~= arrived(frame(messages.last()@)));
        assert(arrived(wire(views(messages))) =~= arrived(wire(views(messages.drop_last())))
            + arrived(frame(messages.last()@)));
    }
}

/// What is written is read back: when the bytes that a stream with an encoder
/// yields go through a stream with a new decoder, the second stream yields the
/// messages that went into the first.
pub proof fn law_round_trip(
    messages: Seq<Message>,
    encoder: MessageEncoder,
    written: Seq<ParseStatus<u8, Error>>,
    encoder_end: MessageEncoder,
    bytes: Seq<u8>,
    decoder: MessageDecoder,
    read: Seq<ParseStatus<Message, Error>>,
    decoder_end: MessageDecoder,
)
    requires
        forall|i: int| 0 <= i < messages.len() ==> is_framed((#[trigger] messages[i])@),
        stream_parser::run::<Message, u8, Error, MessageEncoder>(
            encoder,
            messages,
            written,
            encoder_end,
        ),
        stream_parser::emitted(written) == arrived(bytes),
        decoder.context@.len() == 0,
        stream_parser::run::<u8, Message, Error, MessageDecoder>(decoder, bytes, read, decoder_end),
    ensures
        yields(stream_parser::emitted(read), views(messages)),
        decoder_end.context@.len() == 0,
{
    law_encoder_writes_wire(messages, encoder, written, encoder_end);
    let sent = wire(views(messages));
    assert(bytes =~= sent) by {
        assert(arrived(bytes).len() == arrived(sent).len());
        assert forall|i: int| 0 <= i < bytes.len() implies bytes[i] == sent[i] by {
            assert(arrived(bytes)[i] == arrived(sent)[i]);
        }
    }
    law_decoder_reads_wire(views(messages), decoder, read, decoder_end);
}

/// `encode` writes a text as a one, its UTF-8 bytes and a zero, and no text as two zeros, from the
/// last byte to the first.
pub proof fn law_encode_writes_text_between_one_and_zero(message: Message, bytes: Vec<u8>)
    requires
        call_ensures(MessageEncoder::encode, (&message,), bytes),
    ensures
        message is Noop ==> bytes@.len() == 2 && bytes@[0] == 0 && bytes@[1] == 0,
        message matches Message::Echo(text) ==> {
            let utf8 = vstd::utf8::encode_utf8(text@);
            let n = utf8.len() as int;
            &&& bytes@.len() == n + 2
            &&& bytes@[n + 1] == 1
            &&& bytes@[0] == 0
            &&& forall|i: int| 0 <= i < n ==> #[trigger] utf8[i] == bytes@[n - i]
        },
{
    if let Message::Echo(text) = message {
        let utf8 = vstd::utf8::encode_utf8(text@);
        let n = utf8.len() as int;
        let whole = frame(message@);
        assert forall|i: int| 0 <= i < n implies #[trigger] utf8[i] == bytes@[n - i] by {
            assert(whole[i + 1] == utf8[i]);
        }
    }
}

/// The encoder answers each message with what `encode` makes of it, and stays as it is.
pub proof fn law_encoder_answers_with_the_bytes(
    encoder: &mut MessageEncoder,
    message: Message,
    status: ParseStatus<u8, Error>,
    bytes: Vec<u8>,
)
    requires
        call_ensures(
            <MessageEncoder as Parser<Message, u8, Error>>::process_next_item,
            (encoder, message),
            status,
        ),
        call_ensures(MessageEncoder::encode, (&message,), bytes),
    ensures
        *final(encoder) == *old(encoder),
        status matches ParseStatus::Output(output) && output@ == bytes@,
{
}

/// A stream with an encoder yields, for a text, a one, the UTF-8 bytes of the text in their order,
/// and a zero; for no text, two zeros; and no error.
pub proof fn law_stream_yields_text_between_one_and_zero(
    message: Message,
    start: MessageEncoder,
    statuses: Seq<ParseStatus<u8, Error>>,
    end: MessageEncoder,
)
    requires
        stream_parser::run::<Message, u8, Error, MessageEncoder>(
            start,
            seq![message],
            statuses,
            end,
        ),
    ensures
        ({
            let results = stream_parser::emitted(statuses);
            &&& message is Noop ==> {
                &&& results.len() == 2
                &&& results[0] == Ok::<u8, Error>(0)
                &&& results[1] == Ok::<u8, Error>(0)
            }
            &&& message matches Message::Echo(text) ==> {
                let utf8 = vstd::utf8::encode_utf8(text@);
                &&& results.len() == utf8.len() + 2
                &&& results[0] == Ok::<u8, Error>(1)
                &&& forall|i: int|
                    0 <= i < utf8.len() ==> results[i + 1] == Ok::<u8, Error>(#[trigger] utf8[i])
                &&& results.last() == Ok::<u8, Error>(0)
            }
        }),
{
    law_encoder_writes_wire(seq![message], start, statuses, end);
    let results = stream_parser::emitted(statuses);
    assert(views(seq![message]) =~= seq![message@]);
    assert(seq![message@].drop_last() =~= seq![]);
    assert(wire(seq![message@].drop_last()).len() == 0);
    assert(wire(seq![message@]) =~= frame(message@));
    let whole = frame(message@);
    assert(results =~= arrived(whole));
    if let Message::Echo(text) = message {
        let utf8 = vstd::utf8::encode_utf8(text@);
        assert forall|i: int| 0 <= i < utf8.len() implies results[i + 1] == Ok::<u8, Error>(
            #[trigger] utf8[i],
        ) by {
            assert(whole[i + 1] == utf8[i]);
        }
    }
}

/// A new decoder that gets a one, the UTF-8 bytes of a text without a zero character in their
/// order, and a zero yields exactly that text, and nothing is left of it.
pub proof fn law_decoder_reads_text_between_one_and_zero(
    text: Seq<char>,
    bytes: Seq<u8>,
    start: MessageDecoder,
    statuses: Seq<ParseStatus<Message, Error>>,
    end: MessageDecoder,
)
    requires
        call_ensures(MessageDecoder::new, (), start),
        forall|i: int| 0 <= i < text.len() ==> #[trigger] text[i] != '\0',
        bytes.len() == vstd::utf8::encode_utf8(text).len() + 2,
        bytes[0] == 1,
        forall|i: int|
            0 <= i < vstd::utf8::encode_utf8(text).len() ==> bytes[i + 1]
                == #[trigger] vstd::utf8::encode_utf8(text)[i],
        bytes.last() == 0,
        stream_parser::run::<u8, Message, Error, MessageDecoder>(start, bytes, statuses, end),
    ensures
        end.context@.len() == 0,
        stream_parser::emitted(statuses).len() == 1,
        stream_parser::emitted(statuses)[0] matches Ok(Message::Echo(read)) && read@ == text,
{
    let utf8 = vstd::utf8::encode_utf8(text);
    lemma_no_zero_byte(text);
    vstd::utf8::encode_utf8_valid_utf8(text);
    vstd::utf8::encode_utf8_decode_utf8(text);
    assert forall|i: int| 0 < i < bytes.len() - 1 implies #[trigger] bytes[i] != 0 by {
        assert(bytes[(i - 1) + 1] == utf8[i - 1]);
    }
    law_decoder_reads_up_to_zero(bytes, start, statuses, end);
    assert(bytes.subrange(1, bytes.len() - 1) =~= utf8);
}

/// A decoder between two messages reads up to the first zero that does not come first. What stands
/// between the first byte and that zero is the text, when it is UTF-8, and the error says why it
/// is not, otherwise. Two zeros are no text. Nothing is left of what it read.
pub proof fn law_decoder_reads_up_to_zero(
    bytes: Seq<u8>,
    start: MessageDecoder,
    statuses: Seq<ParseStatus<Message, Error>>,
    end: MessageDecoder,
)
    requires
        start.context@.len() == 0,
        bytes.len() >= 2,
        bytes.last() == 0,
        forall|i: int| 0 < i < bytes.len() - 1 ==> #[trigger] bytes[i] != 0,
        stream_parser::run::<u8, Message, Error, MessageDecoder>(start, bytes, statuses, end),
    ensures
        end.context@.len() == 0,
        stream_parser::emitted(statuses).len() == 1,
        ({
            let result = stream_parser::emitted(statuses)[0];
            let text = bytes.subrange(1, bytes.len() - 1);
            if bytes.len() == 2 && bytes[0] == 0 {
                result == Ok::<Message, Error>(Message::Noop)
            } else if vstd::utf8::valid_utf8(text) {
                result matches Ok(Message::Echo(read)) && read@ == vstd::utf8::decode_utf8(text)
            } else {
                result matches Err(e) && e.0@ == utf8_error_text(text)
            }
        }),
{
    let before = choose|before: MessageDecoder|
        stream_parser::run::<u8, Message, Error, MessageDecoder>(
            start,
            bytes.drop_last(),
            statuses.drop_last(),
            before,
        ) && #[trigger] Parser::<u8, Message, Error>::step(
            &before,
            bytes.last(),
            &end,
            statuses.last(),
        );
    lemma_decoder_collects(start, bytes.drop_last(), statuses.drop_last(), before);
    assert(stream_parser::emitted(statuses) =~= stream_parser::emission(statuses.last()));
    assert(bytes.drop_last().skip(1) =~= bytes.subrange(1, bytes.len() - 1));
}

/// A decoder between two messages keeps the bytes of a message that is not complete, in order, and
/// yields nothing for them.
pub proof fn law_decoder_keeps_unfinished_message(
    bytes: Seq<u8>,
    start: MessageDecoder,
    statuses: Seq<ParseStatus<Message, Error>>,
    end: MessageDecoder,
)
    requires
        start.context@.len() == 0,
        forall|i: int| 0 < i < bytes.len() ==> #[trigger] bytes[i] != 0,
        stream_parser::run::<u8, Message, Error, MessageDecoder>(start, bytes, statuses, end),
    ensures
        end.context@ == bytes,
        stream_parser::emitted(statuses).len() == 0,
{
    lemma_decoder_collects(start, bytes, statuses, end);
}

/// A byte is kept, behind those that are kept already, unless it is a zero and not the first. Such
/// a zero completes the message: none is kept then. A single zero before it makes no text; else
/// what is kept behind the first byte is the text, or the error says why it is none.
pub proof fn law_zero_completes_the_message(
    decoder: &mut MessageDecoder,
    item: u8,
    status: ParseStatus<Message, Error>,
)
    requires
        call_ensures(
            <MessageDecoder as Parser<u8, Message, Error>>::process_next_item,
            (decoder, item),
            status,
        ),
    ensures
        item != 0 || old(decoder).context@.len() == 0 ==> status is NeedsMore
            && final(decoder).context@ == old(decoder).context@.push(item),
        item == 0 && old(decoder).context@.len() > 0 ==> {
            let text = old(decoder).context@.subrange(
                1,
                old(decoder).context@.len() as int,
            );
            &&& final(decoder).context@.len() == 0
            &&& !(status is NeedsMore)
            &&& status matches ParseStatus::Output(messages) ==> messages@.len() == 1
            &&& if old(decoder).context@.last() == 0 {
                status is Output && status->Output_0@[0] is Noop
            } else if vstd::utf8::valid_utf8(text) {
                status is Output && (status->Output_0@[0] matches Message::Echo(read) && read@
                    == vstd::utf8::decode_utf8(text))
            } else {
                status matches ParseStatus::Error(e) && e.0@ == utf8_error_text(text)
            }
        },
{
    if old(decoder).context@.len() > 0 {
        assert(old(decoder).context@.skip(1) =~= old(decoder).context@.subrange(
            1,
            old(decoder).context@.len() as int,
        ));
    }
}

/// A failure to read is passed on as it is, and the decoder goes on behind it as if it had not
/// been. A byte that was read is decoded as if there were no failures.
pub proof fn law_failure_to_read_is_passed_on(
    decoder: &mut MessageDecoder,
    item: Result<u8, Error>,
    status: ParseStatus<Message, Error>,
)
    requires
        call_ensures(
            <MessageDecoder as Parser<Result<u8, Error>, Message, Error>>::process_next_item,
            (decoder, item),
            status,
        ),
    ensures
        item matches Err(e) ==> status == ParseStatus::<Message, Error>::Error(e)
            && final(decoder).context@ == old(decoder).context@,
        item matches Ok(byte) ==> Parser::<u8, Message, Error>::step(
            &*old(decoder),
            byte,
            final(decoder),
            status,
        ),
{
}

/// A new decoder keeps nothing.
pub proof fn law_new_decoder_is_between_messages(decoder: MessageDecoder)
    requires
        call_ensures(MessageDecoder::new, (), decoder),
    ensures
        decoder.context@.len() == 0,
{
}

} // verus!
