use rscs::message::{Message, MessageDecoder, MessageEncoder};
use rscs::stream_parser::{ParseStatus, ParseWithStream, Parser, StreamAction, StreamEvent};
use rscs::test_fixtures::Error;

/// All that a stream yields when its inner stream gives `items` and ends.
fn yielded<I, O, P: Parser<I, O, Error>>(parser: P, items: Vec<I>) -> Vec<Result<O, Error>> {
    let mut stream = ParseWithStream::new(parser);
    let mut items = items.into_iter();
    let mut results = Vec::new();
    let mut action = stream.poll_next(StreamEvent::Poll);
    loop {
        action = match action {
            StreamAction::PollInner => stream.poll_next(match items.next() {
                Some(item) => StreamEvent::Item(item),
                None => StreamEvent::End,
            }),
            StreamAction::Yield(result) => {
                results.push(result);
                stream.poll_next(StreamEvent::Poll)
            }
            StreamAction::End => return results,
            StreamAction::Pending => panic!("nothing is pending"),
        };
    }
}

fn written(messages: &[Message]) -> Vec<u8> {
    yielded(MessageEncoder::new(), messages.to_vec())
        .into_iter()
        .map(|byte| byte.unwrap())
        .collect()
}

fn read(bytes: &[u8]) -> Vec<Message> {
    yielded::<u8, Message, MessageDecoder>(MessageDecoder::new(), bytes.to_vec())
        .into_iter()
        .map(|message| message.unwrap())
        .collect()
}

#[test]
fn messages_are_read_back() {
    let messages = vec![
        Message::Noop,
        Message::Echo("test".into()),
        Message::Echo("other".into()),
        Message::Noop,
        Message::Noop,
        Message::Echo("blah blah blah".into()),
    ];
    assert_eq!(read(&written(&messages)), messages);
}

#[test]
fn any_text_without_a_zero_is_read_back() {
    let messages = vec![
        Message::Echo("".into()),
        Message::Echo("\u{1}\u{7f}\u{80}\u{7ff}\u{800}\u{ffff}\u{10000}\u{10ffff}".into()),
        Message::Noop,
    ];
    assert_eq!(read(&written(&messages)), messages);
}

#[test]
fn text_with_a_zero_is_not_read_back() {
    let messages = vec![Message::Echo("a\u{0}b".into())];
    assert_eq!(written(&messages), vec![1, 97, 0, 98, 0]);
    assert_eq!(
        read(&written(&messages)),
        vec![Message::Echo("a".into()), Message::Echo("".into())]
    );
}

#[test]
fn encoded_bytes() {
    assert_eq!(MessageEncoder::encode(&Message::Noop), vec![0, 0]);
    assert_eq!(MessageEncoder::encode(&Message::Echo("ab".into())), vec![0, 98, 97, 1]);
    assert_eq!(
        written(&[Message::Noop, Message::Echo("ab".into())]),
        vec![0, 0, 1, 97, 98, 0]
    );
}

#[test]
fn bytes_that_are_no_text() {
    let results =
        yielded::<u8, Message, MessageDecoder>(MessageDecoder::new(), vec![1, 0xff, 0, 0, 0]);
    assert_eq!(results.len(), 2);
    let text = String::from_utf8(vec![0xff]).unwrap_err().to_string();
    match &results[0] {
        Err(e) => assert_eq!(e.to_string(), text),
        Ok(_) => panic!("no error"),
    }
    assert_eq!(results[1].as_ref().unwrap(), &Message::Noop);
}

#[test]
fn failures_to_read_are_passed_on() {
    let mut decoder = MessageDecoder::new();
    let answer = |decoder: &mut MessageDecoder, item: Result<u8, Error>| {
        Parser::<Result<u8, Error>, Message, Error>::process_next_item(decoder, item)
    };
    assert!(matches!(answer(&mut decoder, Ok(0)), ParseStatus::NeedsMore));
    match answer(&mut decoder, Err(Error("gone".into()))) {
        ParseStatus::Error(e) => assert_eq!(e.to_string(), "gone"),
        _ => panic!("no error"),
    }
    assert_eq!(decoder.context, vec![0]);
    match answer(&mut decoder, Ok(0)) {
        ParseStatus::Output(messages) => assert_eq!(messages, vec![Message::Noop]),
        _ => panic!("no message"),
    }
}

#[test]
fn unfinished_messages_are_kept() {
    let mut decoder = MessageDecoder::new();
    for byte in [1u8, 97, 98] {
        let status = Parser::<u8, Message, Error>::process_next_item(&mut decoder, byte);
        assert!(matches!(status, ParseStatus::NeedsMore));
    }
    assert_eq!(decoder.context, vec![1, 97, 98]);
}
