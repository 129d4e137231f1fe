use rscs::stream_parser::{ParseStatus, ParseWithStream, Parser, StreamAction, StreamEvent};

/// Yields the digits of even numbers, fails on numbers above 99 and waits on odd ones.
struct Digits {
    seen: Vec<u8>,
}

impl Parser<u8, u8, String> for Digits {
    fn process_next_item(&mut self, item: u8) -> ParseStatus<u8, String> {
        self.seen.push(item);
        if item > 99 {
            ParseStatus::Error(format!("{item} is too large"))
        } else if item % 2 == 1 {
            ParseStatus::NeedsMore
        } else {
            ParseStatus::Output(vec![item / 10, item % 10])
        }
    }
}

fn new_stream() -> ParseWithStream<u8, u8, String, Digits> {
    ParseWithStream::new(Digits { seen: Vec::new() })
}

/// Polls until the stream has something to say, with `polls` as what the inner stream gives.
fn poll(
    stream: &mut ParseWithStream<u8, u8, String, Digits>,
    polls: &mut Vec<StreamEvent<u8>>,
) -> StreamAction<u8, String> {
    let mut action = stream.poll_next(StreamEvent::Poll);
    while let StreamAction::PollInner = action {
        action = stream.poll_next(polls.remove(0));
    }
    action
}

#[test]
fn values_come_from_the_last_to_the_first() {
    let mut stream = new_stream();
    let mut polls = vec![
        StreamEvent::Item(42),
        StreamEvent::Item(7),
        StreamEvent::Item(68),
        StreamEvent::End,
    ];
    let mut got = Vec::new();
    loop {
        match poll(&mut stream, &mut polls) {
            StreamAction::Yield(Ok(digit)) => got.push(digit),
            StreamAction::End => break,
            _ => panic!("neither a value nor the end"),
        }
    }
    assert_eq!(got, vec![2, 4, 8, 6]);
    assert_eq!(stream.parser.seen, vec![42, 7, 68]);
}

#[test]
fn pending_loses_nothing() {
    let mut stream = new_stream();
    let mut polls = vec![
        StreamEvent::NotReady,
        StreamEvent::Item(10),
        StreamEvent::NotReady,
        StreamEvent::Item(32),
    ];
    assert!(matches!(poll(&mut stream, &mut polls), StreamAction::Pending));
    assert!(matches!(poll(&mut stream, &mut polls), StreamAction::Yield(Ok(0))));
    assert!(matches!(poll(&mut stream, &mut polls), StreamAction::Yield(Ok(1))));
    assert!(matches!(poll(&mut stream, &mut polls), StreamAction::Pending));
    assert!(matches!(poll(&mut stream, &mut polls), StreamAction::Yield(Ok(2))));
    assert!(matches!(poll(&mut stream, &mut polls), StreamAction::Yield(Ok(3))));
    assert!(stream.items.is_empty());
}

#[test]
fn the_stream_goes_on_behind_an_error() {
    let mut stream = new_stream();
    let mut polls = vec![StreamEvent::Item(100), StreamEvent::Item(20), StreamEvent::End];
    match poll(&mut stream, &mut polls) {
        StreamAction::Yield(Err(e)) => assert_eq!(e, "100 is too large"),
        _ => panic!("no error"),
    }
    assert!(matches!(poll(&mut stream, &mut polls), StreamAction::Yield(Ok(0))));
    assert!(matches!(poll(&mut stream, &mut polls), StreamAction::Yield(Ok(2))));
    assert!(matches!(poll(&mut stream, &mut polls), StreamAction::End));
}

#[test]
fn empty_output_asks_for_more() {
    let mut stream = new_stream();
    assert!(matches!(
        stream.handle_status(ParseStatus::Output(Vec::new())),
        StreamAction::PollInner
    ));
    assert!(matches!(
        stream.handle_status(ParseStatus::Output(vec![1, 2, 3])),
        StreamAction::Yield(Ok(3))
    ));
    assert_eq!(stream.items, vec![1, 2]);
    assert!(matches!(stream.handle_status(ParseStatus::NeedsMore), StreamAction::Yield(Ok(2))));
    assert_eq!(stream.items, vec![1]);
}
