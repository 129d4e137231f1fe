use rscs::cstring::{CString, CStringParser};
use rscs::stream_parser::{ParseStatus, ParseWithStream, StreamAction, StreamEvent};

#[test]
fn bytes_are_cut_behind_zeros() {
    let mut stream = ParseWithStream::new(CStringParser::new());
    let mut strings = Vec::new();
    for byte in [1u8, 2, 3, 4, 0, 4, 3, 2, 1, 0, 0, 9] {
        assert!(matches!(stream.poll_next(StreamEvent::Poll), StreamAction::PollInner));
        match stream.poll_next(StreamEvent::Item(byte)) {
            StreamAction::Yield(Ok(string)) => strings.push(string),
            StreamAction::PollInner => assert_ne!(byte, 0),
            _ => panic!("neither a string nor a wish for more"),
        }
    }
    assert_eq!(
        strings,
        vec![
            CString(vec![1, 2, 3, 4, 0]),
            CString(vec![4, 3, 2, 1, 0]),
            CString(vec![0]),
        ]
    );
    assert_eq!(stream.parser.context, vec![9]);
    assert!(matches!(stream.handle_status(ParseStatus::NeedsMore), StreamAction::PollInner));
}
