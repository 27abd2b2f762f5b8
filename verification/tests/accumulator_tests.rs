use http_head::accumulator::{Accumulator, ParserState, HEAD_CAPACITY};
use http_head::request::ParserError;

#[test]
fn streaming_in_two_chunks() {
    let raw = "GET /test/1234 HTTP/1.1\nHeader1: it\nHeader2: works\n\n";
    let bytes = raw.as_bytes();
    let mut acc = Accumulator::new();

    let first = acc.feed(&bytes[..15]).unwrap();
    assert_eq!(first, ParserState::FillingBuffer);

    let second = acc.feed(&bytes[15..]).unwrap();
    match second {
        ParserState::Done(request) => {
            assert_eq!(request.url, "/test/1234");
            assert_eq!(request.headers.get("header1"), Some(&"it".to_string()));
            assert_eq!(request.headers.get("header2"), Some(&"works".to_string()));
        }
        ParserState::FillingBuffer => panic!("head was complete after the second chunk"),
    }
}

#[test]
fn terminator_split_across_chunks_is_found() {
    let mut acc = Accumulator::new();
    assert_eq!(
        acc.feed(b"GET / HTTP/1.1\nA: b\n").unwrap(),
        ParserState::FillingBuffer
    );
    let state = acc.feed(b"\n").unwrap();
    match state {
        ParserState::Done(request) => {
            assert_eq!(request.url, "/");
            assert_eq!(request.headers.get("a"), Some(&"b".to_string()));
        }
        ParserState::FillingBuffer => panic!("terminator split across chunks was missed"),
    }
}

#[test]
fn invalid_utf8_is_reported() {
    let mut acc = Accumulator::new();
    let result = acc.feed(&[0x47, 0x45, 0x54, 0xff]);
    assert_eq!(result, Err(ParserError::Utf8Error));
}

#[test]
fn oversized_head_is_a_buffer_overflow() {
    let mut acc = Accumulator::new();
    let chunk = vec![b'a'; HEAD_CAPACITY + 1];
    assert_eq!(acc.feed(&chunk), Err(ParserError::BufferOverflow));

    // filling to the brim is fine; one byte more is not
    let mut acc = Accumulator::new();
    let chunk = vec![b'a'; HEAD_CAPACITY];
    assert_eq!(acc.feed(&chunk), Ok(ParserState::FillingBuffer));
    assert_eq!(acc.feed(b"b"), Err(ParserError::BufferOverflow));
}

#[test]
fn reset_starts_a_new_cycle() {
    let mut acc = Accumulator::new();
    assert_eq!(acc.feed(b"garbage with no").unwrap(), ParserState::FillingBuffer);
    assert_eq!(acc.buffered(), 15);
    acc.reset();
    assert_eq!(acc.buffered(), 0);
    let state = acc.feed(b"GET /fresh HTTP/1.1\n\n\n").unwrap();
    match state {
        ParserState::Done(request) => assert_eq!(request.url, "/fresh"),
        ParserState::FillingBuffer => panic!("complete head should parse after a reset"),
    }
}

#[test]
fn parse_error_in_complete_head_is_returned() {
    let mut acc = Accumulator::new();
    let result = acc.feed(b"GET /only-two-tokens\nA: b\n\n");
    assert_eq!(
        result,
        Err(ParserError::InvalidInitialLine(
            "GET /only-two-tokens".to_string()
        ))
    );
}
