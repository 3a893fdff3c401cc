use bytes::Bytes;
use rudis::parse::ParseError;
use rudis::protocol::{Error, Protocol};

fn bulk(bytes: &'static [u8]) -> Protocol {
    Protocol::Bulk(Bytes::from_static(bytes))
}

#[test]
fn frames_read_as_text() {
    assert_eq!(Protocol::Simple("OK".to_string()).to_string(), "OK");
    assert_eq!(Protocol::Error("bad".to_string()).to_string(), "error: bad");
    assert_eq!(Protocol::Integer(0).to_string(), "0");
    assert_eq!(Protocol::Integer(u64::MAX).to_string(), "18446744073709551615");
    assert_eq!(bulk(b"hello").to_string(), "hello");
    assert_eq!(Protocol::Null.to_string(), "(nil)");
}

#[test]
fn a_bulk_string_that_is_no_text_reads_as_a_byte_literal() {
    assert_eq!(bulk(&[0xff, b'a', b'\n', 0]).to_string(), "b\"\\xffa\\n\\0\"");
}

#[test]
fn an_array_reads_as_its_entries_with_spaces_between() {
    assert_eq!(Protocol::Array(vec![]).to_string(), "");
    assert_eq!(Protocol::Array(vec![bulk(b"one")]).to_string(), "one");
    let frame = Protocol::Array(vec![
        bulk(b"set"),
        Protocol::Simple("k".to_string()),
        Protocol::Integer(12),
        Protocol::Null,
        Protocol::Array(vec![Protocol::Integer(1), Protocol::Integer(2)]),
    ]);
    assert_eq!(frame.to_string(), "set k 12 (nil) 1 2");
}

#[test]
fn an_unexpected_frame_names_itself() {
    match Protocol::Integer(5).to_error() {
        Error::Other(message) => assert_eq!(message, "unexpected Protocol: 5"),
        _ => panic!("expected a format error"),
    }
}

#[test]
fn errors_read_as_text() {
    assert_eq!(Error::Incomplete.to_string(), "stream ended early");
    assert_eq!(Error::Other("why".to_string()).to_string(), "why");
    assert_eq!(
        ParseError::EndOfStream.to_string(),
        "protocol error; unexpected end of stream"
    );
    assert_eq!(ParseError::Other("what".to_string()).to_string(), "what");
}

#[test]
fn a_frame_equals_the_text_it_holds() {
    assert!(Protocol::Simple("PONG".to_string()) == "PONG");
    assert!(bulk(b"PONG") == "PONG");
    assert!(!(Protocol::Simple("PONG".to_string()) == "PING"));
    assert!(!(bulk(b"PON") == "PONG"));
    assert!(!(Protocol::Error("PONG".to_string()) == "PONG"));
    assert!(!(Protocol::Integer(1) == "1"));
    assert!(!(Protocol::Null == ""));
    assert!(Protocol::Simple(String::new()) == "");
    assert!(Protocol::Simple("x".to_string()) != "y");
}

#[test]
fn errors_are_made_from_their_text() {
    assert!(matches!(Error::from("why".to_string()), Error::Other(message) if message == "why"));
    assert!(matches!(
        ParseError::from("what".to_string()),
        ParseError::Other(message) if message == "what"
    ));
}
