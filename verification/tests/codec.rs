use bytes::Bytes;
use rudis::connection::Connection;
use rudis::cursor::Cursor;
use rudis::decimal::{plain_decimal, push_decimal, read_decimal};
use rudis::protocol::{get_decimal, get_line, get_u8, peek_u8, skip, Error, Protocol};
use rudis::text::same_text;

fn encode(frame: &Protocol) -> Vec<u8> {
    let mut connection = Connection::new();
    connection.write_protocol(frame);
    connection.flush()
}

fn decode(bytes: &[u8]) -> Result<Protocol, Error> {
    let mut cursor = Cursor::new(bytes);
    Protocol::parse(&mut cursor)
}

fn bulk(text: &str) -> Protocol {
    Protocol::Bulk(Bytes::copy_from_slice(text.as_bytes()))
}

#[test]
fn cursor_starts_at_zero_and_advances() {
    let data = b"abc";
    let mut cursor = Cursor::new(data);
    assert_eq!(cursor.position(), 0);
    assert_eq!(cursor.remaining(), 3);
    assert!(cursor.has_remaining());
    cursor.advance(2);
    assert_eq!(cursor.position(), 2);
    assert_eq!(cursor.chunk(), b"c");
    cursor.set_position(3);
    assert!(!cursor.has_remaining());
    assert_eq!(cursor.get_ref(), b"abc");
}

#[test]
fn peek_does_not_move_and_get_does() {
    let mut cursor = Cursor::new(b"xy");
    assert_eq!(peek_u8(&mut cursor).unwrap(), b'x');
    assert_eq!(cursor.position(), 0);
    assert_eq!(get_u8(&mut cursor).unwrap(), b'x');
    assert_eq!(get_u8(&mut cursor).unwrap(), b'y');
    assert!(matches!(get_u8(&mut cursor), Err(Error::Incomplete)));
    assert!(matches!(peek_u8(&mut cursor), Err(Error::Incomplete)));
    assert_eq!(cursor.position(), 2);
}

#[test]
fn skip_needs_all_the_bytes() {
    let mut cursor = Cursor::new(b"abcd");
    assert!(matches!(skip(&mut cursor, 5), Err(Error::Incomplete)));
    assert_eq!(cursor.position(), 0);
    assert!(skip(&mut cursor, 4).is_ok());
    assert_eq!(cursor.position(), 4);
    assert!(skip(&mut cursor, 0).is_ok());
}

#[test]
fn get_line_stops_at_the_first_line_end() {
    let mut cursor = Cursor::new(b"one\r\ntwo\r\n");
    assert_eq!(get_line(&mut cursor).unwrap(), b"one");
    assert_eq!(cursor.position(), 5);
    assert_eq!(get_line(&mut cursor).unwrap(), b"two");
    assert_eq!(cursor.position(), 10);
    assert!(matches!(get_line(&mut cursor), Err(Error::Incomplete)));
}

#[test]
fn get_line_on_nothing_is_incomplete() {
    let mut cursor = Cursor::new(b"");
    assert!(matches!(get_line(&mut cursor), Err(Error::Incomplete)));
    let mut lone = Cursor::new(b"\r");
    assert!(matches!(get_line(&mut lone), Err(Error::Incomplete)));
    assert_eq!(lone.position(), 0);
}

#[test]
fn get_line_keeps_a_lone_carriage_return() {
    let mut cursor = Cursor::new(b"a\rb\r\n");
    assert_eq!(get_line(&mut cursor).unwrap(), b"a\rb");
}

#[test]
fn get_decimal_reads_the_number_and_the_line() {
    let mut cursor = Cursor::new(b"1234\r\nrest");
    assert_eq!(get_decimal(&mut cursor).unwrap(), 1234);
    assert_eq!(cursor.position(), 6);
}

#[test]
fn get_decimal_rejects_what_is_no_number_and_stays() {
    let mut cursor = Cursor::new(b"abc\r\n");
    assert!(matches!(get_decimal(&mut cursor), Err(Error::Other(_))));
    assert_eq!(cursor.position(), 0);
    let mut empty = Cursor::new(b"\r\n");
    assert!(matches!(get_decimal(&mut empty), Err(Error::Other(_))));
}

fn line_value(text: &[u8]) -> Option<u64> {
    let mut line = text.to_vec();
    line.extend_from_slice(b"\r\n");
    let mut cursor = Cursor::new(&line);
    get_decimal(&mut cursor).ok()
}

#[test]
fn decimal_lines_have_their_value() {
    assert_eq!(line_value(b"0"), Some(0));
    assert_eq!(line_value(b"42"), Some(42));
    assert_eq!(line_value(b"0042"), Some(42));
    assert_eq!(line_value(b"18446744073709551615"), Some(u64::MAX));
    assert_eq!(line_value(b"18446744073709551616"), None);
    assert_eq!(line_value(b"000000000000000000000000000007"), Some(7));
    assert_eq!(line_value(b""), None);
    assert_eq!(line_value(b"x1"), None);
    assert_eq!(line_value(b"1x"), None);
    assert_eq!(line_value(b"+1"), None);
    assert_eq!(line_value(b"-0"), None);
    assert_eq!(line_value(b" 1"), None);
}

#[test]
fn read_decimal_takes_plain_digits_only() {
    assert!(plain_decimal(b"0"));
    assert!(plain_decimal(b"0123456789"));
    assert!(!plain_decimal(b""));
    assert!(!plain_decimal(b"12a"));
    assert!(!plain_decimal(b"+1"));
    assert!(!plain_decimal(b"/"));
    assert!(!plain_decimal(b":"));
    assert_eq!(read_decimal(b"77"), Some(77));
    assert_eq!(read_decimal(b"18446744073709551615"), Some(u64::MAX));
    assert_eq!(read_decimal(b"18446744073709551616"), None);
    assert_eq!(read_decimal(b"99999999999999999999999"), None);
    assert_eq!(read_decimal(b"7 "), None);
    assert_eq!(read_decimal(b"-7"), None);
}


#[test]
fn push_decimal_values() {
    let mut out = Vec::new();
    push_decimal(&mut out, 0);
    assert_eq!(out, b"0");
    let mut out = b"n=".to_vec();
    push_decimal(&mut out, 1050);
    assert_eq!(out, b"n=1050");
    let mut out = Vec::new();
    push_decimal(&mut out, u64::MAX);
    assert_eq!(out, b"18446744073709551615");
}

#[test]
fn decimal_digits_read_back() {
    for n in [0u64, 1, 9, 10, 99, 100, 65535, 4294967296, u64::MAX] {
        let mut out = Vec::new();
        push_decimal(&mut out, n);
        assert_eq!(read_decimal(&out), Some(n));
    }
}

#[test]
fn same_text_compares_characters() {
    assert!(same_text("ping", "ping"));
    assert!(!same_text("ping", "pong"));
    assert!(!same_text("ping", "pin"));
    assert!(same_text("", ""));
    assert!(same_text("h\u{e9}", "h\u{e9}"));
}

#[test]
fn check_accepts_each_kind_of_frame() {
    for (bytes, end) in [
        (&b"+OK\r\n"[..], 5usize),
        (&b"-ERR bad\r\n"[..], 10),
        (&b":1000\r\n"[..], 7),
        (&b"$5\r\nhello\r\n"[..], 11),
        (&b"$0\r\n\r\n"[..], 6),
        (&b"$-1\r\n"[..], 5),
        (&b"*0\r\n"[..], 4),
        (&b"*2\r\n:1\r\n+a\r\n"[..], 12),
        (&b"*1\r\n*1\r\n:7\r\n"[..], 12),
    ] {
        let mut cursor = Cursor::new(bytes);
        assert!(Protocol::check(&mut cursor).is_ok());
        assert_eq!(cursor.position(), end);
    }
}

#[test]
fn check_stops_at_the_end_of_the_first_frame() {
    let mut cursor = Cursor::new(b"+OK\r\n+NEXT\r\n");
    assert!(Protocol::check(&mut cursor).is_ok());
    assert_eq!(cursor.position(), 5);
    assert!(Protocol::check(&mut cursor).is_ok());
    assert_eq!(cursor.position(), 12);
}

#[test]
fn check_rejects_an_unknown_type_byte() {
    let mut cursor = Cursor::new(b"?what\r\n");
    assert!(matches!(Protocol::check(&mut cursor), Err(Error::Other(_))));
    assert_eq!(cursor.position(), 0);
    let mut inside = Cursor::new(b"*2\r\n:1\r\n!\r\n");
    assert!(matches!(Protocol::check(&mut inside), Err(Error::Other(_))));
    assert_eq!(inside.position(), 0);
}

#[test]
fn check_names_the_unknown_type_byte() {
    let mut cursor = Cursor::new(b"?");
    match Protocol::check(&mut cursor) {
        Err(Error::Other(message)) => {
            assert_eq!(message, "protocol error; invalid Protocol type byte `63`")
        }
        _ => panic!("expected a format error"),
    }
}

#[test]
fn check_rejects_a_malformed_length() {
    for bytes in [&b":abc\r\n"[..], &b"$x\r\n"[..], &b"*\r\n"[..], &b":\r\n"[..]] {
        let mut cursor = Cursor::new(bytes);
        match Protocol::check(&mut cursor) {
            Err(Error::Other(message)) => {
                assert_eq!(message, "protocol error; invalid Protocol format")
            }
            _ => panic!("expected a format error"),
        }
        assert_eq!(cursor.position(), 0);
    }
}

#[test]
fn check_rejects_a_number_too_large() {
    let mut cursor = Cursor::new(b":18446744073709551616\r\n");
    assert!(matches!(Protocol::check(&mut cursor), Err(Error::Other(_))));
    let mut bulk = Cursor::new(b"$18446744073709551615\r\nxx");
    assert!(matches!(Protocol::check(&mut bulk), Err(Error::Other(_))));
    assert_eq!(bulk.position(), 0);
    let mut wide = Cursor::new(b"$18446744073709551614\r\nxx");
    assert!(matches!(Protocol::check(&mut wide), Err(Error::Other(_))));
}

#[test]
fn check_is_incomplete_on_every_proper_prefix() {
    let whole: &[u8] = b"*3\r\n$4\r\nPING\r\n$-1\r\n:12\r\n";
    for cut in 0..whole.len() {
        let mut cursor = Cursor::new(&whole[..cut]);
        assert!(
            matches!(Protocol::check(&mut cursor), Err(Error::Incomplete)),
            "cut at {}",
            cut
        );
        assert_eq!(cursor.position(), 0);
    }
    let mut cursor = Cursor::new(whole);
    assert!(Protocol::check(&mut cursor).is_ok());
    assert_eq!(cursor.position(), whole.len());
}

#[test]
fn check_leaves_the_bytes_alone() {
    let bytes = b"$5\r\nhel".to_vec();
    let copy = bytes.clone();
    let mut cursor = Cursor::new(&bytes);
    assert!(matches!(Protocol::check(&mut cursor), Err(Error::Incomplete)));
    assert_eq!(cursor.get_ref(), &copy[..]);
    assert_eq!(cursor.position(), 0);
}

#[test]
fn check_bulk_skips_payload_and_terminator() {
    let mut cursor = Cursor::new(b"hello\r\nrest");
    assert!(Protocol::check_bulk(&mut cursor, 5).is_ok());
    assert_eq!(cursor.position(), 7);
    let mut short = Cursor::new(b"hello\r");
    assert!(matches!(Protocol::check_bulk(&mut short, 5), Err(Error::Incomplete)));
    assert_eq!(short.position(), 0);
    let mut huge = Cursor::new(b"hello\r\n");
    assert!(matches!(Protocol::check_bulk(&mut huge, u64::MAX), Err(Error::Other(_))));
}

#[test]
fn parse_bulk_copies_the_payload() {
    let mut cursor = Cursor::new(b"he\r\no\r\nrest");
    assert_eq!(
        Protocol::parse_bulk(&mut cursor, 5).unwrap(),
        Protocol::Bulk(Bytes::from_static(b"he\r\no"))
    );
    assert_eq!(cursor.position(), 7);
    let mut short = Cursor::new(b"he");
    assert!(matches!(Protocol::parse_bulk(&mut short, 5), Err(Error::Incomplete)));
    assert_eq!(short.position(), 0);
}

#[test]
fn parse_builds_each_kind_of_frame() {
    assert_eq!(decode(b"+OK\r\n").unwrap(), Protocol::Simple("OK".to_string()));
    assert_eq!(decode(b"-ERR bad\r\n").unwrap(), Protocol::Error("ERR bad".to_string()));
    assert_eq!(decode(b":1000\r\n").unwrap(), Protocol::Integer(1000));
    assert_eq!(decode(b"$5\r\nhello\r\n").unwrap(), bulk("hello"));
    assert_eq!(decode(b"$0\r\n\r\n").unwrap(), bulk(""));
    assert_eq!(decode(b"$-1\r\n").unwrap(), Protocol::Null);
    assert_eq!(decode(b"*0\r\n").unwrap(), Protocol::Array(vec![]));
    assert_eq!(
        decode(b"*3\r\n$4\r\nPING\r\n$-1\r\n:12\r\n").unwrap(),
        Protocol::Array(vec![bulk("PING"), Protocol::Null, Protocol::Integer(12)])
    );
}

#[test]
fn parse_builds_nested_arrays() {
    assert_eq!(
        decode(b"*2\r\n*2\r\n:1\r\n:2\r\n*1\r\n+x\r\n").unwrap(),
        Protocol::Array(vec![
            Protocol::Array(vec![Protocol::Integer(1), Protocol::Integer(2)]),
            Protocol::Array(vec![Protocol::Simple("x".to_string())]),
        ])
    );
}

#[test]
fn parse_moves_the_cursor_past_the_frame_only() {
    let mut cursor = Cursor::new(b":7\r\n:8\r\n");
    assert_eq!(Protocol::parse(&mut cursor).unwrap(), Protocol::Integer(7));
    assert_eq!(cursor.position(), 4);
    assert_eq!(Protocol::parse(&mut cursor).unwrap(), Protocol::Integer(8));
    assert_eq!(cursor.position(), 8);
    assert!(matches!(Protocol::parse(&mut cursor), Err(Error::Incomplete)));
}

#[test]
fn parse_keeps_binary_payloads() {
    let payload: &[u8] = &[0, 255, 13, 10, 36, 42];
    let mut bytes = b"$6\r\n".to_vec();
    bytes.extend_from_slice(payload);
    bytes.extend_from_slice(b"\r\n");
    assert_eq!(decode(&bytes).unwrap(), Protocol::Bulk(Bytes::copy_from_slice(payload)));
}

#[test]
fn a_bulk_string_has_to_end_in_an_end_of_line() {
    for bytes in [&b"$2\r\nabXY+OK\r\n"[..], &b"$2\r\nab\rX"[..], &b"$2\r\nabX\n"[..]] {
        let mut cursor = Cursor::new(bytes);
        assert!(matches!(Protocol::check(&mut cursor), Err(Error::Other(_))));
        assert_eq!(cursor.position(), 0);
        assert!(matches!(Protocol::parse(&mut cursor), Err(Error::Other(_))));
        assert_eq!(cursor.position(), 0);
    }
    let mut waiting = Cursor::new(b"$2\r\nabX");
    assert!(matches!(Protocol::check(&mut waiting), Err(Error::Incomplete)));
    let mut body = Cursor::new(b"abXY");
    assert!(matches!(Protocol::check_bulk(&mut body, 2), Err(Error::Other(_))));
    assert_eq!(body.position(), 0);
    assert!(matches!(Protocol::parse_bulk(&mut body, 2), Err(Error::Other(_))));
    assert_eq!(body.position(), 0);
}

#[test]
fn parse_validates_utf8_in_strings() {
    assert!(matches!(decode(b"+\xff\xfe\r\n"), Err(Error::Other(_))));
    assert!(matches!(decode(b"-\xc3\r\n"), Err(Error::Other(_))));
    assert_eq!(decode("+h\u{e9}llo\r\n".as_bytes()).unwrap(), Protocol::Simple("h\u{e9}llo".to_string()));
    let mut cursor = Cursor::new(b"+\xff\r\n");
    assert!(Protocol::check(&mut cursor).is_ok());
}

#[test]
fn only_the_length_minus_one_is_null() {
    for bytes in [&b"$-2\r\n"[..], &b"$-\r\n"[..], &b"$-10\r\n"[..], &b"$-1xy\r\n"[..]] {
        let mut cursor = Cursor::new(bytes);
        assert!(matches!(Protocol::check(&mut cursor), Err(Error::Other(_))));
        assert_eq!(cursor.position(), 0);
        assert!(matches!(Protocol::parse(&mut cursor), Err(Error::Other(_))));
        assert_eq!(cursor.position(), 0);
    }
    let mut unfinished = Cursor::new(b"$-1xy");
    assert!(matches!(Protocol::check(&mut unfinished), Err(Error::Incomplete)));
    assert!(matches!(Protocol::parse(&mut unfinished), Err(Error::Incomplete)));
}

#[test]
fn get_null_reads_the_length_of_null() {
    let mut cursor = Cursor::new(b"-1\r\nrest");
    assert!(rudis::protocol::get_null(&mut cursor).is_ok());
    assert_eq!(cursor.position(), 4);
    let mut other = Cursor::new(b"-2\r\n");
    assert!(matches!(rudis::protocol::get_null(&mut other), Err(Error::Other(_))));
    assert_eq!(other.position(), 0);
}

#[test]
fn a_number_is_plain_digits_and_nothing_else() {
    assert_eq!(decode(b":0042\r\n").unwrap(), Protocol::Integer(42));
    assert_eq!(decode(b":18446744073709551615\r\n").unwrap(), Protocol::Integer(u64::MAX));
    for bytes in [
        &b":12abc\r\n"[..],
        &b":12a\r\n"[..],
        &b":+5\r\n"[..],
        &b":-5\r\n"[..],
        &b":-0\r\n"[..],
        &b":-\r\n"[..],
        &b":+\r\n"[..],
        &b": 5\r\n"[..],
        &b":5 \r\n"[..],
        &b":\r\n"[..],
        &b"$5x\r\nhello\r\n"[..],
        &b"$+5\r\nhello\r\n"[..],
        &b"*1x\r\n:1\r\n"[..],
        &b"*+1\r\n:1\r\n"[..],
        &b"*-1\r\n"[..],
    ] {
        let mut cursor = Cursor::new(bytes);
        assert!(matches!(Protocol::check(&mut cursor), Err(Error::Other(_))));
        assert!(matches!(decode(bytes), Err(Error::Other(_))));
    }
}

#[test]
fn what_check_accepts_parse_never_calls_incomplete() {
    for bytes in [
        &b"$-1\r\n"[..],
        &b"+\xff\r\n"[..],
        &b"*2\r\n$1\r\na\r\n-\xc3\r\n"[..],
        &b"*1\r\n*1\r\n$0\r\n\r\n"[..],
    ] {
        let mut cursor = Cursor::new(bytes);
        assert!(Protocol::check(&mut cursor).is_ok());
        let end = cursor.position();
        cursor.set_position(0);
        match Protocol::parse(&mut cursor) {
            Ok(_) => assert_eq!(cursor.position(), end),
            Err(e) => assert!(matches!(e, Error::Other(_))),
        }
    }
}

#[test]
fn parse_is_incomplete_where_check_is() {
    assert!(matches!(decode(b""), Err(Error::Incomplete)));
    assert!(matches!(decode(b"$5\r\nhel"), Err(Error::Incomplete)));
    assert!(matches!(decode(b"*2\r\n:1\r\n"), Err(Error::Incomplete)));
    assert!(matches!(decode(b"?"), Err(Error::Other(_))));
}

#[test]
fn encode_gives_the_exact_bytes() {
    assert_eq!(encode(&Protocol::Simple("PONG".to_string())), b"+PONG\r\n");
    assert_eq!(encode(&Protocol::Error("oops".to_string())), b"-oops\r\n");
    assert_eq!(encode(&Protocol::Integer(0)), b":0\r\n");
    assert_eq!(encode(&Protocol::Integer(1234567890)), b":1234567890\r\n");
    assert_eq!(encode(&bulk("hello")), b"$5\r\nhello\r\n");
    assert_eq!(encode(&bulk("")), b"$0\r\n\r\n");
    assert_eq!(encode(&Protocol::Null), b"$-1\r\n");
    assert_eq!(encode(&Protocol::Array(vec![])), b"*0\r\n");
    assert_eq!(
        encode(&Protocol::Array(vec![bulk("PING"), Protocol::Null, Protocol::Integer(12)])),
        b"*3\r\n$4\r\nPING\r\n$-1\r\n:12\r\n"
    );
}

#[test]
fn encode_counts_more_than_nine_entries() {
    let items: Vec<Protocol> = (0..12).map(Protocol::Integer).collect();
    let bytes = encode(&Protocol::Array(items.clone()));
    assert!(bytes.starts_with(b"*12\r\n:0\r\n:1\r\n"));
    assert_eq!(decode(&bytes).unwrap(), Protocol::Array(items));
}

#[test]
fn round_trip_of_each_kind_of_frame() {
    let frames = vec![
        Protocol::Simple("OK".to_string()),
        Protocol::Simple(String::new()),
        Protocol::Simple("with \r alone and \n alone".to_string()),
        Protocol::Error("ERR unknown".to_string()),
        Protocol::Integer(0),
        Protocol::Integer(u64::MAX),
        bulk("hello"),
        Protocol::Bulk(Bytes::copy_from_slice(&[13, 10, 0, 255])),
        Protocol::Null,
        Protocol::Array(vec![]),
        Protocol::Array(vec![bulk("SET"), bulk("key"), Protocol::Integer(5), Protocol::Null]),
    ];
    for frame in frames {
        let bytes = encode(&frame);
        let mut cursor = Cursor::new(&bytes);
        assert!(Protocol::check(&mut cursor).is_ok());
        assert_eq!(cursor.position(), bytes.len());
        cursor.set_position(0);
        assert_eq!(Protocol::parse(&mut cursor).unwrap(), frame);
        assert_eq!(cursor.position(), bytes.len());
    }
}

#[test]
fn a_line_end_inside_a_string_does_not_round_trip() {
    let frame = Protocol::Simple("a\r\nb".to_string());
    let bytes = encode(&frame);
    assert_eq!(bytes, b"+a\r\nb\r\n");
    assert_eq!(decode(&bytes).unwrap(), Protocol::Simple("a".to_string()));
}

#[test]
fn array_builders_append_in_order() {
    let mut frame = Protocol::array();
    assert_eq!(frame, Protocol::Array(vec![]));
    frame.push_bulk(Bytes::from_static(b"get"));
    frame.push_int(7);
    assert_eq!(frame, Protocol::Array(vec![bulk("get"), Protocol::Integer(7)]));
}

#[test]
fn clone_gives_an_equal_frame() {
    let frame = Protocol::Array(vec![
        bulk("a"),
        Protocol::Array(vec![Protocol::Null, Protocol::Simple("s".to_string())]),
        Protocol::Error("e".to_string()),
        Protocol::Integer(3),
    ]);
    assert_eq!(frame.clone(), frame);
}

#[test]
fn check_items_takes_frames_in_a_row() {
    let mut cursor = Cursor::new(b":1\r\n+two\r\n$1\r\n3\r\nrest");
    assert!(Protocol::check_items(&mut cursor, 3).is_ok());
    assert_eq!(cursor.position(), 17);
    let mut none = Cursor::new(b"");
    assert!(Protocol::check_items(&mut none, 0).is_ok());
    let mut short = Cursor::new(b":1\r\n+two");
    assert!(matches!(Protocol::check_items(&mut short, 2), Err(Error::Incomplete)));
    assert_eq!(short.position(), 0);
    let mut bad = Cursor::new(b":1\r\n?\r\n");
    assert!(matches!(Protocol::check_items(&mut bad, 2), Err(Error::Other(_))));
    assert_eq!(bad.position(), 0);
}

#[test]
fn parse_items_builds_frames_in_a_row() {
    let mut cursor = Cursor::new(b":1\r\n+two\r\n$1\r\n3\r\nrest");
    assert_eq!(
        Protocol::parse_items(&mut cursor, 3).unwrap(),
        vec![Protocol::Integer(1), Protocol::Simple("two".to_string()), bulk("3")]
    );
    assert_eq!(cursor.position(), 17);
    let mut short = Cursor::new(b":1\r\n+two");
    assert!(matches!(Protocol::parse_items(&mut short, 2), Err(Error::Incomplete)));
    assert_eq!(short.position(), 0);
}

#[test]
fn an_array_count_without_its_frames_is_incomplete() {
    let mut cursor = Cursor::new(b"*1000000\r\n:1\r\n");
    assert!(matches!(Protocol::check(&mut cursor), Err(Error::Incomplete)));
    assert!(matches!(decode(b"*1000000\r\n:1\r\n"), Err(Error::Incomplete)));
}

#[test]
fn only_an_array_in_an_array_is_not_flat() {
    assert!(Protocol::Null.is_flat());
    assert!(bulk("x").is_flat());
    assert!(Protocol::Array(vec![]).is_flat());
    assert!(Protocol::Array(vec![bulk("x"), Protocol::Integer(1)]).is_flat());
    assert!(!Protocol::Array(vec![bulk("x"), Protocol::Array(vec![])]).is_flat());
}
