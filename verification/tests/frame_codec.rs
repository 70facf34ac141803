use bytes::Bytes;
use nano_redis::connect::connection::write_frame;
use nano_redis::entity::frame::{
    get_decimal, get_line, get_u8, has_crlf, peek_u8, skip, Cursor, Error, Frame,
};

fn parse_all(bytes: &[u8]) -> Result<Frame, Error> {
    let mut cursor = Cursor::new(bytes);
    Frame::parse(&mut cursor)
}

fn encoded(frame: &Frame) -> Vec<u8> {
    let mut out = Vec::new();
    write_frame(&mut out, frame);
    out
}

fn error_text(r: Result<Frame, Error>) -> String {
    match r {
        Err(Error::Other(msg)) => msg,
        other => panic!("expected a protocol error, got {:?}", other),
    }
}

fn samples() -> Vec<Frame> {
    vec![
        Frame::Simple("OK".to_string()),
        Frame::Simple(String::new()),
        Frame::Simple("caf\u{e9} \u{1f980}".to_string()),
        Frame::Simple("ends with a carriage return\r".to_string()),
        Frame::Error("ERR unknown command 'foo'".to_string()),
        Frame::USize(0),
        Frame::USize(7),
        Frame::USize(u64::MAX),
        Frame::Integer(0),
        Frame::Integer(-1),
        Frame::Integer(i64::MIN),
        Frame::Integer(i64::MAX),
        Frame::Bulk(Bytes::from_static(b"")),
        Frame::Bulk(Bytes::from_static(b"hello")),
        Frame::Bulk(Bytes::from_static(b"with\r\nline break and \xff\x00 bytes")),
        Frame::Null,
        Frame::Array(vec![]),
        Frame::Array(vec![
            Frame::Bulk(Bytes::from_static(b"set")),
            Frame::Bulk(Bytes::from_static(b"key")),
            Frame::Simple("value".to_string()),
            Frame::USize(50),
            Frame::Integer(-3),
            Frame::Null,
        ]),
    ]
}

#[test]
fn parse_simple_string() {
    assert_eq!(parse_all(b"+OK\r\n").unwrap(), Frame::Simple("OK".to_string()));
}

#[test]
fn parse_error_string() {
    assert_eq!(parse_all(b"-ERR nope\r\n").unwrap(), Frame::Error("ERR nope".to_string()));
}

#[test]
fn parse_unsigned_integer() {
    assert_eq!(parse_all(b":1234\r\n").unwrap(), Frame::USize(1234));
    assert_eq!(parse_all(b":18446744073709551615\r\n").unwrap(), Frame::USize(u64::MAX));
}

#[test]
fn parse_signed_integer() {
    assert_eq!(parse_all(b"=-5\r\n").unwrap(), Frame::Integer(-5));
    assert_eq!(parse_all(b"=42\r\n").unwrap(), Frame::Integer(42));
    assert_eq!(parse_all(b"=-9223372036854775808\r\n").unwrap(), Frame::Integer(i64::MIN));
    assert_eq!(parse_all(b"=9223372036854775807\r\n").unwrap(), Frame::Integer(i64::MAX));
}

#[test]
fn parse_null() {
    assert_eq!(parse_all(b"$-1\r\n").unwrap(), Frame::Null);
}

#[test]
fn parse_bulk() {
    assert_eq!(parse_all(b"$5\r\nhello\r\n").unwrap(), Frame::Bulk(Bytes::from_static(b"hello")));
    assert_eq!(parse_all(b"$0\r\n\r\n").unwrap(), Frame::Bulk(Bytes::new()));
}

#[test]
fn parse_bulk_keeps_line_breaks_in_the_data() {
    assert_eq!(
        parse_all(b"$4\r\na\r\nb\r\n").unwrap(),
        Frame::Bulk(Bytes::from_static(b"a\r\nb"))
    );
}

#[test]
fn parse_array_of_fields() {
    let frame = parse_all(b"*2\r\n$3\r\nget\r\n$3\r\nfoo\r\n").unwrap();
    assert_eq!(
        frame,
        Frame::Array(vec![
            Frame::Bulk(Bytes::from_static(b"get")),
            Frame::Bulk(Bytes::from_static(b"foo")),
        ])
    );
}

#[test]
fn parse_nested_array() {
    let frame = parse_all(b"*2\r\n*1\r\n:1\r\n+x\r\n").unwrap();
    assert_eq!(
        frame,
        Frame::Array(vec![
            Frame::Array(vec![Frame::USize(1)]),
            Frame::Simple("x".to_string()),
        ])
    );
}

#[test]
fn parse_leaves_the_rest_unread() {
    let bytes = b"+one\r\n+two\r\n";
    let mut cursor = Cursor::new(&bytes[..]);
    assert_eq!(Frame::parse(&mut cursor).unwrap(), Frame::Simple("one".to_string()));
    assert_eq!(cursor.position(), 6);
    assert_eq!(cursor.remaining(), 6);
    assert_eq!(Frame::parse(&mut cursor).unwrap(), Frame::Simple("two".to_string()));
    assert_eq!(cursor.position(), 12);
    assert!(matches!(Frame::parse(&mut cursor), Err(Error::Incomplete)));
}

#[test]
fn check_moves_behind_the_message() {
    let bytes = b"*2\r\n$3\r\nget\r\n$3\r\nfoo\r\ntrailing";
    let mut cursor = Cursor::new(&bytes[..]);
    assert!(Frame::check(&mut cursor).is_ok());
    assert_eq!(cursor.position(), 22);
}

#[test]
fn check_does_not_move_on_incomplete_input() {
    let bytes = b"*2\r\n$3\r\nget\r\n$3\r\nfo";
    let mut cursor = Cursor::new(&bytes[..]);
    assert!(matches!(Frame::check(&mut cursor), Err(Error::Incomplete)));
    assert_eq!(cursor.position(), 0);
    assert!(matches!(Frame::parse(&mut cursor), Err(Error::Incomplete)));
    assert_eq!(cursor.position(), 0);
}

#[test]
fn check_does_not_move_on_a_protocol_error() {
    let bytes = b"+ok\r\n?what\r\n";
    let mut cursor = Cursor::new(&bytes[..]);
    assert!(Frame::check(&mut cursor).is_ok());
    assert_eq!(cursor.position(), 5);
    assert!(matches!(Frame::check(&mut cursor), Err(Error::Other(_))));
    assert_eq!(cursor.position(), 5);
}

#[test]
fn empty_input_is_incomplete() {
    assert!(matches!(parse_all(b""), Err(Error::Incomplete)));
}

#[test]
fn unknown_type_byte_is_a_protocol_error() {
    assert_eq!(
        error_text(parse_all(b"?what\r\n")),
        "protocol error; invalid frame type byte `63`"
    );
    assert_eq!(
        error_text(parse_all(b"#err\r\n")),
        "protocol error; invalid frame type byte `35`"
    );
    assert_eq!(
        error_text(parse_all(&[0u8, 13, 10])),
        "protocol error; invalid frame type byte `0`"
    );
    assert_eq!(
        error_text(parse_all(&[255u8, 13, 10])),
        "protocol error; invalid frame type byte `255`"
    );
}

#[test]
fn bad_decimal_is_a_protocol_error_not_incomplete() {
    assert_eq!(error_text(parse_all(b":abc\r\n")), "protocol error; invalid frame format");
    assert_eq!(error_text(parse_all(b":\r\n")), "protocol error; invalid frame format");
    assert_eq!(error_text(parse_all(b"$x\r\n")), "protocol error; invalid frame format");
    assert_eq!(error_text(parse_all(b"*x\r\n")), "protocol error; invalid frame format");
    assert_eq!(error_text(parse_all(b"=x\r\n")), "protocol error; invalid frame format");
}

#[test]
fn negative_decimal_is_a_protocol_error() {
    assert_eq!(error_text(parse_all(b":-1\r\n")), "protocol error; invalid frame format");
    assert_eq!(error_text(parse_all(b"*-1\r\n")), "protocol error; invalid frame format");
}

#[test]
fn decimal_out_of_range_is_a_protocol_error() {
    assert_eq!(
        error_text(parse_all(b":18446744073709551616\r\n")),
        "protocol error; invalid frame format"
    );
    assert_eq!(
        error_text(parse_all(b"=9223372036854775808\r\n")),
        "protocol error; invalid frame format"
    );
    assert_eq!(
        error_text(parse_all(b"=-9223372036854775809\r\n")),
        "protocol error; invalid frame format"
    );
}

#[test]
fn decimal_reading_is_lenient_about_what_follows_the_digits() {
    assert_eq!(parse_all(b":12abc\r\n").unwrap(), Frame::USize(12));
    assert_eq!(parse_all(b":0042\r\n").unwrap(), Frame::USize(42));
    assert_eq!(parse_all(b":+5\r\n").unwrap(), Frame::USize(5));
    assert_eq!(parse_all(b":-0\r\n").unwrap(), Frame::USize(0));
    assert_eq!(parse_all(b":+\r\n").unwrap(), Frame::USize(0));
    assert_eq!(parse_all(b":-\r\n").unwrap(), Frame::USize(0));
    assert_eq!(parse_all(b"=-7 apples\r\n").unwrap(), Frame::Integer(-7));
    assert_eq!(parse_all(b"=+7\r\n").unwrap(), Frame::Integer(7));
    assert_eq!(parse_all(b"=-\r\n").unwrap(), Frame::Integer(0));
}

#[test]
fn null_marker_must_be_minus_one() {
    assert_eq!(error_text(parse_all(b"$-2\r\n")), "protocol error; invalid frame format");
    assert_eq!(error_text(parse_all(b"$-1x\r\n")), "protocol error; invalid frame format");
    let mut cursor = Cursor::new(&b"$-2\r\n"[..]);
    assert!(matches!(Frame::check(&mut cursor), Err(Error::Other(_))));
}

#[test]
fn text_that_is_not_utf8_is_a_protocol_error() {
    assert_eq!(error_text(parse_all(b"+\xff\xfe\r\n")), "protocol error; invalid frame format");
    assert_eq!(error_text(parse_all(b"-\xc3\r\n")), "protocol error; invalid frame format");
    let mut cursor = Cursor::new(&b"+\xff\r\n"[..]);
    assert!(matches!(Frame::check(&mut cursor), Err(Error::Other(_))));
}

#[test]
fn array_with_a_bad_item_is_a_protocol_error() {
    assert_eq!(
        error_text(parse_all(b"*2\r\n+ok\r\n!bad\r\n")),
        "protocol error; invalid frame type byte `33`"
    );
}

#[test]
fn array_with_missing_items_is_incomplete() {
    assert!(matches!(parse_all(b"*3\r\n+a\r\n+b\r\n"), Err(Error::Incomplete)));
    assert!(matches!(parse_all(b"*18446744073709551615\r\n"), Err(Error::Incomplete)));
}

#[test]
fn bulk_with_missing_bytes_is_incomplete() {
    assert!(matches!(parse_all(b"$5\r\nhell"), Err(Error::Incomplete)));
    assert!(matches!(parse_all(b"$5\r\nhello"), Err(Error::Incomplete)));
    assert!(matches!(parse_all(b"$5\r\nhello\r"), Err(Error::Incomplete)));
    assert!(matches!(parse_all(b"$18446744073709551615\r\nabc"), Err(Error::Incomplete)));
}

#[test]
fn write_simple() {
    assert_eq!(encoded(&Frame::Simple("OK".to_string())), b"+OK\r\n".to_vec());
}

#[test]
fn write_error() {
    assert_eq!(encoded(&Frame::Error("bad".to_string())), b"-bad\r\n".to_vec());
}

#[test]
fn write_integers() {
    assert_eq!(encoded(&Frame::USize(0)), b":0\r\n".to_vec());
    assert_eq!(encoded(&Frame::USize(1234567890)), b":1234567890\r\n".to_vec());
    assert_eq!(encoded(&Frame::USize(u64::MAX)), b":18446744073709551615\r\n".to_vec());
    assert_eq!(encoded(&Frame::Integer(-15)), b"=-15\r\n".to_vec());
    assert_eq!(encoded(&Frame::Integer(i64::MIN)), b"=-9223372036854775808\r\n".to_vec());
}

#[test]
fn write_bulk_and_null() {
    assert_eq!(encoded(&Frame::Bulk(Bytes::from_static(b"hello"))), b"$5\r\nhello\r\n".to_vec());
    assert_eq!(encoded(&Frame::Bulk(Bytes::new())), b"$0\r\n\r\n".to_vec());
    assert_eq!(encoded(&Frame::Null), b"$-1\r\n".to_vec());
}

#[test]
fn write_array() {
    let frame = Frame::Array(vec![
        Frame::Bulk(Bytes::from_static(b"get")),
        Frame::Bulk(Bytes::from_static(b"foo")),
    ]);
    assert_eq!(encoded(&frame), b"*2\r\n$3\r\nget\r\n$3\r\nfoo\r\n".to_vec());
    assert_eq!(encoded(&Frame::Array(vec![])), b"*0\r\n".to_vec());
}

#[test]
fn write_appends_to_what_is_there() {
    let mut out = b"+first\r\n".to_vec();
    write_frame(&mut out, &Frame::Null);
    assert_eq!(out, b"+first\r\n$-1\r\n".to_vec());
}

#[test]
fn round_trip_gives_the_message_back() {
    for frame in samples() {
        let bytes = encoded(&frame);
        let mut cursor = Cursor::new(&bytes[..]);
        assert!(Frame::check(&mut cursor).is_ok());
        assert_eq!(cursor.position(), bytes.len());
        cursor.set_position(0);
        let back = Frame::parse(&mut cursor).unwrap();
        assert_eq!(back, frame);
        assert_eq!(cursor.position(), bytes.len());
    }
}

#[test]
fn round_trip_ignores_what_follows() {
    for frame in samples() {
        let mut bytes = encoded(&frame);
        let len = bytes.len();
        bytes.extend_from_slice(b"+next\r\n");
        let mut cursor = Cursor::new(&bytes[..]);
        assert_eq!(Frame::parse(&mut cursor).unwrap(), frame);
        assert_eq!(cursor.position(), len);
    }
}

#[test]
fn every_truncation_is_incomplete() {
    for frame in samples() {
        let bytes = encoded(&frame);
        for cut in 0..bytes.len() {
            let mut cursor = Cursor::new(&bytes[..cut]);
            assert!(
                matches!(Frame::check(&mut cursor), Err(Error::Incomplete)),
                "check of {:?} cut at {}",
                frame,
                cut
            );
            assert_eq!(cursor.position(), 0);
            assert!(
                matches!(Frame::parse(&mut cursor), Err(Error::Incomplete)),
                "parse of {:?} cut at {}",
                frame,
                cut
            );
        }
    }
}

#[test]
fn cursor_helpers() {
    let bytes = b"ab\r\n12\r\nxyz";
    let mut cursor = Cursor::new(&bytes[..]);
    assert_eq!(peek_u8(&mut cursor).unwrap(), b'a');
    assert_eq!(cursor.position(), 0);
    assert_eq!(get_u8(&mut cursor).unwrap(), b'a');
    assert_eq!(cursor.position(), 1);
    assert_eq!(get_line(&mut cursor).unwrap(), b"b");
    assert_eq!(cursor.position(), 4);
    assert_eq!(get_decimal(&mut cursor).unwrap(), 12);
    assert_eq!(cursor.position(), 8);
    assert!(matches!(get_line(&mut cursor), Err(Error::Incomplete)));
    assert_eq!(cursor.position(), 8);
    assert!(matches!(skip(&mut cursor, 4), Err(Error::Incomplete)));
    assert_eq!(cursor.position(), 8);
    assert!(skip(&mut cursor, 3).is_ok());
    assert_eq!(cursor.remaining(), 0);
    assert!(matches!(peek_u8(&mut cursor), Err(Error::Incomplete)));
    assert!(matches!(get_u8(&mut cursor), Err(Error::Incomplete)));
    assert_eq!(cursor.get_ref(), &bytes[..]);
}

#[test]
fn cursor_position_is_kept_within_the_buffer() {
    let bytes = b"abc";
    let mut cursor = Cursor::new(&bytes[..]);
    cursor.set_position(2);
    assert_eq!(cursor.position(), 2);
    assert_eq!(cursor.remaining(), 1);
    cursor.set_position(10);
    assert_eq!(cursor.position(), 3);
    assert_eq!(cursor.remaining(), 0);
}

#[test]
fn array_builders() {
    let mut frame = Frame::array();
    assert_eq!(frame, Frame::Array(vec![]));
    frame.push_bulk(Bytes::from_static(b"a"));
    frame.push_u64(7);
    frame.push_i64(-7);
    frame.push_frame(Frame::Null);
    assert_eq!(
        frame,
        Frame::Array(vec![
            Frame::Bulk(Bytes::from_static(b"a")),
            Frame::USize(7),
            Frame::Integer(-7),
            Frame::Null,
        ])
    );
}

#[test]
fn frames_compare_by_what_they_stand_for() {
    let a = Frame::Bulk(Bytes::from_static(b"abc"));
    let b = Frame::Bulk(Bytes::copy_from_slice(b"abc"));
    assert!(a.equals(&b));
    assert_eq!(a, b);
    assert_ne!(a, Frame::Bulk(Bytes::from_static(b"abd")));
    assert_ne!(a, Frame::Simple("abc".to_string()));
    assert_ne!(Frame::USize(1), Frame::Integer(1));
    assert_ne!(Frame::Simple("x".to_string()), Frame::Error("x".to_string()));
    assert_ne!(Frame::Array(vec![Frame::Null]), Frame::Array(vec![Frame::Null, Frame::Null]));
    assert_ne!(Frame::Array(vec![Frame::USize(1)]), Frame::Array(vec![Frame::USize(2)]));
    assert_eq!(Frame::Null, Frame::Null);
}

#[test]
fn clone_gives_an_equal_frame() {
    for frame in samples() {
        assert_eq!(frame.clone(), frame);
        assert_eq!(frame.duplicate(), frame);
    }
}

#[test]
fn frame_compares_with_text() {
    assert!(Frame::Simple("OK".to_string()).eq_str("OK"));
    assert!(Frame::Bulk(Bytes::from_static(b"OK")).eq_str("OK"));
    assert!(!Frame::Simple("OK".to_string()).eq_str("ok"));
    assert!(!Frame::Bulk(Bytes::from_static(b"OK!")).eq_str("OK"));
    assert!(!Frame::Error("OK".to_string()).eq_str("OK"));
    assert!(!Frame::Null.eq_str(""));
}

#[test]
fn frames_as_shown_to_a_person() {
    assert_eq!(Frame::Simple("PONG".to_string()).to_text(), "PONG");
    assert_eq!(Frame::Error("oops".to_string()).to_text(), "error: oops");
    assert_eq!(Frame::USize(120).to_text(), "120");
    assert_eq!(Frame::USize(0).to_text(), "0");
    assert_eq!(Frame::Integer(-120).to_text(), "-120");
    assert_eq!(Frame::Integer(i64::MIN).to_text(), "-9223372036854775808");
    assert_eq!(Frame::Bulk(Bytes::from_static(b"hello")).to_text(), "hello");
    assert_eq!(Frame::Null.to_text(), "(nil)");
    let array = Frame::Array(vec![
        Frame::Simple("a".to_string()),
        Frame::USize(1),
        Frame::Null,
    ]);
    assert_eq!(array.to_text(), "a 1 (nil)");
    assert_eq!(Frame::Array(vec![]).to_text(), "");
}

#[test]
fn bulk_that_is_no_text_is_shown_in_debug_form() {
    let data = Bytes::from_static(b"\xff\x00a");
    assert_eq!(Frame::Bulk(data.clone()).to_text(), format!("{:?}", data));
    assert_eq!(Frame::Bulk(data).to_text(), "b\"\\xff\\0a\"");
}

#[test]
fn unexpected_frame_error_text() {
    assert_eq!(Frame::Null.to_error(), "unexpected frame: (nil)");
    assert_eq!(Frame::Error("x".to_string()).to_error(), "unexpected frame: error: x");
}

#[test]
fn error_texts() {
    assert_eq!(Error::Incomplete.to_text(), "stream ended early");
    assert_eq!(Error::Other("why".to_string()).to_text(), "why");
    assert!(matches!(Error::from("why".to_string()), Error::Other(msg) if msg == "why"));
}

#[test]
fn line_breaks_are_found() {
    assert!(!has_crlf(b""));
    assert!(!has_crlf(b"\r"));
    assert!(!has_crlf(b"\n\r"));
    assert!(!has_crlf(b"a\rb\nc"));
    assert!(has_crlf(b"\r\n"));
    assert!(has_crlf(b"ab\r\n"));
    assert!(has_crlf(b"\r\r\n"));
}

#[test]
fn frames_with_a_line_break_in_a_text_are_not_read_back() {
    for frame in samples() {
        assert!(frame.reads_back());
    }
    let broken = Frame::Simple("two\r\nlines".to_string());
    assert!(!broken.reads_back());
    assert!(!Frame::Error("\r\n".to_string()).reads_back());
    assert!(!Frame::Array(vec![Frame::Null, Frame::Simple("a\r\nb".to_string())]).reads_back());
    assert!(Frame::Bulk(Bytes::from_static(b"two\r\nlines")).reads_back());
    assert_eq!(parse_all(&encoded(&broken)).unwrap(), Frame::Simple("two".to_string()));
}
