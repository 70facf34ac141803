use bytes::Bytes;
use nano_redis::cmd::{
    Applied, Command, Get, Incrby, Lrange, Ping, Pop, Push, Sadd, Scard, Sdiff, SetCmd, Sinter,
    Sismember, Sismembers, Srem, Sunion, Unknown,
};
use nano_redis::entity::db::Db;
use nano_redis::entity::frame::Frame;
use nano_redis::entity::parse::{Parse, ParseError};

fn bulk(text: &str) -> Frame {
    Frame::Bulk(Bytes::copy_from_slice(text.as_bytes()))
}

fn request(fields: Vec<Frame>) -> Frame {
    Frame::Array(fields)
}

fn words(items: &[&str]) -> Frame {
    Frame::Array(items.iter().map(|s| bulk(s)).collect())
}

fn strings(items: &[&str]) -> Vec<String> {
    items.iter().map(|s| s.to_string()).collect()
}

fn run(db: &mut Db, frame: Frame) -> Frame {
    let Applied { reply, .. } = Command::from_frame(frame).unwrap().apply(db, 0);
    reply
}

fn error_of(r: Result<Command, ParseError>) -> String {
    match r {
        Err(e) => e.to_text(),
        Ok(cmd) => panic!("expected an error, got {:?}", cmd),
    }
}

#[test]
fn parse_reads_fields_in_order() {
    let mut parse = Parse::new(request(vec![
        Frame::Simple("set".to_string()),
        bulk("key"),
        bulk("\u{e9}"),
        Frame::USize(7),
        bulk("8"),
        Frame::Integer(-9),
        Frame::Simple("-10".to_string()),
        Frame::Null,
    ]))
    .unwrap();
    assert_eq!(parse.next_string().unwrap(), "set");
    assert_eq!(parse.next_string().unwrap(), "key");
    assert_eq!(parse.next_bytes().unwrap(), Bytes::copy_from_slice("\u{e9}".as_bytes()));
    assert_eq!(parse.next_u64().unwrap(), 7);
    assert_eq!(parse.next_u64().unwrap(), 8);
    assert_eq!(parse.next_i64().unwrap(), -9);
    assert_eq!(parse.next_i64().unwrap(), -10);
    assert!(matches!(parse.finish(), Err(ParseError::Other(_))));
    assert_eq!(parse.next().unwrap(), Frame::Null);
    assert!(parse.finish().is_ok());
    assert!(matches!(parse.next(), Err(ParseError::EndOfStream)));
    assert!(matches!(parse.next_string(), Err(ParseError::EndOfStream)));
    assert!(matches!(parse.next_bytes(), Err(ParseError::EndOfStream)));
    assert!(matches!(parse.next_u64(), Err(ParseError::EndOfStream)));
    assert!(matches!(parse.next_i64(), Err(ParseError::EndOfStream)));
}

#[test]
fn parse_wants_an_array() {
    match Parse::new(Frame::Simple("get".to_string())) {
        Err(e) => assert_eq!(e.to_text(), "protocol error; expected array, got simple"),
        Ok(_) => panic!("expected an error"),
    }
    match Parse::new(Frame::Null) {
        Err(e) => assert_eq!(e.to_text(), "protocol error; expected array, got null"),
        Ok(_) => panic!("expected an error"),
    }
}

#[test]
fn parse_tells_wrong_kinds_apart() {
    let mut parse = Parse::new(request(vec![
        Frame::USize(1),
        Frame::Bulk(Bytes::from_static(b"\xff")),
        Frame::Null,
        bulk("abc"),
        Frame::Integer(1),
        Frame::USize(1),
        Frame::Error("e".to_string()),
    ]))
    .unwrap();
    assert_eq!(
        parse.next_string().unwrap_err().to_text(),
        "protocol error; expected simple frame or bulk frame, got usize"
    );
    assert_eq!(parse.next_string().unwrap_err().to_text(), "protocol error; invalid string");
    assert_eq!(
        parse.next_bytes().unwrap_err().to_text(),
        "protocol error; expected simple frame or bulk frame, got null"
    );
    assert_eq!(parse.next_u64().unwrap_err().to_text(), "protocol error; invalid number");
    assert_eq!(
        parse.next_u64().unwrap_err().to_text(),
        "protocol error; expected int frame but got integer"
    );
    assert_eq!(
        parse.next_i64().unwrap_err().to_text(),
        "protocol error; expected int frame but got usize"
    );
    assert_eq!(
        parse.next_i64().unwrap_err().to_text(),
        "protocol error; expected int frame but got error"
    );
}

#[test]
fn parse_takes_bytes_that_are_no_text() {
    let mut parse =
        Parse::new(request(vec![Frame::Bulk(Bytes::from_static(b"\xff\x00"))])).unwrap();
    assert_eq!(parse.next_bytes().unwrap(), Bytes::from_static(b"\xff\x00"));
}

#[test]
fn parse_takes_several_texts() {
    let mut parse = Parse::new(words(&["a", "b", "c"])).unwrap();
    assert_eq!(parse.next_strings(2).unwrap(), strings(&["a", "b"]));
    assert_eq!(parse.next_strings(0).unwrap(), strings(&[]));
    assert!(matches!(parse.next_strings(2), Err(ParseError::EndOfStream)));
    let mut parse = Parse::new(words(&["a"])).unwrap();
    assert!(matches!(parse.next_strings(u64::MAX), Err(ParseError::EndOfStream)));
}

#[test]
fn parse_error_texts() {
    assert_eq!(ParseError::EndOfStream.to_text(), "protocol error; unexpected end of stream");
    assert_eq!(ParseError::Other("x".to_string()).to_text(), "x");
    assert!(matches!(ParseError::from("x".to_string()), ParseError::Other(msg) if msg == "x"));
}

#[test]
fn command_names_are_read_in_any_case() {
    for name in ["get", "GET", "Get", "gEt"] {
        let cmd = Command::from_frame(words(&[name, "k"])).unwrap();
        match cmd {
            Command::Get(get) => assert_eq!(get.key(), "k"),
            other => panic!("unexpected command {:?}", other),
        }
    }
}

#[test]
fn each_command_is_read_from_its_fields() {
    assert!(matches!(Command::from_frame(words(&["get", "k"])).unwrap(), Command::Get(_)));
    assert!(matches!(Command::from_frame(words(&["set", "k", "v"])).unwrap(), Command::SetCmd(_)));
    assert!(matches!(Command::from_frame(words(&["ping"])).unwrap(), Command::Ping(_)));
    assert!(matches!(Command::from_frame(words(&["incrby", "k", "1"])).unwrap(), Command::Incrby(_)));
    assert!(matches!(Command::from_frame(words(&["push", "k", "1", "a"])).unwrap(), Command::Push(_)));
    assert!(matches!(Command::from_frame(words(&["lrange", "k", "0", "1"])).unwrap(), Command::Lrange(_)));
    assert!(matches!(Command::from_frame(words(&["pop", "k", "0"])).unwrap(), Command::Pop(_)));
    assert!(matches!(Command::from_frame(words(&["sadd", "k", "1", "a"])).unwrap(), Command::Sadd(_)));
    assert!(matches!(Command::from_frame(words(&["srem", "k", "1", "a"])).unwrap(), Command::Srem(_)));
    assert!(matches!(Command::from_frame(words(&["scard", "k"])).unwrap(), Command::Scard(_)));
    assert!(matches!(Command::from_frame(words(&["sismember", "k", "a"])).unwrap(), Command::Sismember(_)));
    assert!(matches!(Command::from_frame(words(&["sismembers", "k"])).unwrap(), Command::Sismembers(_)));
    assert!(matches!(Command::from_frame(words(&["sinter", "1", "k"])).unwrap(), Command::Sinter(_)));
    assert!(matches!(Command::from_frame(words(&["sdiff", "1", "k"])).unwrap(), Command::Sdiff(_)));
    assert!(matches!(Command::from_frame(words(&["sunion", "1", "k"])).unwrap(), Command::Sunion(_)));
}

#[test]
fn unknown_command_is_no_error() {
    match Command::from_frame(words(&["FLY", "to", "the", "moon"])).unwrap() {
        Command::Unknown(cmd) => assert_eq!(cmd.get_name(), "fly"),
        other => panic!("unexpected command {:?}", other),
    }
    let mut db = Db::new();
    assert_eq!(
        run(&mut db, words(&["Fly"])),
        Frame::Error("ERR unknown command 'fly'".to_string())
    );
    assert_eq!(
        Unknown::new("x y".to_string()).apply(),
        Frame::Error("ERR unknown command 'x y'".to_string())
    );
}

#[test]
fn request_must_be_an_array_with_a_name() {
    assert_eq!(
        error_of(Command::from_frame(bulk("get"))),
        "protocol error; expected array, got bulk"
    );
    assert_eq!(
        error_of(Command::from_frame(request(vec![]))),
        "protocol error; unexpected end of stream"
    );
    assert_eq!(
        error_of(Command::from_frame(request(vec![Frame::USize(1)]))),
        "protocol error; expected simple frame or bulk frame, got usize"
    );
}

#[test]
fn too_few_fields_end_the_stream() {
    for fields in [
        vec!["get"],
        vec!["set", "k"],
        vec!["incrby", "k"],
        vec!["push", "k"],
        vec!["push", "k", "2", "a"],
        vec!["push", "k", "-2", "a"],
        vec!["lrange", "k", "0"],
        vec!["pop", "k"],
        vec!["sadd", "k", "1"],
        vec!["srem", "k"],
        vec!["scard"],
        vec!["sismember", "k"],
        vec!["sismembers"],
        vec!["sinter", "2", "a"],
        vec!["sdiff"],
        vec!["sunion", "1"],
    ] {
        let r = Command::from_frame(words(&fields));
        assert!(matches!(r, Err(ParseError::EndOfStream)), "fields {:?}", fields);
    }
}

#[test]
fn too_many_fields_are_a_protocol_error() {
    for fields in [
        vec!["get", "k", "extra"],
        vec!["set", "k", "v", "10", "extra"],
        vec!["ping", "a", "b"],
        vec!["incrby", "k", "1", "extra"],
        vec!["push", "k", "1", "a", "extra"],
        vec!["lrange", "k", "0", "1", "extra"],
        vec!["pop", "k", "1", "extra"],
        vec!["sadd", "k", "0", "extra"],
        vec!["srem", "k", "1", "a", "extra"],
        vec!["scard", "k", "extra"],
        vec!["sismember", "k", "v", "extra"],
        vec!["sismembers", "k", "extra"],
        vec!["sinter", "1", "a", "extra"],
        vec!["sdiff", "0", "extra"],
        vec!["sunion", "1", "a", "extra"],
    ] {
        assert_eq!(
            error_of(Command::from_frame(words(&fields))),
            "protocol error; expected end of frame, but there was more",
            "fields {:?}",
            fields
        );
    }
}

#[test]
fn fields_of_the_wrong_kind_are_a_protocol_error() {
    assert_eq!(
        error_of(Command::from_frame(words(&["incrby", "k", "many"]))),
        "protocol error; invalid number"
    );
    assert_eq!(
        error_of(Command::from_frame(words(&["set", "k", "v", "soon"]))),
        "protocol error; invalid number"
    );
    assert_eq!(
        error_of(Command::from_frame(request(vec![bulk("get"), Frame::Null]))),
        "protocol error; expected simple frame or bulk frame, got null"
    );
    assert_eq!(
        error_of(Command::from_frame(request(vec![bulk("ping"), Frame::USize(1)]))),
        "protocol error; expected simple frame or bulk frame, got usize"
    );
    assert_eq!(
        error_of(Command::from_frame(request(vec![
            bulk("get"),
            Frame::Bulk(Bytes::from_static(b"\xff")),
        ]))),
        "protocol error; invalid string"
    );
}

#[test]
fn ping_replies_pong_or_the_message() {
    let mut db = Db::new();
    assert_eq!(run(&mut db, words(&["ping"])), Frame::Simple("PONG".to_string()));
    assert_eq!(run(&mut db, words(&["ping", "hello"])), bulk("hello"));
    assert_eq!(Ping::new(None).apply(), Frame::Simple("PONG".to_string()));
    assert_eq!(Ping::default().apply(), Frame::Simple("PONG".to_string()));
    assert_eq!(
        Ping::new(Some(Bytes::from_static(b"\xff"))).apply(),
        Frame::Bulk(Bytes::from_static(b"\xff"))
    );
}

#[test]
fn get_and_set_replies() {
    let mut db = Db::new();
    assert_eq!(run(&mut db, words(&["get", "k"])), Frame::Null);
    assert_eq!(run(&mut db, words(&["set", "k", "v"])), Frame::Simple("OK".to_string()));
    assert_eq!(run(&mut db, words(&["get", "k"])), bulk("v"));
    assert_eq!(
        run(&mut db, request(vec![bulk("SET"), bulk("k"), Frame::Bulk(Bytes::from_static(b"\xff\x00"))])),
        Frame::Simple("OK".to_string())
    );
    assert_eq!(run(&mut db, words(&["get", "k"])), Frame::Bulk(Bytes::from_static(b"\xff\x00")));
}

#[test]
fn set_with_a_time_to_live() {
    let mut db = Db::new();
    let cmd = Command::from_frame(request(vec![bulk("set"), bulk("k"), bulk("v"), Frame::USize(50)]))
        .unwrap();
    let out = cmd.apply(&mut db, 1000);
    assert_eq!(out.reply, Frame::Simple("OK".to_string()));
    assert!(out.notify);
    assert_eq!(db.next_expiration(), Some(1050));
    let out = Command::from_frame(words(&["set", "k2", "v", "500"])).unwrap().apply(&mut db, 1000);
    assert!(!out.notify);
    assert_eq!(run(&mut db, words(&["get", "k"])), bulk("v"));
    assert_eq!(db.purge_expired_keys(1050), Some(1500));
    assert_eq!(run(&mut db, words(&["get", "k"])), Frame::Null);
    assert_eq!(run(&mut db, words(&["get", "k2"])), bulk("v"));
}

#[test]
fn incrby_replies() {
    let mut db = Db::new();
    assert_eq!(
        run(&mut db, words(&["incrby", "n", "5"])),
        Frame::Error("ERR no such key".to_string())
    );
    run(&mut db, words(&["set", "n", "10"]));
    assert_eq!(run(&mut db, words(&["incrby", "n", "5"])), Frame::Simple("OK".to_string()));
    assert_eq!(run(&mut db, words(&["get", "n"])), bulk("15"));
    assert_eq!(
        run(&mut db, request(vec![bulk("incrby"), bulk("n"), Frame::Integer(-20)])),
        Frame::Simple("OK".to_string())
    );
    assert_eq!(run(&mut db, words(&["get", "n"])), bulk("-5"));
    run(&mut db, words(&["set", "s", "text"]));
    assert_eq!(
        run(&mut db, words(&["incrby", "s", "1"])),
        Frame::Error("ERR value is not an integer or out of range".to_string())
    );
    run(&mut db, words(&["push", "l", "1", "a"]));
    assert_eq!(
        run(&mut db, words(&["incrby", "l", "1"])),
        Frame::Error(
            "WRONGTYPE Operation against a key holding the wrong kind of value".to_string()
        )
    );
    run(&mut db, words(&["set", "big", "9223372036854775807"]));
    assert_eq!(
        run(&mut db, words(&["incrby", "big", "1"])),
        Frame::Error("ERR increment or decrement would overflow".to_string())
    );
}

#[test]
fn push_and_pop_replies() {
    let mut db = Db::new();
    assert_eq!(run(&mut db, words(&["pop", "l", "0"])), Frame::Null);
    assert_eq!(run(&mut db, words(&["push", "l", "2", "a", "b"])), Frame::Simple("OK".to_string()));
    assert_eq!(run(&mut db, words(&["pop", "l", "0"])), bulk("a"));
    assert_eq!(
        run(&mut db, request(vec![bulk("push"), bulk("l2"), Frame::Integer(-2), bulk("a"), bulk("b")])),
        Frame::Simple("OK".to_string())
    );
    assert_eq!(run(&mut db, request(vec![bulk("pop"), bulk("l2"), Frame::USize(0)])), bulk("b"));
    assert_eq!(run(&mut db, request(vec![bulk("pop"), bulk("l2"), Frame::USize(1)])), bulk("a"));
    assert_eq!(run(&mut db, words(&["pop", "l2", "1"])), Frame::Null);
}

#[test]
fn lrange_replies() {
    let mut db = Db::new();
    assert_eq!(run(&mut db, words(&["lrange", "l", "0", "1"])), Frame::Null);
    run(&mut db, words(&["push", "l", "3", "a", "b", "c"]));
    assert_eq!(run(&mut db, words(&["lrange", "l", "0", "1"])), bulk("[a,b]"));
    assert_eq!(run(&mut db, words(&["lrange", "l", "1", "9"])), bulk("[b,c]"));
}

#[test]
fn set_command_replies() {
    let mut db = Db::new();
    assert_eq!(run(&mut db, words(&["scard", "s"])), Frame::Null);
    assert_eq!(run(&mut db, words(&["sismember", "s", "x"])), Frame::Null);
    assert_eq!(run(&mut db, words(&["sismembers", "s"])), Frame::Null);
    assert_eq!(run(&mut db, words(&["srem", "s", "1", "x"])), Frame::Null);
    assert_eq!(run(&mut db, words(&["sadd", "s", "2", "x", "y"])), Frame::Simple("OK".to_string()));
    assert_eq!(run(&mut db, words(&["sismember", "s", "x"])), bulk("true"));
    assert_eq!(run(&mut db, words(&["srem", "s", "1", "x"])), bulk("1"));
    assert_eq!(run(&mut db, words(&["sismember", "s", "x"])), bulk("false"));
    assert_eq!(run(&mut db, words(&["scard", "s"])), bulk("1"));
    assert_eq!(run(&mut db, words(&["sismembers", "s"])), bulk("{y}"));
    run(&mut db, words(&["sadd", "t", "2", "y", "z"]));
    assert_eq!(run(&mut db, words(&["sinter", "2", "s", "t"])), bulk("{y}"));
    assert_eq!(run(&mut db, words(&["sdiff", "2", "t", "s"])), bulk("{z}"));
    assert_eq!(run(&mut db, words(&["sunion", "2", "s", "t"])), bulk("{y,z}"));
    assert_eq!(run(&mut db, words(&["sunion", "0"])), Frame::Null);
}

#[test]
fn requests_are_sent_as_arrays_of_fields() {
    assert_eq!(Get::new("k").into_frame(), words(&["get", "k"]));
    assert_eq!(Scard::new("k".to_string()).into_frame(), words(&["scard", "k"]));
    assert_eq!(Sismembers::new("k").into_frame(), words(&["sismembers", "k"]));
    assert_eq!(
        Sismember::new("k", "v".to_string()).into_frame(),
        words(&["sismember", "k", "v"])
    );
    assert_eq!(
        Incrby::new("k", -3).into_frame(),
        request(vec![bulk("incrby"), bulk("k"), Frame::Integer(-3)])
    );
    assert_eq!(
        Lrange::new("k", 1, 2).into_frame(),
        request(vec![bulk("lrange"), bulk("k"), Frame::USize(1), Frame::USize(2)])
    );
    assert_eq!(
        Pop::new("k", true).into_frame(),
        request(vec![bulk("pop"), bulk("k"), Frame::USize(1)])
    );
    assert_eq!(
        Pop::new("k", false).into_frame(),
        request(vec![bulk("pop"), bulk("k"), Frame::USize(0)])
    );
    assert_eq!(
        Push::new("k", strings(&["a", "b"]), true).into_frame(),
        request(vec![bulk("push"), bulk("k"), Frame::Integer(2), bulk("a"), bulk("b")])
    );
    assert_eq!(
        Push::new("k", strings(&["a", "b"]), false).into_frame(),
        request(vec![bulk("push"), bulk("k"), Frame::Integer(-2), bulk("a"), bulk("b")])
    );
    assert_eq!(
        Sadd::new("k", strings(&["a"])).into_frame(),
        request(vec![bulk("sadd"), bulk("k"), Frame::USize(1), bulk("a")])
    );
    assert_eq!(
        Srem::new("k", strings(&["a", "b"])).into_frame(),
        request(vec![bulk("srem"), bulk("k"), Frame::USize(2), bulk("a"), bulk("b")])
    );
    assert_eq!(
        Sinter::new(strings(&["a", "b"])).into_frame(),
        request(vec![bulk("sinter"), Frame::USize(2), bulk("a"), bulk("b")])
    );
    assert_eq!(
        Sdiff::new(strings(&["a"])).into_frame(),
        request(vec![bulk("sdiff"), Frame::USize(1), bulk("a")])
    );
    assert_eq!(
        Sunion::new(strings(&[])).into_frame(),
        request(vec![bulk("sunion"), Frame::USize(0)])
    );
    assert_eq!(Ping::new(None).into_frame(), words(&["ping"]));
    assert_eq!(
        Ping::new(Some(Bytes::from_static(b"hi"))).into_frame(),
        words(&["ping", "hi"])
    );
    assert_eq!(
        SetCmd::new("k", Bytes::from_static(b"v"), None).into_frame(),
        words(&["set", "k", "v"])
    );
    assert_eq!(
        SetCmd::new("k", Bytes::from_static(b"v"), Some(50)).into_frame(),
        request(vec![bulk("set"), bulk("k"), bulk("v"), Frame::USize(50)])
    );
}

#[test]
fn a_request_that_was_sent_is_read_back_as_it_was() {
    let mut db = Db::new();
    let frames = vec![
        SetCmd::new("k", Bytes::from_static(b"10"), None).into_frame(),
        Incrby::new("k", 5).into_frame(),
        Push::new("l", strings(&["a", "b"]), false).into_frame(),
        Sadd::new("s", strings(&["x", "y"])).into_frame(),
    ];
    for frame in frames {
        assert_eq!(run(&mut db, frame), Frame::Simple("OK".to_string()));
    }
    assert_eq!(run(&mut db, Get::new("k").into_frame()), bulk("15"));
    assert_eq!(run(&mut db, Pop::new("l", false).into_frame()), bulk("b"));
    assert_eq!(run(&mut db, Lrange::new("l", 0, 5).into_frame()), bulk("[a]"));
    assert_eq!(run(&mut db, Scard::new("s".to_string()).into_frame()), bulk("2"));
    assert_eq!(run(&mut db, Sismember::new("s", "x".to_string()).into_frame()), bulk("true"));
    assert_eq!(run(&mut db, Srem::new("s", strings(&["x"])).into_frame()), bulk("1"));
    assert_eq!(run(&mut db, Sismembers::new("s").into_frame()), bulk("{y}"));
    assert_eq!(run(&mut db, Sunion::new(strings(&["s", "s"])).into_frame()), bulk("{y}"));
    assert_eq!(run(&mut db, Sinter::new(strings(&["s", "none"])).into_frame()), bulk("{}"));
    assert_eq!(run(&mut db, Sdiff::new(strings(&["s", "none"])).into_frame()), bulk("{y}"));
    assert_eq!(run(&mut db, Ping::new(None).into_frame()), Frame::Simple("PONG".to_string()));
}

#[test]
fn getters_give_what_was_put_in() {
    assert_eq!(Get::new("k").key(), "k");
    assert_eq!(Incrby::new("k", 1).key(), "k");
    assert_eq!(Lrange::new("k", 0, 1).key(), "k");
    assert_eq!(Pop::new("k", true).key(), "k");
    assert_eq!(Sadd::new("k", vec![]).key(), "k");
    assert_eq!(Srem::new("k", vec![]).key(), "k");
    let push = Push::new("k", strings(&["a"]), true);
    assert_eq!(push.key(), "k");
    assert_eq!(push.value(), &strings(&["a"]));
    assert_eq!(push.expire(), None);
    assert_eq!(Sinter::new(strings(&["a", "b"])).keys(), &strings(&["a", "b"]));
    assert_eq!(Sdiff::new(strings(&["a"])).keys(), &strings(&["a"]));
    assert_eq!(Sunion::new(strings(&["a"])).keys(), &strings(&["a"]));
    let set = SetCmd::new("k", Bytes::from_static(b"v"), Some(5));
    assert_eq!(set.key(), "k");
    assert_eq!(set.value(), &Bytes::from_static(b"v"));
    assert_eq!(set.expire(), Some(5));
}

#[test]
fn push_count_without_items_after_a_sign() {
    let mut db = Db::new();
    assert_eq!(run(&mut db, words(&["push", "l", "0"])), Frame::Simple("OK".to_string()));
    assert_eq!(run(&mut db, words(&["lrange", "l", "0", "9"])), bulk("[]"));
    let r = Command::from_frame(request(vec![bulk("push"), bulk("l"), Frame::Integer(i64::MIN)]));
    assert!(matches!(r, Err(ParseError::EndOfStream)));
}
