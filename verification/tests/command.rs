use bytes::Bytes;
use my_redis::clock::elapsed;
use my_redis::clock::unix_time;
use my_redis::clock::TimeSpan;
use my_redis::command::get::Get;
use my_redis::command::mget::MGet;
use my_redis::command::next_bytes;
use my_redis::command::next_integer;
use my_redis::command::next_string;
use my_redis::command::set::SetValue;
use my_redis::command::unknown::Unknown;
use my_redis::command::Command;
use my_redis::command::Replacement;
use my_redis::database::new_db;
use my_redis::frame::Frame;
use my_redis::Error;

fn text(value: &str) -> Frame {
    Frame::Simple(value.to_string())
}

fn bulk(value: &str) -> Frame {
    Frame::Bulk(Bytes::copy_from_slice(value.as_bytes()))
}

fn protocol_error<T>(result: Result<T, Error>, expected: &str) -> bool {
    match result {
        Err(Error::Protocol(message)) => message == expected,
        _ => false,
    }
}

fn set(tokens: Vec<Frame>) -> SetValue {
    SetValue::try_from(&tokens).unwrap()
}

#[test]
fn get_it_is_initialized_from_frame_iterator() {
    let key: String = "number".to_string();
    let frames = vec![Frame::Simple(key.clone())];

    let command: Get = Get::try_from(&frames).unwrap();

    assert_eq!(key, command.key);
}

#[test]
fn get_it_returns_data_from_db() {
    let mut db = new_db();
    db.insert("key".to_string(), Bytes::from("value"));
    let command = Get { key: "key".to_string() };

    let result = command.execute(&mut db);

    assert_eq!(Frame::Bulk(Bytes::from("value")), result);
}

#[test]
fn get_it_returns_null_when_key_does_not_exist() {
    let mut db = new_db();
    let command = Get { key: "key".to_string() };

    let result = command.execute(&mut db);

    assert_eq!(Frame::Null, result);
}

#[test]
fn mget_it_is_initialized_from_frame_iterator() {
    let frames = vec![
        Frame::Simple("where".to_string()),
        Frame::Bulk(vec![b'w', b'h', b'e', b'n'].into()),
        Frame::Simple("what".to_string()),
    ];

    let command: MGet = MGet::from(&frames);

    assert_eq!("where".to_string(), command.keys[0]);
    assert_eq!("when".to_string(), command.keys[1]);
    assert_eq!("what".to_string(), command.keys[2]);
}

#[test]
fn mget_it_returns_data_from_db() {
    let mut db = new_db();
    db.insert("when".to_string(), Bytes::from("now"));
    db.insert("where".to_string(), Bytes::from("here"));
    db.insert("what".to_string(), Bytes::from("code!"));
    let command = MGet {
        keys: vec!["when".to_string(), "where".to_string(), "what".to_string()],
    };

    let result = command.execute(&mut db);

    assert_eq!(
        Frame::Array(vec![
            Frame::Bulk(Bytes::from("now")),
            Frame::Bulk(Bytes::from("here")),
            Frame::Bulk(Bytes::from("code!")),
        ]),
        result
    );
}

#[test]
fn mget_it_returns_null_when_key_does_not_exist() {
    let mut db = new_db();
    db.insert("first_name".to_string(), Bytes::from("Gunter"));
    db.insert("age".to_string(), Bytes::from("2763"));
    let command = MGet {
        keys: vec!["first_name".to_string(), "last_name".to_string(), "age".to_string()],
    };

    let result = command.execute(&mut db);

    assert_eq!(
        Frame::Array(vec![
            Frame::Bulk(Bytes::from("Gunter")),
            Frame::Null,
            Frame::Bulk(Bytes::from("2763")),
        ]),
        result
    );
}

#[test]
fn it_is_initialized_from_simple_frame_iterator() {
    let frames = vec![Frame::Simple("dog".to_string()), Frame::Simple("Jasper".to_string())];

    let command: SetValue = SetValue::try_from(&frames).unwrap();

    assert_eq!("dog".to_string(), command.key);
    assert_eq!("Jasper".to_string(), String::from_utf8(command.value.to_vec()).unwrap());
    assert_eq!(None, command.ttl);
    assert_eq!(Replacement::Always, command.replacement);
    assert_eq!(false, command.get);
}

#[test]
fn it_is_initialized_from_complex_frame_iterator() {
    let frames = vec![
        Frame::Simple("airplane".to_string()),
        Frame::Simple("The Beast".to_string()),
        Frame::Simple("EX".to_string()),
        Frame::Integer(180),
        Frame::Simple("XX".to_string()),
        Frame::Simple("GET".to_string()),
    ];

    let command: SetValue = SetValue::try_from(&frames).unwrap();

    assert_eq!("airplane".to_string(), command.key);
    assert_eq!("The Beast".to_string(), String::from_utf8(command.value.to_vec()).unwrap());
    assert_eq!(TimeSpan::from_secs(180), command.ttl.unwrap());
    assert_eq!(Replacement::OnlyOverride, command.replacement);
    assert_eq!(true, command.get);
}

#[test]
fn it_saves_value_to_the_database() {
    let mut db = new_db();
    let name: Bytes = [b'H', b'i', b'g'].to_vec().into();
    let command = SetValue {
        key: "name".to_string(),
        value: name.clone(),
        ttl: None,
        replacement: Default::default(),
        get: false,
    };

    let result = command.execute(&mut db);

    assert_eq!(Frame::Simple("OK".to_string()), result);
    let value = db.get("name").unwrap();
    assert_eq!(name, value)
}

#[test]
fn it_does_not_overwrite_value_with_never_replacement_policy() {
    let mut db = new_db();
    let old_name = Bytes::from("Hig");
    db.insert("name".to_string(), old_name.clone());
    let new_name: Bytes = [b'B', b'a', b'n', b'g', b'l', b'e', b'y'].to_vec().into();
    let command = SetValue {
        key: "name".to_string(),
        value: new_name,
        ttl: None,
        replacement: Replacement::Never,
        get: false,
    };

    let result = command.execute(&mut db);

    assert_eq!(Frame::Simple("OK".to_string()), result);
    let value = db.get("name").unwrap();
    assert_eq!(old_name, value)
}

#[test]
fn next_string_reads_simple_and_bulk() {
    let frames = vec![text("one"), bulk("tw\u{f6}"), Frame::Integer(3)];
    assert_eq!("one", next_string(&frames, 0).unwrap());
    assert_eq!("tw\u{f6}", next_string(&frames, 1).unwrap());
}

#[test]
fn next_string_rejects_other_frames() {
    for frame in [
        Frame::Integer(3),
        Frame::Null,
        Frame::SimpleError("e".to_string()),
        Frame::Array(vec![]),
    ] {
        assert!(protocol_error(
            next_string(&[frame], 0),
            "protocol error; expected simple frame or bulk frame"
        ));
    }
}

#[test]
fn next_string_rejects_a_bulk_that_is_not_utf8() {
    let frames = vec![Frame::Bulk(Bytes::from_static(b"\xff\xfe"))];
    assert!(protocol_error(next_string(&frames, 0), "protocol error; invalid string"));
}

#[test]
fn next_string_fails_at_the_end() {
    let frames = vec![text("one")];
    assert!(protocol_error(next_string(&frames, 1), "protocol error; unexpected end of request"));
    assert!(protocol_error(next_string(&[], 0), "protocol error; unexpected end of request"));
}

#[test]
fn next_bytes_reads_simple_and_bulk() {
    let frames = vec![text("caf\u{e9}"), Frame::Bulk(Bytes::from_static(b"\xff\0"))];
    assert_eq!(Bytes::from_static(b"caf\xc3\xa9"), next_bytes(&frames, 0).unwrap());
    assert_eq!(Bytes::from_static(b"\xff\0"), next_bytes(&frames, 1).unwrap());
}

#[test]
fn next_bytes_rejects_other_frames_and_the_end() {
    let frames = vec![Frame::Integer(1)];
    assert!(protocol_error(
        next_bytes(&frames, 0),
        "protocol error; expected simple frame or bulk frame"
    ));
    assert!(protocol_error(next_bytes(&frames, 1), "protocol error; unexpected end of request"));
}

#[test]
fn next_integer_reads_an_integer_frame_only() {
    let frames = vec![Frame::Integer(180), bulk("180")];
    assert_eq!(180, next_integer(&frames, 0).unwrap());
    assert!(protocol_error(next_integer(&frames, 1), "protocol error; expected integer frame"));
    assert!(protocol_error(next_integer(&frames, 2), "protocol error; unexpected end of request"));
}

#[test]
fn get_needs_a_key() {
    assert!(protocol_error(Get::try_from(&[]), "protocol error; unexpected end of request"));
    assert!(protocol_error(
        Get::try_from(&[Frame::Integer(1)]),
        "protocol error; expected simple frame or bulk frame"
    ));
}

#[test]
fn get_passes_over_further_tokens() {
    let command = Get::try_from(&[bulk("key"), bulk("more"), Frame::Null]).unwrap();
    assert_eq!("key", command.key);
}

#[test]
fn mget_without_keys_replies_with_an_empty_array() {
    let command = MGet::from(&[]);
    assert!(command.keys.is_empty());
    let mut db = new_db();
    assert_eq!(Frame::Array(vec![]), command.execute(&mut db));
}

#[test]
fn mget_stops_at_the_first_token_that_is_no_text() {
    let command = MGet::from(&[text("a"), bulk("b"), Frame::Integer(1), text("c")]);
    assert_eq!(vec!["a".to_string(), "b".to_string()], command.keys);
}

#[test]
fn mget_keeps_the_order_and_repeats() {
    let mut db = new_db();
    db.insert("k1".to_string(), Bytes::from("v1"));
    db.insert("k3".to_string(), Bytes::from("v3"));
    let command =
        MGet::from(&[text("k3"), text("k2"), text("k1"), text("k3")]);
    assert_eq!(
        Frame::Array(vec![
            Frame::Bulk(Bytes::from("v3")),
            Frame::Null,
            Frame::Bulk(Bytes::from("v1")),
            Frame::Bulk(Bytes::from("v3")),
        ]),
        command.execute(&mut db)
    );
    assert_eq!(Some(Bytes::from("v1")), db.get("k1"));
    assert_eq!(None, db.get("k2"));
}

#[test]
fn set_needs_a_key_and_a_value() {
    assert!(protocol_error(
        SetValue::try_from(&[]),
        "protocol error; unexpected end of request"
    ));
    assert!(protocol_error(
        SetValue::try_from(&[text("k")]),
        "protocol error; unexpected end of request"
    ));
    assert!(protocol_error(
        SetValue::try_from(&[Frame::Null, text("v")]),
        "protocol error; expected simple frame or bulk frame"
    ));
    assert!(protocol_error(
        SetValue::try_from(&[text("k"), Frame::Integer(1)]),
        "protocol error; expected simple frame or bulk frame"
    ));
}

#[test]
fn set_takes_a_bulk_value_of_any_bytes() {
    let command = set(vec![bulk("k"), Frame::Bulk(Bytes::from_static(b"\xff\r\n"))]);
    assert_eq!(Bytes::from_static(b"\xff\r\n"), command.value);
}

#[test]
fn set_reads_relative_times_of_life() {
    let command = set(vec![text("k"), text("v"), text("EX"), Frame::Integer(2)]);
    assert_eq!(Some(TimeSpan { nanos: 2_000_000_000 }), command.ttl);
    let command = set(vec![text("k"), text("v"), text("PX"), Frame::Integer(1500)]);
    assert_eq!(Some(TimeSpan { nanos: 1_500_000_000 }), command.ttl);
    let command = set(vec![text("k"), text("v"), text("EX"), Frame::Integer(u64::MAX)]);
    assert_eq!(Some(TimeSpan { nanos: 18446744073709551615_000_000_000 }), command.ttl);
}

#[test]
fn set_has_no_time_of_life_for_a_time_that_has_passed() {
    let command = set(vec![text("k"), text("v"), text("EXAT"), Frame::Integer(1)]);
    assert_eq!(None, command.ttl);
    let command = set(vec![text("k"), text("v"), text("PXAT"), Frame::Integer(1000)]);
    assert_eq!(None, command.ttl);
    let command = set(vec![text("k"), text("v"), text("EXAT"), Frame::Integer(0)]);
    assert_eq!(None, command.ttl);
}

#[test]
fn set_counts_the_time_of_life_up_to_a_time_to_come() {
    let before = unix_time();
    let at: u64 = (before.nanos / 1_000_000_000) as u64 + 1000;
    let command = set(vec![text("k"), text("v"), text("EXAT"), Frame::Integer(at)]);
    let ttl = command.ttl.unwrap();
    assert!(ttl.nanos <= 1000 * 1_000_000_000);
    assert!(ttl.nanos > 990 * 1_000_000_000);
    let command = set(vec![text("k"), text("v"), text("PXAT"), Frame::Integer(at * 1000)]);
    let ttl = command.ttl.unwrap();
    assert!(ttl.nanos <= 1000 * 1_000_000_000);
    assert!(ttl.nanos > 990 * 1_000_000_000);
}

#[test]
fn set_at_a_given_time_is_exact() {
    let now = TimeSpan::from_parts(100, 250_000_000);
    let tokens = vec![text("k"), text("v"), text("EXAT"), Frame::Integer(160)];
    let command = SetValue::try_from_at(&tokens, now).unwrap();
    assert_eq!(Some(TimeSpan { nanos: 59_750_000_000 }), command.ttl);
    let tokens = vec![text("k"), text("v"), text("PXAT"), Frame::Integer(100_251)];
    let command = SetValue::try_from_at(&tokens, now).unwrap();
    assert_eq!(Some(TimeSpan { nanos: 1_000_000 }), command.ttl);
    let tokens = vec![text("k"), text("v"), text("PXAT"), Frame::Integer(100_250)];
    let command = SetValue::try_from_at(&tokens, now).unwrap();
    assert_eq!(Some(TimeSpan { nanos: 0 }), command.ttl);
    let tokens = vec![text("k"), text("v"), text("PXAT"), Frame::Integer(100_249)];
    let command = SetValue::try_from_at(&tokens, now).unwrap();
    assert_eq!(None, command.ttl);
}

#[test]
fn set_lets_the_last_time_of_life_win() {
    let command = set(vec![
        text("k"),
        text("v"),
        text("EX"),
        Frame::Integer(5),
        text("EXAT"),
        Frame::Integer(1),
    ]);
    assert_eq!(None, command.ttl);
    let command = set(vec![
        text("k"),
        text("v"),
        text("EXAT"),
        Frame::Integer(1),
        text("PX"),
        Frame::Integer(5),
    ]);
    assert_eq!(Some(TimeSpan::from_millis(5)), command.ttl);
}

#[test]
fn set_needs_an_integer_frame_after_a_keyword_with_an_argument() {
    for keyword in ["EX", "PX", "EXAT", "PXAT"] {
        assert!(protocol_error(
            SetValue::try_from(&[text("k"), text("v"), text(keyword)]),
            "protocol error; unexpected end of request"
        ));
        assert!(protocol_error(
            SetValue::try_from(&[text("k"), text("v"), text(keyword), bulk("180")]),
            "protocol error; expected integer frame"
        ));
    }
}

#[test]
fn set_lets_the_last_of_nx_and_xx_win() {
    let command = set(vec![text("k"), text("v"), text("NX"), text("XX")]);
    assert_eq!(Replacement::OnlyOverride, command.replacement);
    let command = set(vec![text("k"), text("v"), text("XX"), text("NX")]);
    assert_eq!(Replacement::Never, command.replacement);
    let command = set(vec![text("k"), text("v"), bulk("NX")]);
    assert_eq!(Replacement::Never, command.replacement);
}

#[test]
fn set_passes_over_a_text_that_is_no_keyword() {
    let command = set(vec![text("k"), text("v"), text("FOO"), text("NX"), text("bar"), text("GET")]);
    assert_eq!(Replacement::Never, command.replacement);
    assert!(command.get);
    assert_eq!(None, command.ttl);
}

#[test]
fn set_reads_keywords_case_sensitively() {
    let command = set(vec![text("k"), text("v"), text("nx"), text("get"), text("Ex")]);
    assert_eq!(Replacement::Always, command.replacement);
    assert!(!command.get);
    assert_eq!(None, command.ttl);
}

#[test]
fn set_stops_at_the_first_token_that_is_no_text() {
    let command = set(vec![text("k"), text("v"), text("GET"), Frame::Integer(9), text("NX")]);
    assert!(command.get);
    assert_eq!(Replacement::Always, command.replacement);
    let command = set(vec![
        text("k"),
        text("v"),
        Frame::Bulk(Bytes::from_static(b"\xff")),
        text("NX"),
        text("EX"),
    ]);
    assert_eq!(Replacement::Always, command.replacement);
    let command = set(vec![text("k"), text("v"), Frame::Null, text("EX")]);
    assert_eq!(None, command.ttl);
}

#[test]
fn get_on_an_absent_key_is_null_and_after_set_is_the_value() {
    let mut db = new_db();
    let get = Get { key: "k".to_string() };
    assert_eq!(Frame::Null, get.execute(&mut db));
    assert_eq!(None, db.get("k"));
    let reply = set(vec![text("k"), bulk("v")]).execute(&mut db);
    assert_eq!(text("OK"), reply);
    assert_eq!(bulk("v"), get.execute(&mut db));
    set(vec![text("k"), bulk("w")]).execute(&mut db);
    assert_eq!(bulk("w"), get.execute(&mut db));
}

#[test]
fn set_nx_twice_keeps_the_first_value() {
    let mut db = new_db();
    assert_eq!(text("OK"), set(vec![text("k"), text("v1"), text("NX")]).execute(&mut db));
    assert_eq!(Some(Bytes::from("v1")), db.get("k"));
    assert_eq!(text("OK"), set(vec![text("k"), text("v2"), text("NX")]).execute(&mut db));
    assert_eq!(Some(Bytes::from("v1")), db.get("k"));
}

#[test]
fn set_xx_on_an_absent_key_writes_nothing() {
    let mut db = new_db();
    assert_eq!(text("OK"), set(vec![text("k"), text("v1"), text("XX")]).execute(&mut db));
    assert_eq!(None, db.get("k"));
}

#[test]
fn set_xx_get_replies_with_the_value_held_before() {
    let mut db = new_db();
    db.insert("k".to_string(), Bytes::from("v1"));
    let reply = set(vec![text("k"), text("v2"), text("XX"), text("GET")]).execute(&mut db);
    assert_eq!(bulk("v1"), reply);
    assert_eq!(Some(Bytes::from("v2")), db.get("k"));
}

#[test]
fn set_get_on_a_fresh_key_replies_with_null_and_writes() {
    let mut db = new_db();
    let reply = set(vec![text("k"), text("v"), text("GET")]).execute(&mut db);
    assert_eq!(Frame::Null, reply);
    assert_eq!(Some(Bytes::from("v")), db.get("k"));
}

#[test]
fn set_nx_get_replies_with_the_value_that_stays() {
    let mut db = new_db();
    db.insert("k".to_string(), Bytes::from("v1"));
    let reply = set(vec![text("k"), text("v2"), text("NX"), text("GET")]).execute(&mut db);
    assert_eq!(bulk("v1"), reply);
    assert_eq!(Some(Bytes::from("v1")), db.get("k"));
}

#[test]
fn unknown_replies_with_an_error_line_that_names_the_command() {
    let mut db = new_db();
    db.insert("k".to_string(), Bytes::from("v"));
    let reply = Unknown { name: "FOO".to_string() }.execute(&mut db);
    assert_eq!(Frame::SimpleError("Command \"FOO\" not implemented".to_string()), reply);
    assert_eq!(Some(Bytes::from("v")), db.get("k"));
}

#[test]
fn command_is_chosen_by_its_name() {
    assert!(matches!(Command::try_from(&[bulk("GET"), bulk("k")]), Ok(Command::Get(_))));
    assert!(matches!(Command::try_from(&[bulk("MGET")]), Ok(Command::MGet(_))));
    assert!(matches!(
        Command::try_from(&[text("SET"), bulk("k"), bulk("v")]),
        Ok(Command::SetValue(_))
    ));
    match Command::try_from(&[bulk("FOO"), bulk("bar")]) {
        Ok(Command::Unknown(unknown)) => assert_eq!("FOO", unknown.name),
        other => panic!("{:?}", other),
    }
}

#[test]
fn command_names_are_case_sensitive() {
    for name in ["get", "Get", "set", "mget", "GET ", ""] {
        match Command::try_from(&[bulk(name), bulk("k"), bulk("v")]) {
            Ok(Command::Unknown(unknown)) => assert_eq!(name, unknown.name),
            other => panic!("{:?}", other),
        }
    }
}

#[test]
fn command_reads_its_arguments_after_the_name() {
    match Command::try_from(&[bulk("GET"), bulk("k")]) {
        Ok(Command::Get(get)) => assert_eq!("k", get.key),
        other => panic!("{:?}", other),
    }
    match Command::try_from(&[bulk("MGET"), bulk("a"), bulk("b")]) {
        Ok(Command::MGet(mget)) => assert_eq!(vec!["a".to_string(), "b".to_string()], mget.keys),
        other => panic!("{:?}", other),
    }
    match Command::try_from(&[bulk("SET"), bulk("k"), bulk("v"), bulk("XX")]) {
        Ok(Command::SetValue(set)) => {
            assert_eq!("k", set.key);
            assert_eq!(Bytes::from("v"), set.value);
            assert_eq!(Replacement::OnlyOverride, set.replacement);
        }
        other => panic!("{:?}", other),
    }
}

#[test]
fn command_needs_a_name() {
    assert!(protocol_error(Command::try_from(&[]), "Lack of command name"));
    assert!(protocol_error(Command::try_from(&[Frame::Integer(1)]), "Lack of command name"));
    assert!(protocol_error(
        Command::try_from(&[Frame::Bulk(Bytes::from_static(b"\xff"))]),
        "Lack of command name"
    ));
}

#[test]
fn command_fails_where_its_arguments_are_missing() {
    assert!(protocol_error(
        Command::try_from(&[bulk("GET")]),
        "protocol error; unexpected end of request"
    ));
    assert!(protocol_error(
        Command::try_from(&[bulk("SET"), bulk("k")]),
        "protocol error; unexpected end of request"
    ));
}

#[test]
fn command_runs_against_the_store() {
    let mut db = new_db();
    let set = Command::try_from(&[bulk("SET"), bulk("k"), bulk("v")]).unwrap();
    assert_eq!(text("OK"), set.execute(&mut db));
    let get = Command::try_from(&[bulk("GET"), bulk("k")]).unwrap();
    assert_eq!(bulk("v"), get.execute(&mut db));
    let mget = Command::try_from(&[bulk("MGET"), bulk("k"), bulk("x")]).unwrap();
    assert_eq!(Frame::Array(vec![bulk("v"), Frame::Null]), mget.execute(&mut db));
    let unknown = Command::try_from(&[bulk("DEL"), bulk("k")]).unwrap();
    assert_eq!(
        Frame::SimpleError("Command \"DEL\" not implemented".to_string()),
        unknown.execute(&mut db)
    );
    assert_eq!(Some(Bytes::from("v")), db.get("k"));
}

#[test]
fn the_default_replacement_is_always() {
    assert_eq!(Replacement::Always, Replacement::default());
}

#[test]
fn time_spans_count_in_nanoseconds() {
    assert_eq!(TimeSpan { nanos: 3_000_000_000 }, TimeSpan::from_secs(3));
    assert_eq!(TimeSpan { nanos: 3_000_000 }, TimeSpan::from_millis(3));
    assert_eq!(TimeSpan { nanos: 3_000_000_004 }, TimeSpan::from_parts(3, 4));
    assert_eq!(
        Some(TimeSpan { nanos: 2_997_000_000 }),
        TimeSpan::from_secs(3).checked_sub(TimeSpan::from_millis(3))
    );
    assert_eq!(Some(TimeSpan { nanos: 0 }), TimeSpan::from_secs(3).checked_sub(TimeSpan::from_secs(3)));
    assert_eq!(None, TimeSpan::from_millis(3).checked_sub(TimeSpan::from_secs(3)));
}

#[test]
fn the_clock_stands_after_the_year_2020() {
    let now = unix_time();
    assert!(now.nanos > 1_577_836_800 * 1_000_000_000);
    let later = unix_time();
    assert!(later.nanos + 60 * 1_000_000_000 > now.nanos);
}

#[test]
fn the_store_returns_what_was_held_before() {
    let mut db = new_db();
    assert_eq!(None, db.get("k"));
    assert_eq!(None, db.insert("k".to_string(), Bytes::from("v1")));
    assert_eq!(Some(Bytes::from("v1")), db.insert("k".to_string(), Bytes::from("v2")));
    assert_eq!(Some(Bytes::from("v2")), db.get("k"));
    assert_eq!(None, db.get("K"));
}

#[test]
fn a_reading_of_the_clock_counts_seconds_and_nanoseconds() {
    assert_eq!(TimeSpan { nanos: 0 }, elapsed(None));
    assert_eq!(TimeSpan { nanos: 0 }, elapsed(Some((0, 0))));
    assert_eq!(TimeSpan { nanos: 7_000_000_005 }, elapsed(Some((7, 5))));
    assert_eq!(
        TimeSpan { nanos: 18446744073709551615_999_999_999 },
        elapsed(Some((u64::MAX, 999_999_999)))
    );
}
