use std::io::Write;

use libflate::{gzip, zlib};
use serde_json::Value as Json;

use sqelf::process::clef::{self, Decimal, Timestamp, MAX_SECS};
use sqelf::process::gelf::{self, ERR_INVALID_FIELD, ERR_MISSING_SHORT_MESSAGE};
use sqelf::process::json::{parse_object, parse_u64, u64_text, Fields, Value};
use sqelf::process::str::{same_text, Str};
use sqelf::process::{
    build, find_first, level_str, override_value, strip_underscore, Config, Process,
    ERR_PARSE_PREFIX,
};
use sqelf::receive::{Gelf, Message};

fn json(text: &str) -> Json {
    serde_json::from_str(text).expect("failed to read json")
}

fn event_json(clef: &clef::Message) -> Json {
    serde_json::from_str(&clef.to_json()).expect("failed to read clef")
}

fn read(process: &Process, gelf: &str) -> Json {
    let line = process
        .read_as_clef(gelf.as_bytes())
        .expect("failed to read gelf event");

    assert!(line.ends_with('\n'));
    assert_eq!(1, line.matches('\n').count());

    json(&line)
}

fn at(secs: u64, nanos: u32) -> Timestamp {
    Timestamp::new(secs, nanos).expect("failed to build timestamp")
}

#[test]
fn mod_from_gelf_msg() {
    let gelf = json(
        r#"{
            "version": "1.1",
            "host": "example.org",
            "short_message": "A short message that helps you identify what is going on",
            "full_message": "Backtrace here",
            "timestamp": 1385053862.3072,
            "level": 1,
            "_user_id": 9001,
            "_some_info": "foo",
            "_some_env_var": "bar"
        }"#,
    );

    let process = Process::new(Default::default());

    process
        .with_clef(gelf.to_string().as_bytes(), |clef| {
            if let Str::Owned(_) = clef.message.as_ref().expect("missing message") {
                panic!("expected a borrowed message string");
            }

            let expected = json(
                r#"{
                    "@t": "2013-11-21T17:11:02.307200000Z",
                    "@l": "alert",
                    "@m": "A short message that helps you identify what is going on",
                    "@x": "Backtrace here",
                    "some_env_var": "bar",
                    "some_info": "foo",
                    "user_id": 9001,
                    "host": "example.org"
                }"#,
            );

            let clef = event_json(&clef);

            assert_eq!(expected, clef);

            Ok(())
        })
        .expect("failed to read gelf event");
}

#[test]
fn from_gelf_inner_json() {
    let clef = json(
        r#"{
            "@l": "info",
            "@mt": "A short message that helps {user_id} identify what is going on",
            "@t": "2013-11-21T17:11:02Z",
            "@x": "Backtrace here",
            "user_id": 4000
        }"#,
    );

    let mut gelf = json(
        r#"{
            "version": "1.1",
            "host": "example.org",
            "level": 1,
            "_user_id": 9001,
            "_some_info": "foo",
            "_some_env_var": "bar",
            "_container_id": "abcdefghijklmnopqrstuv",
            "_command": "run",
            "_container_name": "test-container",
            "_image_name": "test/image",
            "_image_id": "abcdefghijklmnopqrstuv",
            "_tag": "latest"
        }"#,
    );
    gelf.as_object_mut()
        .unwrap()
        .insert("short_message".to_owned(), Json::String(clef.to_string()));

    let process = Process::new(Default::default());

    process
        .with_clef(gelf.to_string().as_bytes(), |clef| {
            let expected = json(
                r#"{
                    "@l": "info",
                    "@mt": "A short message that helps {user_id} identify what is going on",
                    "@t": "2013-11-21T17:11:02Z",
                    "@x": "Backtrace here",
                    "some_env_var": "bar",
                    "some_info": "foo",
                    "user_id": 9001,
                    "__user_id": 4000,
                    "container_id": "abcdefghijklmnopqrstuv",
                    "command": "run",
                    "container_name": "test-container",
                    "image_name": "test/image",
                    "image_id": "abcdefghijklmnopqrstuv",
                    "tag": "latest",
                    "host": "example.org"
                }"#,
            );

            let clef = event_json(&clef);

            assert_eq!(expected, clef);

            Ok(())
        })
        .expect("failed to read gelf event");
}

#[test]
fn from_gelf_inner_json_fallback() {
    let clef = json(
        r#"{
            "message": "A short message that helps {user_id} identify what is going on"
        }"#,
    );

    let mut gelf = json(
        r#"{
            "version": "1.1",
            "timestamp": 1385053862.3072,
            "host": "example.org",
            "level": 6
        }"#,
    );
    gelf.as_object_mut()
        .unwrap()
        .insert("short_message".to_owned(), Json::String(clef.to_string()));

    let process = Process::new(Default::default());

    process
        .with_clef(gelf.to_string().as_bytes(), |clef| {
            let expected = json(
                r#"{
                    "@l": "info",
                    "@m": "A short message that helps {user_id} identify what is going on",
                    "@t": "2013-11-21T17:11:02.307200000Z",
                    "host": "example.org",
                    "message": "A short message that helps {user_id} identify what is going on"
                }"#,
            );

            let clef = event_json(&clef);

            assert_eq!(expected, clef);

            Ok(())
        })
        .expect("failed to read gelf event");
}

#[test]
fn include_raw_payload() {
    let gelf = json(
        r#"{
            "version": "1.1",
            "host": "example.org",
            "short_message": "A short message that helps you identify what is going on",
            "full_message": "Backtrace here",
            "timestamp": 1385053862.04736,
            "level": 1,
            "_user_id": 9001,
            "_some_info": "foo",
            "_some_env_var": "bar"
        }"#,
    );

    let process = Process::new(Config {
        include_raw_payload: true,
        ..Default::default()
    });

    process
        .with_clef(gelf.to_string().as_bytes(), |clef| {
            if let Str::Owned(_) = clef.message.as_ref().expect("missing message") {
                panic!("expected a borrowed message string");
            }

            let mut expected = json(
                r#"{
                    "@t": "2013-11-21T17:11:02.047360000Z",
                    "@l": "alert",
                    "@m": "A short message that helps you identify what is going on",
                    "@x": "Backtrace here",
                    "some_env_var": "bar",
                    "some_info": "foo",
                    "user_id": 9001,
                    "host": "example.org"
                }"#,
            );
            expected
                .as_object_mut()
                .unwrap()
                .insert("raw_payload".to_owned(), Json::String(gelf.to_string()));

            let clef = event_json(&clef);

            assert_eq!(expected, clef);

            Ok(())
        })
        .expect("failed to read gelf event");
}

#[test]
fn invalid_json_includes_some_raw_content() {
    let gelf = "this is definitely not json";

    let process = Process::new(Config {
        include_raw_payload: true,
        ..Default::default()
    });

    let err = process
        .with_clef(gelf.as_bytes(), |_| unreachable!())
        .expect_err("expected parsing to fail");

    assert!(err.to_string().contains(gelf));
    assert_eq!(format!("{}{}", ERR_PARSE_PREFIX, gelf), err.to_string());
}

#[test]
fn simple_message_becomes_an_info_event() {
    let process = build(Config::default());

    let clef = read(
        &process,
        r#"{"version":"1.1","host":"example.org","short_message":"bar"}"#,
    );

    assert_eq!("bar", clef["@m"]);
    assert_eq!("info", clef["@l"]);
    assert_eq!("example.org", clef["host"]);
    assert!(clef.get("@mt").is_none());
    assert!(clef.get("@x").is_none());
    assert!(clef["@t"].is_string());
}

#[test]
fn level_one_with_full_message() {
    let process = build(Config::default());

    let clef = read(
        &process,
        r#"{"version":"1.1","host":"example.org","short_message":"A...","full_message":"Backtrace here","timestamp":1385053862.3072,"level":1,"_user_id":9001}"#,
    );

    assert_eq!(
        json(
            r#"{"@t":"2013-11-21T17:11:02.307200000Z","@l":"alert","@m":"A...","@x":"Backtrace here","user_id":9001,"host":"example.org"}"#
        ),
        clef
    );
}

#[test]
fn embedded_clef_goes_before_the_envelope_for_built_ins() {
    let short_message =
        r#"{"@l":"info","@mt":"helps {user_id}","@t":"2013-11-21T17:11:02Z","user_id":4000}"#;
    let mut gelf = json(r#"{"_user_id":9001,"host":"example.org","level":1}"#);
    gelf.as_object_mut().unwrap().insert(
        "short_message".to_owned(),
        Json::String(short_message.to_owned()),
    );

    let clef = read(&build(Config::default()), &gelf.to_string());

    assert_eq!("info", clef["@l"]);
    assert_eq!("2013-11-21T17:11:02Z", clef["@t"]);
    assert_eq!("helps {user_id}", clef["@mt"]);
    assert_eq!(9001, clef["user_id"]);
    assert_eq!(4000, clef["__user_id"]);
    assert_eq!("example.org", clef["host"]);
    assert!(clef.get("@m").is_none());
}

#[test]
fn levels_map_to_syslog_names() {
    let names = [
        "emerg", "alert", "crit", "err", "warning", "notice", "info", "debug", "debug",
    ];

    for (level, name) in names.iter().enumerate() {
        assert_eq!(*name, level_str(level as u8));

        let gelf = format!(r#"{{"short_message":"m","level":{}}}"#, level);
        let clef = read(&build(Config::default()), &gelf);
        assert_eq!(*name, clef["@l"]);
    }

    assert_eq!("debug", level_str(255));

    let clef = read(&build(Config::default()), r#"{"short_message":"m","level":255}"#);
    assert_eq!("debug", clef["@l"]);

    let clef = read(&build(Config::default()), r#"{"short_message":"m","level":null}"#);
    assert_eq!("info", clef["@l"]);
}

#[test]
fn a_short_message_that_is_no_clef_document_is_the_message() {
    let cases = [
        "plain text",
        "",
        " {\"@m\":\"leading space\"}",
        "{not json",
        "{\"@t\":\"yesterday\"}",
        "{\"@l\":5}",
        "{\"@m\":[\"no\",\"string\"]}",
        "[1,2,3]",
        "{\"@x\":{\"deep\":true}}",
        "{} trailing",
    ];

    for short_message in cases {
        let gelf = gelf::Message::from_entries(&vec![(
            "short_message".to_owned(),
            Value::String(short_message.to_owned()),
        )])
        .expect("failed to read gelf");

        let clef = gelf.to_clef_at(at(10, 0));

        match clef.message.as_ref().expect("missing message") {
            Str::Borrowed(text) => assert_eq!(short_message, *text),
            Str::Owned(_) => panic!("expected a borrowed message string"),
        }
        assert!(clef.message_template.is_none());
        assert_eq!(0, clef.additional.len());
    }
}

#[test]
fn an_event_without_any_message_text() {
    let clef = read(&build(Config::default()), r#"{"short_message":"{}"}"#);
    assert!(clef.get("@m").is_none());
    assert!(clef.get("@mt").is_none());

    // a substitute that is no string is none
    let clef = read(
        &build(Config::default()),
        r#"{"short_message":"{\"message\":17,\"msg\":\"hidden\"}"}"#,
    );
    assert!(clef.get("@m").is_none());
    assert_eq!(17, clef["message"]);

    let clef = read(
        &build(Config::default()),
        r#"{"short_message":"{\"msg\":\"second choice\"}"}"#,
    );
    assert_eq!("second choice", clef["@m"]);
    assert_eq!("second choice", clef["msg"]);

    // the envelope can offer the substitute too
    let clef = read(
        &build(Config::default()),
        r#"{"short_message":"{\"a\":1}","_message":"from the envelope"}"#,
    );
    assert_eq!("from the envelope", clef["@m"]);

    // both texts come from the document
    let clef = read(
        &build(Config::default()),
        r#"{"short_message":"{\"@m\":\"rendered\",\"@mt\":\"template\"}"}"#,
    );
    assert_eq!("rendered", clef["@m"]);
    assert_eq!("template", clef["@mt"]);

    // a null is a missing text
    let clef = read(
        &build(Config::default()),
        r#"{"short_message":"{\"@m\":null,\"@l\":null,\"@t\":null,\"message\":\"m\"}"}"#,
    );
    assert_eq!("m", clef["@m"]);
    assert_eq!("info", clef["@l"]);
}

#[test]
fn a_level_of_the_document_is_kept_as_it_is() {
    let clef = read(
        &build(Config::default()),
        r#"{"short_message":"{\"@l\":\"Information\",\"@m\":\"x\"}","level":3}"#,
    );

    assert_eq!("Information", clef["@l"]);
}

#[test]
fn the_full_message_is_left_out_when_it_says_the_short_one_again() {
    let clef = read(
        &build(Config::default()),
        r#"{"short_message":"same","full_message":"same"}"#,
    );
    assert!(clef.get("@x").is_none());

    let clef = read(
        &build(Config::default()),
        r#"{"short_message":"short","full_message":"long"}"#,
    );
    assert_eq!("long", clef["@x"]);

    let clef = read(
        &build(Config::default()),
        r#"{"short_message":"{\"@x\":\"inner\",\"@m\":\"m\"}","full_message":"outer"}"#,
    );
    assert_eq!("inner", clef["@x"]);
}

#[test]
fn built_in_fields_have_the_last_word() {
    let clef = read(
        &build(Config::default()),
        r#"{"short_message":"{\"host\":\"inner\",\"line\":1,\"@m\":\"m\"}","host":"outer","facility":"f","file":"main.rs","line":42}"#,
    );

    assert_eq!("outer", clef["host"]);
    assert_eq!("inner", clef["__host"]);
    assert_eq!("f", clef["facility"]);
    assert_eq!("main.rs", clef["file"]);
    assert_eq!(42, clef["line"]);
    assert_eq!(1, clef["__line"]);

    // a third one of the name writes over the shadow
    let clef = read(
        &build(Config::default()),
        r#"{"short_message":"{\"host\":\"inner\",\"@m\":\"m\"}","_host":"payload","host":"outer"}"#,
    );

    assert_eq!("outer", clef["host"]);
    assert_eq!("payload", clef["__host"]);
}

#[test]
fn properties_keep_their_values_of_any_kind() {
    let clef = read(
        &build(Config::default()),
        r#"{"short_message":"m","_n":-1.5e3,"_big":18446744073709551615,"_t":true,"_f":false,"_z":null,"_a":[1,"two",{"three":3}],"_o":{"k":[]},"_s":"quote \" and \\ and \n and é","plain":"no underscore","__two":"one left"}"#,
    );

    assert_eq!(json("-1500.0"), clef["n"]);
    assert_eq!(json("18446744073709551615"), clef["big"]);
    assert_eq!(true, clef["t"]);
    assert_eq!(false, clef["f"]);
    assert!(clef["z"].is_null());
    assert_eq!(json(r#"[1,"two",{"three":3}]"#), clef["a"]);
    assert_eq!(json(r#"{"k":[]}"#), clef["o"]);
    assert_eq!("quote \" and \\ and \n and \u{e9}", clef["s"]);
    assert_eq!("no underscore", clef["plain"]);
    assert_eq!("one left", clef["_two"]);
}

#[test]
fn timestamps_of_the_envelope() {
    let process = build(Config::default());

    let clef = read(&process, r#"{"short_message":"m","timestamp":0}"#);
    assert_eq!("1970-01-01T00:00:00Z", clef["@t"]);

    let clef = read(&process, r#"{"short_message":"m","timestamp":-5.5}"#);
    assert_eq!("1970-01-01T00:00:00Z", clef["@t"]);

    let clef = read(&process, r#"{"short_message":"m","timestamp":1385053862}"#);
    assert_eq!("2013-11-21T17:11:02Z", clef["@t"]);

    let clef = read(&process, r#"{"short_message":"m","timestamp":"1385053862.000000001"}"#);
    assert_eq!("2013-11-21T17:11:02.000000001Z", clef["@t"]);

    // what lies beyond the nanosecond is cut off
    let clef = read(&process, r#"{"short_message":"m","timestamp":"1.0000000019"}"#);
    assert_eq!("1970-01-01T00:00:01.000000001Z", clef["@t"]);

    let clef = read(&process, r#"{"short_message":"m","timestamp":253402300799.5}"#);
    assert_eq!("9999-12-31T23:59:59.500000000Z", clef["@t"]);

    // past the year 9999 the time of processing is taken
    let gelf = process
        .read_bytes(br#"{"short_message":"m","timestamp":253402300800}"#)
        .expect("failed to read gelf");
    let clef = gelf.to_clef_at(at(7, 8));
    assert_eq!(Some(at(7, 8)), clef.timestamp);

    let gelf = process
        .read_bytes(br#"{"short_message":"m"}"#)
        .expect("failed to read gelf");
    let clef = gelf.to_clef_at(at(7, 8));
    assert_eq!(Some(at(7, 8)), clef.timestamp);
    assert_eq!("1970-01-01T00:00:07.000000008Z", event_json(&clef)["@t"]);
}

#[test]
fn a_decimal_becomes_an_instant_to_the_nanosecond() {
    let decimal = |mantissa: u128, scale: u32| Decimal {
        negative: false,
        mantissa,
        scale,
    };

    assert_eq!(Some(at(0, 0)), Timestamp::from_decimal(decimal(0, 0)));
    assert_eq!(Some(at(12, 0)), Timestamp::from_decimal(decimal(12, 0)));
    assert_eq!(
        Some(at(1385053862, 307_200_000)),
        Timestamp::from_decimal(decimal(13850538623072, 4))
    );
    assert_eq!(
        Some(at(1, 999_999_999)),
        Timestamp::from_decimal(decimal(1_999_999_999, 9))
    );
    assert_eq!(
        Some(at(1, 999_999_999)),
        Timestamp::from_decimal(decimal(19_999_999_999, 10))
    );
    assert_eq!(
        Some(at(0, 0)),
        Timestamp::from_decimal(decimal(9, 10))
    );
    assert_eq!(
        Some(at(7, 922_816_251)),
        Timestamp::from_decimal(decimal(79_228_162_514_264_337_593_543_950_335, 28))
    );
    assert_eq!(Some(at(0, 0)), Timestamp::from_decimal(decimal(5, u32::MAX)));
    assert_eq!(
        Some(at(MAX_SECS - 1, 999_999_999)),
        Timestamp::from_decimal(decimal(253_402_300_799_999_999_999, 9))
    );
    assert_eq!(None, Timestamp::from_decimal(decimal(253_402_300_800, 0)));
    assert_eq!(None, Timestamp::from_decimal(decimal(u128::MAX, 0)));
    assert_eq!(None, Timestamp::from_decimal(decimal(u128::MAX, 8)));
    assert_eq!(
        Some(at(0, 0)),
        Timestamp::from_decimal(Decimal {
            negative: true,
            mantissa: 5,
            scale: 1
        })
    );
}

#[test]
fn a_timestamp_is_read_back_from_its_text() {
    let instants = [
        at(0, 0),
        at(0, 1),
        at(1385053862, 307_200_000),
        at(1385053862, 0),
        at(951_782_400, 999_999_999),
        at(MAX_SECS - 1, 999_999_999),
    ];

    for instant in instants {
        let text = instant.to_rfc3339();
        let back = Timestamp::try_parse_rfc3339(&text).expect("failed to parse timestamp");

        assert_eq!(instant, back);
        assert_eq!(instant.secs(), back.secs());
        assert_eq!(instant.nanos(), back.nanos());
    }

    assert_eq!("1970-01-01T00:00:00Z", Timestamp::epoch().to_rfc3339());
    assert_eq!("2013-11-21T17:11:02.307200000Z", at(1385053862, 307_200_000).to_rfc3339());
    assert_eq!(
        Some(at(1385053862, 0)),
        Timestamp::try_parse_rfc3339("2013-11-21T17:11:02Z")
    );
    assert_eq!(
        Some(at(1385053862, 120_000_000)),
        Timestamp::try_parse_rfc3339("2013-11-21T17:11:02.12+00:00")
    );
    assert_eq!(None, Timestamp::try_parse_rfc3339("2013-11-21 17:11:02"));
    assert_eq!(None, Timestamp::try_parse_rfc3339("1969-12-31T23:59:59Z"));
    assert_eq!(None, Timestamp::try_parse_rfc3339(""));

    assert_eq!(None, Timestamp::new(MAX_SECS, 0));
    assert_eq!(None, Timestamp::new(0, 1_000_000_000));

    let now = Timestamp::now();
    assert!(now.secs() > 1_600_000_000);
}

#[test]
fn envelopes_that_are_refused() {
    let process = build(Config::default());

    let err = process
        .read_bytes(br#"{"host":"example.org"}"#)
        .expect_err("expected the envelope to be refused");
    assert_eq!(ERR_MISSING_SHORT_MESSAGE, err.to_string());

    let refused = [
        r#"{"short_message":null}"#,
        r#"{"short_message":5}"#,
        r#"{"short_message":"m","host":5}"#,
        r#"{"short_message":"m","version":1.1}"#,
        r#"{"short_message":"m","full_message":[]}"#,
        r#"{"short_message":"m","facility":{}}"#,
        r#"{"short_message":"m","file":true}"#,
        r#"{"short_message":"m","level":"1"}"#,
        r#"{"short_message":"m","level":256}"#,
        r#"{"short_message":"m","level":-1}"#,
        r#"{"short_message":"m","level":1.0}"#,
        r#"{"short_message":"m","line":4294967296}"#,
        r#"{"short_message":"m","line":"4"}"#,
        r#"{"short_message":"m","timestamp":true}"#,
        r#"{"short_message":"m","timestamp":"yesterday"}"#,
    ];

    for gelf in refused {
        let err = process
            .read_bytes(gelf.as_bytes())
            .expect_err("expected the envelope to be refused");
        assert_eq!(ERR_INVALID_FIELD, err.to_string(), "{}", gelf);
    }

    for gelf in ["", "null x", "[]", "\"text\"", "{\"short_message\":\"m\"", "{} {}"] {
        assert!(process.read_bytes(gelf.as_bytes()).is_err(), "{}", gelf);
    }

    let accepted = process
        .read_bytes(
            br#" {"short_message":"m","host":null,"version":null,"full_message":null,"facility":null,"file":null,"level":null,"line":null,"timestamp":null,"line":4294967295,"level":255} "#,
        )
        .expect("failed to read gelf");
    assert_eq!(Some(255), accepted.level);
    assert_eq!(Some(4294967295), accepted.line);
    assert!(accepted.host.is_none());
    assert!(accepted.timestamp.is_none());
    assert!(accepted.additional.is_empty());
}

#[test]
fn the_raw_payload_gives_way_to_a_property_of_its_name() {
    let process = build(Config {
        include_raw_payload: true,
    });

    let clef = read(&process, r#"{"short_message":"m","raw_payload":"mine"}"#);
    assert_eq!("mine", clef["raw_payload"]);

    let gelf = r#"{"short_message":"m","_raw_payload":"mine"}"#;
    let clef = read(&process, gelf);
    assert_eq!(gelf, clef["raw_payload"]);

    let mut message = process
        .read_bytes(br#"{"short_message":"m"}"#)
        .expect("failed to read gelf");
    assert!(!message.add("raw_payload", Value::Null));
    assert!(message.add("other", Value::Null));
    assert!(!message.add("other", Value::Bool(true)));
    assert_eq!(2, message.additional.len());
}

#[test]
fn bytes_that_are_no_utf8_are_shown_with_a_replacement() {
    let process = build(Config {
        include_raw_payload: true,
    });
    let err = process
        .read_bytes(&[b'{', 0xff])
        .expect_err("expected the payload to be refused");

    assert_eq!(format!("{}{{\u{fffd}", ERR_PARSE_PREFIX), err.to_string());
}

#[test]
fn compression_is_transparent() {
    let envelope =
        br#"{"version":"1.1","host":"example.org","short_message":"bar","timestamp":1385053862.25,"_n":1}"#;

    let mut encoder = gzip::Encoder::new(Vec::new()).unwrap();
    encoder.write_all(envelope).unwrap();
    let gzipped = encoder.finish().into_result().unwrap();

    let mut encoder = zlib::Encoder::new(Vec::new()).unwrap();
    encoder.write_all(envelope).unwrap();
    let zlibbed = encoder.finish().into_result().unwrap();

    let process = build(Config::default());
    let mut gelf = Gelf::new(Default::default());
    let mut lines = Vec::new();

    for datagram in [envelope.to_vec(), gzipped.clone(), zlibbed.clone()] {
        let msg = gelf
            .decode_at(datagram, 0)
            .expect("failed to decode message")
            .expect("missing message value");

        lines.push(process.read_as_clef(msg).expect("failed to read gelf event"));
    }

    // in chunks too
    for packed in [gzipped, zlibbed] {
        let (first, second) = packed.split_at(packed.len() / 2);
        let msg = Message::chunked(vec![first.to_vec(), second.to_vec()]).unwrap();

        lines.push(process.read_as_clef(msg).expect("failed to read gelf event"));
    }

    assert_eq!(
        json(
            r#"{"@t":"2013-11-21T17:11:02.250000000Z","@l":"info","@m":"bar","host":"example.org","n":1}"#
        ),
        json(&lines[0])
    );
    for line in &lines {
        assert_eq!(lines[0], *line);
    }
}

#[test]
fn chunks_in_another_order_give_the_same_event() {
    let envelope = br#"{"host":"foo","short_message":"bar","timestamp":1}"#;
    let (first, second) = envelope.split_at(20);

    let chunk = |seq: u8, bytes: &[u8]| {
        let mut datagram = vec![0x1e, 0x0f, 0, 0, 0, 0, 0, 0, 0, 0, seq, 2];
        datagram.extend(bytes);
        datagram
    };

    let process = build(Config::default());
    let mut lines = Vec::new();

    for order in [[0u8, 1u8], [1u8, 0u8]] {
        let mut gelf = Gelf::new(Default::default());
        let mut emitted = Vec::new();

        for seq in order {
            let bytes = if seq == 0 { first } else { second };
            emitted.extend(
                gelf.decode_at(chunk(seq, bytes), 0)
                    .expect("failed to decode message"),
            );
        }

        assert_eq!(1, emitted.len());
        lines.push(
            process
                .read_as_clef(emitted.remove(0))
                .expect("failed to read gelf event"),
        );
    }

    assert_eq!(lines[0], lines[1]);
    assert_eq!("bar", json(&lines[0])["@m"]);
}

#[test]
fn a_message_that_cannot_be_decompressed_is_an_error() {
    let msg = Message::single(
        Some(sqelf::receive::Compression::Gzip),
        vec![0x1f, 0x8b, 0x08, 0x00],
    )
    .unwrap();

    let process = build(Config::default());

    assert!(process.read_as_clef(msg).is_err());

    let msg = Message::single(
        Some(sqelf::receive::Compression::Gzip),
        vec![0x1f, 0x8b, 0x08, 0x00],
    )
    .unwrap();
    assert!(process.with_clef(msg, |_| unreachable!()).is_err());
}

#[test]
fn the_outcome_of_the_callback_is_handed_on() {
    let process = build(Config::default());

    let r = process.with_clef(&br#"{"short_message":"m"}"#[..], |_| {
        Err(sqelf::error::Error::msg("from the callback"))
    });

    assert_eq!("from the callback", r.unwrap_err().to_string());
}

#[test]
fn strings_are_written_as_json() {
    let text = |s: &str| Value::String(s.to_owned()).to_json();

    assert_eq!("\"plain\"", text("plain"));
    assert_eq!("\"a\\\"b\\\\c\\nd\\u0001\"", text("a\"b\\c\nd\u{1}"));
    assert_eq!("\"\"", text(""));

    assert_eq!("null", Value::Null.to_json());
    assert_eq!("true", Value::Bool(true).to_json());
    assert_eq!("false", Value::Bool(false).to_json());
    assert_eq!("1.5", Value::Number("1.5".to_owned()).to_json());
    assert_eq!("\"a\\tb\"", text("a\tb"));
    assert_eq!("[1]", Value::Array("[1]".to_owned()).to_json());
    assert_eq!("{}", Value::Object("{}".to_owned()).to_json());

    assert_eq!(Some("text"), Value::String("text".to_owned()).as_str());
    assert_eq!(None, Value::Number("1".to_owned()).as_str());
    assert_eq!(Value::Array("[1]".to_owned()), Value::Array("[1]".to_owned()).clone());
}

#[test]
fn an_event_is_written_with_its_built_ins_first() {
    let mut event = clef::Message::from_message("the \"message\"");
    assert_eq!(
        "{\"@t\":null,\"@l\":null,\"@m\":\"the \\\"message\\\"\"}",
        event.to_json()
    );

    event.timestamp = Some(at(1, 5));
    event.level = Some(Str::Borrowed("info"));
    event.message_template = Some(Str::Owned("t".to_owned()));
    event.exception = Some(Str::Borrowed("x"));
    event.additional.insert("b".to_owned(), Value::Number("2".to_owned()));
    event.additional.insert("a".to_owned(), Value::Array("[true]".to_owned()));

    assert_eq!(
        "{\"@t\":\"1970-01-01T00:00:01.000000005Z\",\"@l\":\"info\",\"@m\":\"the \\\"message\\\"\",\"@mt\":\"t\",\"@x\":\"x\",\"b\":2,\"a\":[true]}",
        event.to_json()
    );
}

#[test]
fn objects_are_read_member_by_member() {
    let entries = parse_object(
        br#"{"s":"text","n":12,"neg":-3,"f":0.5,"e":1e21,"t":true,"z":null,"a":[1, 2],"o":{"k": "v"}}"#,
    )
    .expect("failed to read object");

    let find = |name: &str| {
        entries
            .iter()
            .find(|(k, _)| k == name)
            .map(|(_, v)| v.clone())
            .expect("missing member")
    };

    assert_eq!(9, entries.len());
    assert_eq!(Value::String("text".to_owned()), find("s"));
    assert_eq!(Value::Number("12".to_owned()), find("n"));
    assert_eq!(Value::Number("-3".to_owned()), find("neg"));
    assert_eq!(Value::Number("0.5".to_owned()), find("f"));
    assert_eq!(Value::Number("1e+21".to_owned()), find("e"));
    assert_eq!(Value::Bool(true), find("t"));
    assert_eq!(Value::Null, find("z"));
    assert_eq!(Value::Array("[1,2]".to_owned()), find("a"));
    assert_eq!(Value::Object("{\"k\":\"v\"}".to_owned()), find("o"));

    assert!(parse_object(b"[]").is_err());
    assert!(parse_object(b"{\"a\":}").is_err());
    assert!(!parse_object(b"nonsense").unwrap_err().to_string().is_empty());
    assert!(parse_object(b"{}").unwrap().is_empty());
    assert!(parse_object(b"null").is_err());
}

#[test]
fn decimals_are_read_from_numbers_and_strings() {
    let timestamp = |value: &str| {
        let gelf = format!(r#"{{"short_message":"m","timestamp":{}}}"#, value);

        build(Config::default())
            .read_bytes(gelf.as_bytes())
            .map(|gelf| gelf.timestamp)
            .map_err(|err| err.to_string())
    };
    let decimal = |negative: bool, mantissa: u128, scale: u32| {
        Ok(Some(Decimal {
            negative,
            mantissa,
            scale,
        }))
    };

    assert_eq!(decimal(false, 13850538623072, 4), timestamp("1385053862.3072"));
    assert_eq!(decimal(false, 12, 0), timestamp("12"));
    assert_eq!(decimal(true, 15, 1), timestamp("-1.5"));
    assert_eq!(decimal(false, 125, 2), timestamp("\"1.25\""));
    assert_eq!(decimal(false, 1000000000000000000000, 0), timestamp("1e21"));
    assert_eq!(Ok(None), timestamp("null"));
    assert_eq!(Err(ERR_INVALID_FIELD.to_owned()), timestamp("true"));
    assert_eq!(Err(ERR_INVALID_FIELD.to_owned()), timestamp("\"one\""));
    assert_eq!(Err(ERR_INVALID_FIELD.to_owned()), timestamp("\"\""));
}

#[test]
fn whole_numbers_are_read_from_digits_alone() {
    assert_eq!(Some(0), parse_u64("0"));
    assert_eq!(Some(255), parse_u64("255"));
    assert_eq!(Some(7), parse_u64("007"));
    assert_eq!(Some(u64::MAX), parse_u64("18446744073709551615"));
    assert_eq!(None, parse_u64("18446744073709551616"));
    assert_eq!(None, parse_u64("99999999999999999999999"));
    assert_eq!(None, parse_u64(""));
    assert_eq!(None, parse_u64("-1"));
    assert_eq!(None, parse_u64("1.0"));
    assert_eq!(None, parse_u64("1e2"));
    assert_eq!(None, parse_u64("12a"));
    assert_eq!(None, parse_u64("a12"));
    assert_eq!(None, parse_u64("٣"));

    assert_eq!("0", u64_text(0));
    assert_eq!("9", u64_text(9));
    assert_eq!("10", u64_text(10));
    assert_eq!("4294967295", u64_text(4294967295));
    assert_eq!("18446744073709551615", u64_text(u64::MAX));
}

#[test]
fn fields_are_a_map_that_keeps_its_order() {
    let mut fields = Fields::new();

    assert_eq!(0, fields.len());
    assert!(fields.get("a").is_none());

    assert_eq!(None, fields.insert("a".to_owned(), Value::Null));
    assert_eq!(None, fields.insert("b".to_owned(), Value::Bool(true)));
    assert_eq!(
        Some(Value::Null),
        fields.insert("a".to_owned(), Value::Bool(false))
    );

    assert_eq!(2, fields.len());
    assert_eq!("a", fields.name(0));
    assert_eq!(&Value::Bool(false), fields.value(0));
    assert_eq!("b", fields.name(1));
    assert_eq!(Some(&Value::Bool(true)), fields.get("b"));
    assert!(fields.contains_key("a"));
    assert!(!fields.contains_key("c"));
}

#[test]
fn a_property_that_gives_way_is_kept_under_its_shadow() {
    let mut fields = Fields::new();

    override_value(&mut fields, "host", Value::String("first".to_owned()));
    assert_eq!(1, fields.len());

    override_value(&mut fields, "host", Value::String("second".to_owned()));
    assert_eq!(Some(&Value::String("second".to_owned())), fields.get("host"));
    assert_eq!(Some(&Value::String("first".to_owned())), fields.get("__host"));

    override_value(&mut fields, "host", Value::String("third".to_owned()));
    assert_eq!(Some(&Value::String("third".to_owned())), fields.get("host"));
    assert_eq!(Some(&Value::String("second".to_owned())), fields.get("__host"));
    assert_eq!(2, fields.len());

    assert_eq!(
        Some(&Value::String("third".to_owned())),
        find_first(&fields, &["missing", "host", "__host"])
    );
    assert_eq!(None, find_first(&fields, &["missing", "gone"]));
    assert_eq!(None, find_first(&fields, &[]));
}

#[test]
fn one_underscore_is_taken_off_a_name() {
    assert_eq!("user_id", strip_underscore("_user_id"));
    assert_eq!("user_id", strip_underscore("user_id"));
    assert_eq!("_twice", strip_underscore("__twice"));
    assert_eq!("", strip_underscore("_"));
    assert_eq!("", strip_underscore(""));
    assert_eq!("é", strip_underscore("_é"));
}

#[test]
fn strings_compare_by_their_characters() {
    assert!(same_text("a", "a"));
    assert!(!same_text("a", "b"));
    assert!(same_text("", ""));

    assert!(Str::Borrowed("text") == Str::Owned("text".to_owned()));
    assert!(Str::Borrowed("text") != Str::Borrowed("other"));
    assert_eq!("text", Str::Owned("text".to_owned()).as_ref());
    assert_eq!("text", Str::Borrowed("text").to_string());
    assert!(Str::Borrowed("text").is_borrowed());
    assert!(!Str::Owned(String::new()).is_borrowed());
}

#[test]
fn an_embedded_document_is_read_only_behind_a_brace() {
    assert!(clef::Message::maybe_from_json("plain").is_none());
    assert!(clef::Message::maybe_from_json("").is_none());
    assert!(clef::Message::maybe_from_json(" {}").is_none());
    assert!(clef::Message::maybe_from_json("{").is_none());

    let event = clef::Message::maybe_from_json(
        r#"{"@t":"2013-11-21T17:11:02Z","@l":"warn","@m":"m","@mt":"mt","@x":"x","p":1}"#,
    )
    .expect("missing event");

    assert_eq!(Some(at(1385053862, 0)), event.timestamp);
    assert_eq!("warn", event.level.unwrap().as_ref());
    assert_eq!("m", event.message.unwrap().as_ref());
    assert_eq!("mt", event.message_template.unwrap().as_ref());
    assert_eq!("x", event.exception.unwrap().as_ref());
    assert_eq!(Some(&Value::Number("1".to_owned())), event.additional.get("p"));
    assert_eq!(1, event.additional.len());
}

#[test]
fn a_reading_of_the_clock_becomes_an_instant() {
    assert_eq!(at(5, 7), Timestamp::from_reading(Some((5, 7))));
    assert_eq!(at(0, 0), Timestamp::from_reading(None));
    assert_eq!(
        at(MAX_SECS - 1, 999_999_999),
        Timestamp::from_reading(Some((MAX_SECS - 1, 999_999_999)))
    );
    assert_eq!(at(MAX_SECS - 1, 0), Timestamp::from_reading(Some((MAX_SECS, 5))));
    assert_eq!(at(MAX_SECS - 1, 0), Timestamp::from_reading(Some((u64::MAX, 0))));
    assert_eq!(at(MAX_SECS - 1, 0), Timestamp::from_reading(Some((1, 1_000_000_000))));
}
