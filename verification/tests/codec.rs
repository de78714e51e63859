use ytrs::codec::Command;
use ytrs::codec::Message;
use ytrs::codec::SeekMode;
use ytrs::codec::decode_command;
use ytrs::codec::decode_line;
use ytrs::codec::encode_command;
use ytrs::json::Value;

fn roundtrip(cmd: Command, id: u64) {
    let line = encode_command(&cmd, id);
    let back = decode_command(&line);
    assert_eq!(back, Some((cmd, id)));
}

#[test]
fn encode_loadfile_exact() {
    let cmd = Command::LoadFile { target: "https://example.com/v".to_string() };
    let line = encode_command(&cmd, 7);
    assert_eq!(
        line,
        "{\"command\":[\"loadfile\",\"https://example.com/v\"],\"request_id\":7}"
    );
}

#[test]
fn encode_set_property_bool_exact() {
    let cmd = Command::SetPropertyBool { name: "pause".to_string(), value: true };
    let line = encode_command(&cmd, 2);
    assert_eq!(line, "{\"command\":[\"set_property\",\"pause\",true],\"request_id\":2}");
}

#[test]
fn encode_set_property_int_exact() {
    let cmd = Command::SetPropertyInt { name: "volume".to_string(), value: 95 };
    let line = encode_command(&cmd, 3);
    assert_eq!(line, "{\"command\":[\"set_property\",\"volume\",95],\"request_id\":3}");
}

#[test]
fn encode_seek_exact() {
    let cmd = Command::Seek { seconds: -5, mode: SeekMode::Relative };
    let line = encode_command(&cmd, 4);
    assert_eq!(line, "{\"command\":[\"seek\",-5,\"relative\"],\"request_id\":4}");
}

#[test]
fn encode_add_exact() {
    let cmd = Command::Add { name: "volume".to_string(), delta: 5 };
    let line = encode_command(&cmd, 5);
    assert_eq!(line, "{\"command\":[\"add\",\"volume\",5],\"request_id\":5}");
}

#[test]
fn encode_observe_exact() {
    let cmd = Command::ObserveProperty { observer_id: 1, name: "volume".to_string() };
    let line = encode_command(&cmd, 6);
    assert_eq!(line, "{\"command\":[\"observe_property\",1,\"volume\"],\"request_id\":6}");
}

#[test]
fn encode_quit_exact() {
    let line = encode_command(&Command::Quit, 8);
    assert_eq!(line, "{\"command\":[\"quit\"],\"request_id\":8}");
}

#[test]
fn encode_escapes_quote_and_backslash() {
    let cmd = Command::LoadFile { target: "a\"b\\c".to_string() };
    let line = encode_command(&cmd, 1);
    assert_eq!(line, "{\"command\":[\"loadfile\",\"a\\\"b\\\\c\"],\"request_id\":1}");
}

#[test]
fn encode_escapes_control_chars() {
    let cmd = Command::LoadFile { target: "x\ny\u{1}".to_string() };
    let line = encode_command(&cmd, 1);
    assert_eq!(line, "{\"command\":[\"loadfile\",\"x\\ny\\u0001\"],\"request_id\":1}");
}

#[test]
fn roundtrip_every_command_shape() {
    roundtrip(Command::LoadFile { target: "https://example.com/watch?v=abc".to_string() }, 1);
    roundtrip(Command::SetPropertyBool { name: "pause".to_string(), value: false }, 2);
    roundtrip(Command::SetPropertyInt { name: "volume".to_string(), value: 130 }, 3);
    roundtrip(Command::SetPropertyInt { name: "volume".to_string(), value: i64::MIN }, 4);
    roundtrip(Command::Seek { seconds: 5, mode: SeekMode::Relative }, 5);
    roundtrip(Command::Seek { seconds: -5, mode: SeekMode::Absolute }, 6);
    roundtrip(Command::Add { name: "volume".to_string(), delta: -5 }, 7);
    roundtrip(Command::ObserveProperty { observer_id: 42, name: "playback-time".to_string() }, 8);
    roundtrip(Command::Quit, u64::MAX);
}

#[test]
fn roundtrip_awkward_strings() {
    roundtrip(Command::LoadFile { target: String::new() }, 1);
    roundtrip(Command::LoadFile { target: "sp ace\t\"q\"\\\n\r\u{0}\u{1f}".to_string() }, 2);
    roundtrip(Command::LoadFile { target: "émoji 🎵 and 日本語".to_string() }, 3);
    roundtrip(Command::SetPropertyBool { name: "weird:{}[],\"name\"".to_string(), value: true }, 4);
}

#[test]
fn decode_response_success() {
    let m = decode_line("{\"request_id\":3,\"error\":\"success\",\"data\":null}").unwrap();
    match m {
        Message::Response(r) => {
            assert_eq!(r.request_id, 3);
            assert_eq!(r.error, "success");
            assert_eq!(r.data, Value::Null);
        }
        _ => panic!("expected a response"),
    }
}

#[test]
fn decode_response_number_data() {
    let m = decode_line("{\"request_id\":9,\"error\":\"success\",\"data\":12.5}").unwrap();
    match m {
        Message::Response(r) => {
            assert_eq!(r.data, Value::Num("12.5".to_string()));
        }
        _ => panic!("expected a response"),
    }
}

#[test]
fn decode_response_error_status() {
    let m = decode_line("{\"request_id\":4,\"error\":\"invalid parameter\",\"data\":null}")
        .unwrap();
    match m {
        Message::Response(r) => {
            assert_eq!(r.error, "invalid parameter");
        }
        _ => panic!("expected a response"),
    }
}

#[test]
fn decode_event_with_observer() {
    let m = decode_line(
        "{\"event\":\"property-change\",\"id\":1,\"name\":\"volume\",\"data\":100}",
    )
    .unwrap();
    match m {
        Message::Event(e) => {
            assert_eq!(e.name, "property-change");
            assert_eq!(e.observer_id, Some(1));
            assert_eq!(e.prop_name, Some("volume".to_string()));
            assert_eq!(e.data, Value::Num("100".to_string()));
        }
        _ => panic!("expected an event"),
    }
}

#[test]
fn decode_event_without_observer() {
    let m = decode_line("{\"event\":\"file-loaded\"}").unwrap();
    match m {
        Message::Event(e) => {
            assert_eq!(e.name, "file-loaded");
            assert_eq!(e.observer_id, None);
            assert_eq!(e.prop_name, None);
            assert_eq!(e.data, Value::Null);
        }
        _ => panic!("expected an event"),
    }
}

#[test]
fn decode_rejects_malformed_lines() {
    assert!(decode_line("").is_none());
    assert!(decode_line("garbage").is_none());
    assert!(decode_line("{}").is_none());
    assert!(decode_line("{\"foo\":1}").is_none());
    assert!(decode_line("{\"request_id\":1}").is_none());
    assert!(decode_line("{\"request_id\":-1,\"error\":\"success\"}").is_none());
    assert!(decode_line("{\"request_id\":1,\"error\":\"success\",\"data\":[1,2]}").is_none());
    assert!(decode_line("{\"event\":\"x\",\"id\":\"oops\"}").is_none());
    assert!(decode_line("{\"request_id\":1,\"error\":\"success\"").is_none());
}

#[test]
fn decode_tolerates_unknown_scalar_fields() {
    let m = decode_line(
        "{\"extra\":true,\"request_id\":5,\"error\":\"success\",\"data\":\"ok\"}",
    )
    .unwrap();
    match m {
        Message::Response(r) => {
            assert_eq!(r.request_id, 5);
            assert_eq!(r.data, Value::Str("ok".to_string()));
        }
        _ => panic!("expected a response"),
    }
}

#[test]
fn decode_unescapes_strings() {
    let m = decode_line(
        "{\"request_id\":1,\"error\":\"success\",\"data\":\"a\\\"b\\\\c\\n\\t\\u0007\\b\\f\"}",
    )
    .unwrap();
    match m {
        Message::Response(r) => {
            assert_eq!(
                r.data,
                Value::Str("a\"b\\c\n\t\u{7}\u{8}\u{c}".to_string())
            );
        }
        _ => panic!("expected a response"),
    }
}
