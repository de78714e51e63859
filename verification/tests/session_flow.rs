use ytrs::codec::Command;
use ytrs::json::Value;
use ytrs::observer::ValueKind;
use ytrs::session::IpcError;
use ytrs::session::LineOutcome;
use ytrs::session::PlaybackMode;
use ytrs::session::ReplyPoll;
use ytrs::session::Session;
use ytrs::session::SpawnOptions;
use ytrs::session::spawn_args;
use ytrs::state::ConnEvent;

fn open_session() -> Session {
    let mut s = Session::new();
    s.advance(ConnEvent::SpawnStarted);
    s.advance(ConnEvent::ConnectSucceeded);
    assert!(s.running());
    s
}

fn success_line(id: u64) -> String {
    format!("{{\"request_id\":{id},\"error\":\"success\",\"data\":null}}")
}

#[test]
fn send_refused_before_open() {
    let mut s = Session::new();
    let r = s.begin_send(&Command::Quit);
    assert_eq!(r, Err(IpcError::Disconnected));
}

#[test]
fn replies_match_their_own_request() {
    // Two commands outstanding; the answers arrive out of order and carry
    // distinct payloads; each caller receives exactly its own.
    let mut s = open_session();
    let (id1, _) = s.begin_send(&Command::SetPropertyInt {
        name: "volume".to_string(),
        value: 10,
    })
    .unwrap();
    let (id2, _) = s.begin_send(&Command::SetPropertyInt {
        name: "volume".to_string(),
        value: 20,
    })
    .unwrap();
    assert_ne!(id1, id2);
    assert_eq!(s.take_reply(id1), ReplyPoll::Waiting);
    let out = s.handle_line(&format!(
        "{{\"request_id\":{id2},\"error\":\"success\",\"data\":\"second\"}}"
    ));
    assert_eq!(out, LineOutcome::ResponseDelivered(id2));
    assert_eq!(s.take_reply(id1), ReplyPoll::Waiting);
    let out = s.handle_line(&format!(
        "{{\"request_id\":{id1},\"error\":\"success\",\"data\":\"first\"}}"
    ));
    assert_eq!(out, LineOutcome::ResponseDelivered(id1));
    assert_eq!(s.take_reply(id1), ReplyPoll::Success(Value::Str("first".to_string())));
    assert_eq!(s.take_reply(id2), ReplyPoll::Success(Value::Str("second".to_string())));
}

#[test]
fn rejected_command_surfaces_error_word() {
    let mut s = open_session();
    let (id, _) = s.begin_send(&Command::LoadFile { target: "x".to_string() }).unwrap();
    let out = s.handle_line(&format!(
        "{{\"request_id\":{id},\"error\":\"invalid parameter\",\"data\":null}}"
    ));
    assert_eq!(out, LineOutcome::ResponseDelivered(id));
    assert_eq!(s.take_reply(id), ReplyPoll::Rejected("invalid parameter".to_string()));
}

#[test]
fn unknown_response_id_is_a_warning_only() {
    let mut s = open_session();
    let (id, _) = s.begin_send(&Command::Quit).unwrap();
    let out = s.handle_line("{\"request_id\":9999,\"error\":\"success\",\"data\":null}");
    assert_eq!(out, LineOutcome::ResponseIgnored(9999));
    // The real request is still there.
    assert_eq!(s.take_reply(id), ReplyPoll::Waiting);
}

#[test]
fn duplicate_response_resolves_once() {
    let mut s = open_session();
    let (id, _) = s.begin_send(&Command::Quit).unwrap();
    assert_eq!(s.handle_line(&success_line(id)), LineOutcome::ResponseDelivered(id));
    assert_eq!(s.handle_line(&success_line(id)), LineOutcome::ResponseIgnored(id));
    assert_eq!(s.take_reply(id), ReplyPoll::Success(Value::Null));
    // And a third copy after the slot is gone is also only a warning.
    assert_eq!(s.handle_line(&success_line(id)), LineOutcome::ResponseIgnored(id));
}

#[test]
fn cancelled_request_discards_late_response() {
    let mut s = open_session();
    let (id, _) = s.begin_send(&Command::Quit).unwrap();
    s.cancel_request(id);
    assert_eq!(s.handle_line(&success_line(id)), LineOutcome::ResponseIgnored(id));
    assert_eq!(s.take_reply(id), ReplyPoll::Disconnected);
}

#[test]
fn malformed_line_changes_nothing() {
    let mut s = open_session();
    let (id, _) = s.begin_send(&Command::Quit).unwrap();
    assert_eq!(s.handle_line("not json at all"), LineOutcome::BadLine);
    assert!(s.running());
    assert_eq!(s.take_reply(id), ReplyPoll::Waiting);
}

#[test]
fn disconnect_resolves_every_outstanding_command() {
    // The terminal-error guarantee: a connection failure with three
    // commands outstanding resolves all three; none keeps waiting.
    let mut s = open_session();
    let (id1, _) = s.begin_send(&Command::Quit).unwrap();
    let (id2, _) = s.begin_send(&Command::Quit).unwrap();
    let (id3, _) = s.begin_send(&Command::Quit).unwrap();
    s.fail_connection();
    assert!(!s.running());
    assert_eq!(s.take_reply(id1), ReplyPoll::Disconnected);
    assert_eq!(s.take_reply(id2), ReplyPoll::Disconnected);
    assert_eq!(s.take_reply(id3), ReplyPoll::Disconnected);
    // An answered slot from before the failure keeps its answer.
    let mut s = open_session();
    let (ida, _) = s.begin_send(&Command::Quit).unwrap();
    let (idb, _) = s.begin_send(&Command::Quit).unwrap();
    assert_eq!(s.handle_line(&success_line(ida)), LineOutcome::ResponseDelivered(ida));
    s.fail_connection();
    assert_eq!(s.take_reply(ida), ReplyPoll::Success(Value::Null));
    assert_eq!(s.take_reply(idb), ReplyPoll::Disconnected);
}

#[test]
fn quit_is_final() {
    // After quit: running is false, stays false, and no send succeeds.
    let mut s = open_session();
    let (pending, _) = s.begin_send(&Command::Quit).unwrap();
    let quit_line = s.quit();
    let (_qid, line) = quit_line.expect("an open session sends the quit command");
    assert!(line.contains("\"quit\""));
    assert!(!s.running());
    assert_eq!(s.take_reply(pending), ReplyPoll::Disconnected);
    assert_eq!(s.begin_send(&Command::Quit), Err(IpcError::Disconnected));
    // Stray lifecycle events cannot reopen the session.
    s.advance(ConnEvent::ConnectSucceeded);
    assert!(!s.running());
    s.finish_teardown();
    assert!(!s.running());
    assert_eq!(s.begin_send(&Command::Quit), Err(IpcError::Disconnected));
    // Quitting again is safe and stays final.
    assert_eq!(s.quit(), None);
    assert!(!s.running());
}

#[test]
fn quit_from_idle_is_safe() {
    let mut s = Session::new();
    assert_eq!(s.quit(), None);
    assert!(!s.running());
    assert_eq!(s.begin_send(&Command::Quit), Err(IpcError::Disconnected));
}

#[test]
fn audio_only_session_with_observed_playback_time() {
    // Spawn arguments for audio-only mode, then a load, an observation
    // and a simulated progress event.
    let opts = SpawnOptions {
        ipc_endpoint_path: "/tmp/player.sock".to_string(),
        extra_args: vec!["--volume=50".to_string()],
    };
    let args = spawn_args(&opts, PlaybackMode::AudioOnly);
    assert_eq!(
        args,
        vec![
            "--input-ipc-server=/tmp/player.sock".to_string(),
            "--idle=yes".to_string(),
            "--no-terminal".to_string(),
            "--no-video".to_string(),
            "--volume=50".to_string(),
        ]
    );
    let video_args = spawn_args(&opts, PlaybackMode::AudioVideo);
    assert!(!video_args.contains(&"--no-video".to_string()));

    let mut s = open_session();
    let (id, line) = s.begin_send(&Command::LoadFile {
        target: "https://example.com/watch?v=abc".to_string(),
    })
    .unwrap();
    assert!(line.contains("loadfile"));
    assert_eq!(s.handle_line(&success_line(id)), LineOutcome::ResponseDelivered(id));
    assert_eq!(s.take_reply(id), ReplyPoll::Success(Value::Null));

    let (mut h, fresh) = s.observe(
        "playback-time".to_string(),
        ValueKind::Number,
        Value::Num("0.0".to_string()),
    )
    .unwrap();
    let (rid, obs_line) = fresh.expect("first observer registers a subscription");
    assert!(obs_line.contains("observe_property"));
    assert_eq!(s.handle_line(&success_line(rid)), LineOutcome::ResponseDelivered(rid));

    assert!(!s.poll_changed(&mut h));
    let ev = format!(
        "{{\"event\":\"property-change\",\"id\":{},\"name\":\"playback-time\",\"data\":12.5}}",
        h.id
    );
    assert_eq!(s.handle_line(&ev), LineOutcome::EventApplied(h.id));
    assert!(s.poll_changed(&mut h));
    assert_eq!(s.current_value(&h), Value::Num("12.5".to_string()));
}

#[test]
fn observed_default_before_any_event() {
    let mut s = open_session();
    let (mut h, _fresh) = s.observe(
        "volume".to_string(),
        ValueKind::Number,
        Value::Num("1.0".to_string()),
    )
    .unwrap();
    assert_eq!(s.current_value(&h), Value::Num("1.0".to_string()));
    assert!(!s.poll_changed(&mut h));
}

#[test]
fn two_handles_detect_changes_independently() {
    let mut s = open_session();
    let (mut h1, fresh) = s.observe(
        "pause".to_string(),
        ValueKind::Boolean,
        Value::Bool(false),
    )
    .unwrap();
    assert!(fresh.is_some());
    let (mut h2, fresh2) = s.observe(
        "pause".to_string(),
        ValueKind::Boolean,
        Value::Bool(false),
    )
    .unwrap();
    assert!(fresh2.is_none(), "the second observer shares the subscription");
    assert_eq!(h1.id, h2.id);

    let ev = format!("{{\"event\":\"property-change\",\"id\":{},\"data\":true}}", h1.id);
    assert_eq!(s.handle_line(&ev), LineOutcome::EventApplied(h1.id));
    assert!(s.poll_changed(&mut h1));
    assert!(s.poll_changed(&mut h2));
    assert!(!s.poll_changed(&mut h1));
    assert!(!s.poll_changed(&mut h2));
    assert_eq!(s.current_value(&h1), Value::Bool(true));
    assert_eq!(s.current_value(&h2), Value::Bool(true));
}

#[test]
fn event_version_advances_even_for_equal_values() {
    let mut s = open_session();
    let (mut h, _) = s.observe(
        "pause".to_string(),
        ValueKind::Boolean,
        Value::Bool(false),
    )
    .unwrap();
    let ev = format!("{{\"event\":\"property-change\",\"id\":{},\"data\":false}}", h.id);
    assert_eq!(s.handle_line(&ev), LineOutcome::EventApplied(h.id));
    // The value equals the default, yet the change is visible.
    assert!(s.poll_changed(&mut h));
    assert_eq!(s.current_value(&h), Value::Bool(false));
}

#[test]
fn mistyped_event_payload_falls_back_to_default() {
    let mut s = open_session();
    let (mut h, _) = s.observe(
        "volume".to_string(),
        ValueKind::Number,
        Value::Num("1.0".to_string()),
    )
    .unwrap();
    let ev = format!("{{\"event\":\"property-change\",\"id\":{},\"data\":\"loud\"}}", h.id);
    assert_eq!(s.handle_line(&ev), LineOutcome::EventApplied(h.id));
    assert!(s.poll_changed(&mut h));
    assert_eq!(s.current_value(&h), Value::Num("1.0".to_string()));
}

#[test]
fn events_for_unknown_observers_are_dropped() {
    let mut s = open_session();
    assert_eq!(
        s.handle_line("{\"event\":\"property-change\",\"id\":77,\"data\":1}"),
        LineOutcome::EventIgnored
    );
    assert_eq!(s.handle_line("{\"event\":\"file-loaded\"}"), LineOutcome::EventIgnored);
    assert!(s.running());
}

#[test]
fn observe_refused_when_not_open() {
    let mut s = Session::new();
    let r = s.observe("pause".to_string(), ValueKind::Boolean, Value::Bool(false));
    assert!(matches!(r, Err(IpcError::Disconnected)));
}

#[test]
fn request_ids_are_fresh_and_increasing() {
    let mut s = open_session();
    let (id1, _) = s.begin_send(&Command::Quit).unwrap();
    let (id2, _) = s.begin_send(&Command::Quit).unwrap();
    let (id3, _) = s.begin_send(&Command::Quit).unwrap();
    assert!(id1 < id2 && id2 < id3);
}

#[test]
fn distinct_properties_get_distinct_observers() {
    let mut s = open_session();
    let (h1, fresh1) = s.observe(
        "pause".to_string(),
        ValueKind::Boolean,
        Value::Bool(false),
    )
    .unwrap();
    let (h2, fresh2) = s.observe(
        "volume".to_string(),
        ValueKind::Number,
        Value::Num("100".to_string()),
    )
    .unwrap();
    assert!(fresh1.is_some() && fresh2.is_some());
    assert_ne!(h1.id, h2.id);
    let ev = format!("{{\"event\":\"property-change\",\"id\":{},\"data\":true}}", h1.id);
    assert_eq!(s.handle_line(&ev), LineOutcome::EventApplied(h1.id));
    // The other property is untouched.
    assert_eq!(s.current_value(&h2), Value::Num("100".to_string()));
}

#[test]
fn quit_while_connecting_is_safe() {
    let mut s = Session::new();
    s.advance(ConnEvent::SpawnStarted);
    assert_eq!(s.quit(), None);
    assert!(!s.running());
    s.advance(ConnEvent::ConnectSucceeded);
    assert!(!s.running());
}
