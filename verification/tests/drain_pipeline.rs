use eocc_core::event::{EventType, NotificationType, SessionStatus};
use eocc_core::drain::{drain_text, tail_read_start};
use eocc_core::machine::AppState;
use eocc_core::parse::parse_event_line;

fn line(event: &str, dir: &str, extra: &str) -> String {
    format!(
        "{{\"timestamp\":\"2024-01-01T00:00:00Z\",\"event\":\"{}\",\"matcher\":\"\",\"project_name\":\"p\",\"project_dir\":\"{}\",\"session_id\":\"s\",\"message\":\"\"{}}}\n",
        event, dir, extra
    )
}

#[test]
fn draining_empty_text_is_a_no_op() {
    let mut st = AppState::new();
    let events = drain_text(&mut st, "");
    assert!(events.is_empty());
    assert_eq!(st.sessions.len(), 0);
    assert_eq!(st.recent_events.len(), 0);
}

#[test]
fn draining_blank_lines_is_a_no_op() {
    let mut st = AppState::new();
    let events = drain_text(&mut st, "\n\n\r\n");
    assert!(events.is_empty());
    assert_eq!(st.sessions.len(), 0);
}

#[test]
fn session_start_then_permission_prompt() {
    // log: session_start for /a, then a permission-prompt notification
    let text = format!(
        "{}{}",
        line("session_start", "/a", ""),
        "{\"event\":\"notification\",\"notification_type\":\"permission_prompt\",\"message\":\"run rm?\",\"project_dir\":\"/a\",\"timestamp\":\"t2\",\"matcher\":\"\",\"project_name\":\"p\",\"session_id\":\"s\"}\n"
    );
    let mut st = AppState::new();
    let events = drain_text(&mut st, &text);
    assert_eq!(events.len(), 2);
    let s = st.sessions.get(&"/a".to_string()).expect("session exists");
    assert_eq!(s.status, SessionStatus::WaitingPermission);
    assert_eq!(s.waiting_for, "run rm?");
}

#[test]
fn session_end_without_prior_start_leaves_key_absent() {
    let mut st = AppState::new();
    let events = drain_text(&mut st, &line("session_end", "/a", ""));
    assert_eq!(events.len(), 1);
    assert!(st.sessions.get(&"/a".to_string()).is_none());
    assert_eq!(st.sessions.len(), 0);
}

#[test]
fn lines_across_two_cycles_apply_exactly_once() {
    let a = format!("{}{}", line("session_start", "/a", ""), line("post_tool_use", "/a", ""));
    let b = format!("{}{}", line("stop", "/a", ""), line("session_start", "/b", ""));

    let mut two_cycles = AppState::new();
    let e1 = drain_text(&mut two_cycles, &a);
    let e2 = drain_text(&mut two_cycles, &b);

    let mut one_cycle = AppState::new();
    let all = format!("{}{}", a, b);
    let e = drain_text(&mut one_cycle, &all);

    assert_eq!(e.len(), e1.len() + e2.len());
    assert_eq!(two_cycles.sessions.len(), one_cycle.sessions.len());
    for key in ["/a", "/b"] {
        let x = two_cycles.sessions.get(&key.to_string()).unwrap();
        let y = one_cycle.sessions.get(&key.to_string()).unwrap();
        assert_eq!(x.status, y.status);
        assert_eq!(x.last_event, y.last_event);
        assert_eq!(x.waiting_for, y.waiting_for);
    }
    assert_eq!(two_cycles.recent_events.len(), one_cycle.recent_events.len());
    for (x, y) in two_cycles.recent_events.iter().zip(one_cycle.recent_events.iter()) {
        assert_eq!(x.timestamp, y.timestamp);
    }
}

#[test]
fn unparsable_lines_are_dropped_and_the_rest_applied() {
    let text = format!(
        "not json at all\n{}{{\"event\":\"stop\"}}\n{}",
        line("session_start", "/a", ""),
        line("post_tool_use", "/a", "")
    );
    let mut st = AppState::new();
    let events = drain_text(&mut st, &text);
    assert_eq!(events.len(), 2);
    let s = st.sessions.get(&"/a".to_string()).unwrap();
    assert_eq!(s.status, SessionStatus::Active);
}

#[test]
fn crlf_lines_parse() {
    let text = line("session_start", "/a", "").replace('\n', "\r\n");
    let mut st = AppState::new();
    let events = drain_text(&mut st, &text);
    assert_eq!(events.len(), 1);
    assert!(st.sessions.get(&"/a".to_string()).is_some());
}

#[test]
fn unknown_tags_are_kept_with_their_name() {
    let e = parse_event_line(&line("something_new", "/a", "").trim_end()).expect("parses");
    match &e.event_type {
        EventType::Unknown(tag) => assert_eq!(tag, "something_new"),
        _ => panic!("expected the unknown arm"),
    }
    assert_eq!(eocc_core::event::get_event_name(&e.event_type), "unknown");
}

#[test]
fn missing_required_field_rejects_the_line() {
    // no timestamp
    let l = "{\"event\":\"stop\",\"matcher\":\"\",\"project_name\":\"p\",\"project_dir\":\"/a\",\"session_id\":\"s\",\"message\":\"\"}";
    assert!(parse_event_line(l).is_none());
    // event tag present but not a string
    let l2 = "{\"timestamp\":\"t\",\"event\":3,\"matcher\":\"\",\"project_name\":\"p\",\"project_dir\":\"/a\",\"session_id\":\"s\",\"message\":\"\"}";
    assert!(parse_event_line(l2).is_none());
}

#[test]
fn optional_fields_default() {
    let l = "{\"timestamp\":\"t\",\"event\":\"stop\",\"matcher\":\"\",\"project_name\":\"p\",\"project_dir\":\"/a\",\"session_id\":\"s\",\"message\":\"\"}";
    let e = parse_event_line(l).expect("parses");
    assert_eq!(e.tool_name, "");
    assert_eq!(e.notification_type, NotificationType::Other);
}

#[test]
fn unknown_notification_kind_is_other() {
    let l = "{\"timestamp\":\"t\",\"event\":\"notification\",\"notification_type\":\"odd\",\"matcher\":\"\",\"project_name\":\"p\",\"project_dir\":\"/a\",\"session_id\":\"s\",\"message\":\"\"}";
    let e = parse_event_line(l).expect("parses");
    assert_eq!(e.notification_type, NotificationType::Other);
}

#[test]
fn string_escapes_decode() {
    let l = "{\"timestamp\":\"t\",\"event\":\"stop\",\"matcher\":\"\",\"project_name\":\"p\",\"project_dir\":\"/a\",\"session_id\":\"s\",\"message\":\"a\\\"b\\\\c\\nd\\u0041\\u00e9\"}";
    let e = parse_event_line(l).expect("parses");
    assert_eq!(e.message, "a\"b\\c\ndA\u{e9}");
}

#[test]
fn surrogate_pair_escapes_decode() {
    let l = "{\"timestamp\":\"t\",\"event\":\"stop\",\"matcher\":\"\",\"project_name\":\"p\",\"project_dir\":\"/a\",\"session_id\":\"s\",\"message\":\"\\ud83d\\ude00\"}";
    let e = parse_event_line(l).expect("parses");
    assert_eq!(e.message, "\u{1f600}");
}

#[test]
fn scalar_extra_fields_are_tolerated() {
    let l = "{\"timestamp\":\"t\",\"event\":\"stop\",\"matcher\":\"\",\"project_name\":\"p\",\"project_dir\":\"/a\",\"session_id\":\"s\",\"message\":\"\",\"count\":-1.5e3,\"flag\":true,\"nothing\":null}";
    assert!(parse_event_line(l).is_some());
}

#[test]
fn trailing_garbage_rejects_the_line() {
    let l = "{\"timestamp\":\"t\",\"event\":\"stop\",\"matcher\":\"\",\"project_name\":\"p\",\"project_dir\":\"/a\",\"session_id\":\"s\",\"message\":\"\"} trailing";
    assert!(parse_event_line(l).is_none());
}

#[test]
fn leading_whitespace_is_insignificant() {
    let l = "  { \"timestamp\": \"t\", \"event\": \"stop\", \"matcher\": \"\", \"project_name\": \"p\", \"project_dir\": \"/a\", \"session_id\": \"s\", \"message\": \"\" }  ";
    assert!(parse_event_line(l).is_some());
}

#[test]
fn first_occurrence_of_a_repeated_field_wins() {
    let l = "{\"timestamp\":\"t\",\"event\":\"stop\",\"matcher\":\"\",\"project_name\":\"p\",\"project_dir\":\"/a\",\"session_id\":\"s\",\"message\":\"first\",\"message\":\"second\"}";
    let e = parse_event_line(l).expect("parses");
    assert_eq!(e.message, "first");
}

#[test]
fn nested_values_reject_the_line() {
    // the log grammar is flat; a composite field value does not parse
    let l = "{\"timestamp\":\"t\",\"event\":\"stop\",\"matcher\":\"\",\"project_name\":\"p\",\"project_dir\":\"/a\",\"session_id\":\"s\",\"message\":\"\",\"extra\":{\"a\":1}}";
    assert!(parse_event_line(l).is_none());
}

#[test]
fn tail_read_start_decisions() {
    // unchanged file: nothing to read
    assert_eq!(tail_read_start(100, 100), None);
    // grown file: resume at the remembered offset
    assert_eq!(tail_read_start(100, 150), Some(100));
    // shrunk file: treated as truncated, restart from zero
    assert_eq!(tail_read_start(100, 40), Some(0));
    // shrunk to zero: nothing to read
    assert_eq!(tail_read_start(100, 0), None);
    assert_eq!(tail_read_start(0, 0), None);
    assert_eq!(tail_read_start(0, 10), Some(0));
}
