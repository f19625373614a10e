use eocc_core::event::{EventInfo, EventType, NotificationType, SessionStatus};
use eocc_core::machine::{process_event, AppState};

fn ev(kind: EventType, dir: &str, name: &str, ts: &str) -> EventInfo {
    EventInfo {
        timestamp: ts.to_string(),
        event_type: kind,
        matcher: String::new(),
        project_name: name.to_string(),
        project_dir: dir.to_string(),
        session_id: "s1".to_string(),
        message: String::new(),
        notification_type: NotificationType::Other,
        tool_name: String::new(),
    }
}

#[test]
fn session_start_activates() {
    let mut st = AppState::new();
    process_event(&mut st, ev(EventType::SessionStart, "/a", "a", "t1"));
    let key = "/a".to_string();
    let s = st.sessions.get(&key).expect("session created");
    assert_eq!(s.status, SessionStatus::Active);
    assert_eq!(s.waiting_for, "");
    assert_eq!(s.last_event, "t1");
    assert_eq!(s.project_dir, "/a");
    assert_eq!(s.project_name, "a");
}

#[test]
fn session_start_overwrites_existing() {
    let mut st = AppState::new();
    let mut first = ev(EventType::SessionStart, "/a", "a", "t1");
    first.message = "x".to_string();
    process_event(&mut st, first);
    let mut n = ev(EventType::Notification, "/a", "a", "t2");
    n.notification_type = NotificationType::PermissionPrompt;
    n.message = "run?".to_string();
    process_event(&mut st, n);
    process_event(&mut st, ev(EventType::SessionStart, "/a", "renamed", "t3"));
    let s = st.sessions.get(&"/a".to_string()).unwrap();
    assert_eq!(s.status, SessionStatus::Active);
    assert_eq!(s.waiting_for, "");
    assert_eq!(s.project_name, "renamed");
    assert_eq!(s.last_event, "t3");
}

#[test]
fn session_end_removes_whatever_held() {
    let mut st = AppState::new();
    process_event(&mut st, ev(EventType::SessionStart, "/a", "a", "t1"));
    process_event(&mut st, ev(EventType::SessionEnd, "/a", "a", "t2"));
    assert!(st.sessions.get(&"/a".to_string()).is_none());
    // absent key: a no-op, no session is created
    process_event(&mut st, ev(EventType::SessionEnd, "/b", "b", "t3"));
    assert!(st.sessions.get(&"/b".to_string()).is_none());
    assert_eq!(st.sessions.len(), 0);
}

#[test]
fn waiting_reason_message_wins_over_tool_name() {
    let mut st = AppState::new();
    let mut n = ev(EventType::Notification, "/a", "a", "t1");
    n.notification_type = NotificationType::PermissionPrompt;
    n.message = "run rm?".to_string();
    n.tool_name = "Bash".to_string();
    process_event(&mut st, n);
    let s = st.sessions.get(&"/a".to_string()).unwrap();
    assert_eq!(s.status, SessionStatus::WaitingPermission);
    assert_eq!(s.waiting_for, "run rm?");
}

#[test]
fn waiting_reason_falls_back_to_tool_name() {
    let mut st = AppState::new();
    let mut n = ev(EventType::Notification, "/a", "a", "t1");
    n.notification_type = NotificationType::IdlePrompt;
    n.tool_name = "Bash".to_string();
    process_event(&mut st, n);
    let s = st.sessions.get(&"/a".to_string()).unwrap();
    assert_eq!(s.status, SessionStatus::WaitingInput);
    assert_eq!(s.waiting_for, "Bash");
}

#[test]
fn other_notification_is_active_with_reason() {
    let mut st = AppState::new();
    let mut n = ev(EventType::Notification, "/a", "a", "t1");
    n.message = "hello".to_string();
    process_event(&mut st, n);
    let s = st.sessions.get(&"/a".to_string()).unwrap();
    assert_eq!(s.status, SessionStatus::Active);
    assert_eq!(s.waiting_for, "hello");
}

#[test]
fn stop_completes_and_clears_reason() {
    let mut st = AppState::new();
    let mut n = ev(EventType::Notification, "/a", "a", "t1");
    n.notification_type = NotificationType::PermissionPrompt;
    n.message = "run?".to_string();
    process_event(&mut st, n);
    process_event(&mut st, ev(EventType::Stop, "/a", "a", "t2"));
    let s = st.sessions.get(&"/a".to_string()).unwrap();
    assert_eq!(s.status, SessionStatus::Completed);
    assert_eq!(s.waiting_for, "");
    assert_eq!(s.last_event, "t2");
}

#[test]
fn post_tool_use_and_prompt_submit_are_active() {
    let mut st = AppState::new();
    process_event(&mut st, ev(EventType::PostToolUse, "/a", "a", "t1"));
    assert_eq!(st.sessions.get(&"/a".to_string()).unwrap().status, SessionStatus::Active);
    process_event(&mut st, ev(EventType::UserPromptSubmit, "/b", "b", "t2"));
    assert_eq!(st.sessions.get(&"/b".to_string()).unwrap().status, SessionStatus::Active);
}

#[test]
fn upsert_preserves_project_fields_of_existing_session() {
    let mut st = AppState::new();
    process_event(&mut st, ev(EventType::SessionStart, "/a", "orig", "t1"));
    process_event(&mut st, ev(EventType::Stop, "/a", "other", "t2"));
    let s = st.sessions.get(&"/a".to_string()).unwrap();
    assert_eq!(s.project_name, "orig");
    assert_eq!(s.last_event, "t2");
}

#[test]
fn unknown_event_touches_timestamp_but_never_creates() {
    let mut st = AppState::new();
    process_event(&mut st, ev(EventType::Unknown("mystery".to_string()), "/a", "a", "t1"));
    assert!(st.sessions.get(&"/a".to_string()).is_none());
    process_event(&mut st, ev(EventType::SessionStart, "/a", "a", "t2"));
    let mut n = ev(EventType::Unknown("mystery".to_string()), "/a", "a", "t3");
    n.message = "ignored".to_string();
    process_event(&mut st, n);
    let s = st.sessions.get(&"/a".to_string()).unwrap();
    assert_eq!(s.status, SessionStatus::Active);
    assert_eq!(s.last_event, "t3");
}

#[test]
fn key_falls_back_to_project_name() {
    let mut st = AppState::new();
    process_event(&mut st, ev(EventType::SessionStart, "", "bare-name", "t1"));
    assert!(st.sessions.get(&"bare-name".to_string()).is_some());
    assert!(st.sessions.get(&"".to_string()).is_none());
}

#[test]
fn waiting_session_count_counts_both_waiting_kinds() {
    let mut st = AppState::new();
    let mut a = ev(EventType::Notification, "/a", "a", "t1");
    a.notification_type = NotificationType::PermissionPrompt;
    process_event(&mut st, a);
    let mut b = ev(EventType::Notification, "/b", "b", "t2");
    b.notification_type = NotificationType::IdlePrompt;
    process_event(&mut st, b);
    process_event(&mut st, ev(EventType::SessionStart, "/c", "c", "t3"));
    process_event(&mut st, ev(EventType::Stop, "/d", "d", "t4"));
    assert_eq!(st.waiting_session_count(), 2);
    assert_eq!(st.sessions.len(), 4);
}

#[test]
fn recent_events_bounded_to_fifty_most_recent_in_order() {
    let mut st = AppState::new();
    for i in 0..60 {
        process_event(&mut st, ev(EventType::PostToolUse, "/a", "a", &format!("t{}", i)));
    }
    assert_eq!(st.recent_events.len(), 50);
    assert_eq!(st.recent_events[0].timestamp, "t10");
    assert_eq!(st.recent_events[49].timestamp, "t59");
    for (j, e) in st.recent_events.iter().enumerate() {
        assert_eq!(e.timestamp, format!("t{}", j + 10));
    }
}

#[test]
fn dashboard_data_copies_sessions_and_events() {
    let mut st = AppState::new();
    process_event(&mut st, ev(EventType::SessionStart, "/a", "a", "t1"));
    process_event(&mut st, ev(EventType::Stop, "/a", "a", "t2"));
    let d = st.to_dashboard_data();
    assert_eq!(d.sessions.len(), 1);
    assert_eq!(d.sessions[0].project_dir, "/a");
    assert_eq!(d.events.len(), 2);
    assert_eq!(d.events[0].timestamp, "t1");
    assert_eq!(d.events[1].timestamp, "t2");
}

#[test]
fn persisted_state_round_trips() {
    let mut st = AppState::new();
    process_event(&mut st, ev(EventType::SessionStart, "/a", "a", "t1"));
    process_event(&mut st, ev(EventType::Stop, "/b", "b", "t2"));
    let snap = st.to_persisted();
    let mut restored = AppState::new();
    restored.restore(snap);
    assert_eq!(restored.sessions.len(), 2);
    let s = restored.sessions.get(&"/a".to_string()).unwrap();
    assert_eq!(s.status, SessionStatus::Active);
    assert_eq!(restored.recent_events.len(), 2);
}

#[test]
fn clear_empties_the_store() {
    let mut st = AppState::new();
    process_event(&mut st, ev(EventType::SessionStart, "/a", "a", "t1"));
    st.sessions.clear();
    assert!(st.sessions.is_empty());
    assert_eq!(st.sessions.len(), 0);
}
