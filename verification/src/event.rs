//! The event record and session data model.
//!
//! An event record is one parsed line of the external hook log.  A session
//! is the tracked lifecycle of one assistant run, keyed by project
//! directory (or project name when the directory is empty).

use vstd::prelude::*;

use crate::strutil::{chars_eq_str, chars_to_string};

verus! {

/// The kind of a log event.  Tags the hook does not know are kept, not
/// dropped: `Unknown` carries the original tag string for diagnostics.
pub enum EventType {
    SessionStart,
    SessionEnd,
    Notification,
    Stop,
    PostToolUse,
    UserPromptSubmit,
    Unknown(String),
}

/// Ghost mirror of [`EventType`], with the unknown tag as a character sequence.
pub enum EventKind {
    SessionStart,
    SessionEnd,
    Notification,
    Stop,
    PostToolUse,
    UserPromptSubmit,
    Unknown(Seq<char>),
}

impl View for EventType {
    type V = EventKind;

    open spec fn view(&self) -> EventKind {
        match self {
            EventType::SessionStart => EventKind::SessionStart,
            EventType::SessionEnd => EventKind::SessionEnd,
            EventType::Notification => EventKind::Notification,
            EventType::Stop => EventKind::Stop,
            EventType::PostToolUse => EventKind::PostToolUse,
            EventType::UserPromptSubmit => EventKind::UserPromptSubmit,
            EventType::Unknown(tag) => EventKind::Unknown(tag@),
        }
    }
}

impl Clone for EventType {
    fn clone(&self) -> (r: Self)
        ensures
            r@ == self@,
    {
        match self {
            EventType::SessionStart => EventType::SessionStart,
            EventType::SessionEnd => EventType::SessionEnd,
            EventType::Notification => EventType::Notification,
            EventType::Stop => EventType::Stop,
            EventType::PostToolUse => EventType::PostToolUse,
            EventType::UserPromptSubmit => EventType::UserPromptSubmit,
            EventType::Unknown(tag) => EventType::Unknown(tag.clone()),
        }
    }
}

/// The kind of a `Notification` event; meaningless for other kinds.
#[derive(Clone, Copy, PartialEq, Eq, Structural, Debug)]
pub enum NotificationType {
    PermissionPrompt,
    IdlePrompt,
    Other,
}

/// The status of a tracked session.
#[derive(Clone, Copy, PartialEq, Eq, Structural, Debug)]
pub enum SessionStatus {
    Active,
    WaitingPermission,
    WaitingInput,
    Completed,
}

/// One parsed record of the hook log.
pub struct EventInfo {
    pub timestamp: String,
    pub event_type: EventType,
    pub matcher: String,
    pub project_name: String,
    pub project_dir: String,
    pub session_id: String,
    pub message: String,
    pub notification_type: NotificationType,
    pub tool_name: String,
}

/// Ghost mirror of [`EventInfo`].
pub struct EventView {
    pub timestamp: Seq<char>,
    pub kind: EventKind,
    pub matcher: Seq<char>,
    pub project_name: Seq<char>,
    pub project_dir: Seq<char>,
    pub session_id: Seq<char>,
    pub message: Seq<char>,
    pub notification_type: NotificationType,
    pub tool_name: Seq<char>,
}

impl View for EventInfo {
    type V = EventView;

    open spec fn view(&self) -> EventView {
        EventView {
            timestamp: self.timestamp@,
            kind: self.event_type@,
            matcher: self.matcher@,
            project_name: self.project_name@,
            project_dir: self.project_dir@,
            session_id: self.session_id@,
            message: self.message@,
            notification_type: self.notification_type,
            tool_name: self.tool_name@,
        }
    }
}

impl Clone for EventInfo {
    fn clone(&self) -> (r: Self)
        ensures
            r@ == self@,
    {
        EventInfo {
            timestamp: self.timestamp.clone(),
            event_type: self.event_type.clone(),
            matcher: self.matcher.clone(),
            project_name: self.project_name.clone(),
            project_dir: self.project_dir.clone(),
            session_id: self.session_id.clone(),
            message: self.message.clone(),
            notification_type: self.notification_type,
            tool_name: self.tool_name.clone(),
        }
    }
}

/// One tracked session, as shown on the dashboard.
pub struct SessionInfo {
    pub project_name: String,
    pub project_dir: String,
    pub status: SessionStatus,
    pub last_event: String,
    pub waiting_for: String,
}

/// Ghost mirror of [`SessionInfo`].
pub struct SessionView {
    pub project_name: Seq<char>,
    pub project_dir: Seq<char>,
    pub status: SessionStatus,
    pub last_event: Seq<char>,
    pub waiting_for: Seq<char>,
}

impl View for SessionInfo {
    type V = SessionView;

    open spec fn view(&self) -> SessionView {
        SessionView {
            project_name: self.project_name@,
            project_dir: self.project_dir@,
            status: self.status,
            last_event: self.last_event@,
            waiting_for: self.waiting_for@,
        }
    }
}

impl Clone for SessionInfo {
    fn clone(&self) -> (r: Self)
        ensures
            r@ == self@,
    {
        SessionInfo {
            project_name: self.project_name.clone(),
            project_dir: self.project_dir.clone(),
            status: self.status,
            last_event: self.last_event.clone(),
            waiting_for: self.waiting_for.clone(),
        }
    }
}

/// The canonical key of a record: the project directory when non-empty,
/// else the project name.
pub open spec fn event_key(e: EventView) -> Seq<char> {
    if e.project_dir.len() == 0 {
        e.project_name
    } else {
        e.project_dir
    }
}

/// Computes the canonical session key of a record.
pub fn key_of_event(e: &EventInfo) -> (k: String)
    ensures
        k@ == event_key(e@),
{
    if e.project_dir.as_str().is_empty() {
        e.project_name.clone()
    } else {
        e.project_dir.clone()
    }
}

/// The event kind named by a tag string of the log.
pub open spec fn kind_of_tag(tag: Seq<char>) -> EventKind {
    if tag == "session_start"@ {
        EventKind::SessionStart
    } else if tag == "session_end"@ {
        EventKind::SessionEnd
    } else if tag == "notification"@ {
        EventKind::Notification
    } else if tag == "stop"@ {
        EventKind::Stop
    } else if tag == "post_tool_use"@ {
        EventKind::PostToolUse
    } else if tag == "user_prompt_submit"@ {
        EventKind::UserPromptSubmit
    } else {
        EventKind::Unknown(tag)
    }
}

/// Maps a tag string of the log to its event kind.
pub fn event_type_of_tag(tag: Vec<char>) -> (t: EventType)
    ensures
        t@ == kind_of_tag(tag@),
{
    if chars_eq_str(tag.as_slice(), "session_start") {
        EventType::SessionStart
    } else if chars_eq_str(tag.as_slice(), "session_end") {
        EventType::SessionEnd
    } else if chars_eq_str(tag.as_slice(), "notification") {
        EventType::Notification
    } else if chars_eq_str(tag.as_slice(), "stop") {
        EventType::Stop
    } else if chars_eq_str(tag.as_slice(), "post_tool_use") {
        EventType::PostToolUse
    } else if chars_eq_str(tag.as_slice(), "user_prompt_submit") {
        EventType::UserPromptSubmit
    } else {
        EventType::Unknown(chars_to_string(&tag))
    }
}

/// The notification kind named by a tag string of the log; anything
/// unrecognised is `Other`.
pub open spec fn notification_of_tag(tag: Seq<char>) -> NotificationType {
    if tag == "permission_prompt"@ {
        NotificationType::PermissionPrompt
    } else if tag == "idle_prompt"@ {
        NotificationType::IdlePrompt
    } else {
        NotificationType::Other
    }
}

/// Maps a tag string of the log to its notification kind.
pub fn notification_type_of_tag(tag: &Vec<char>) -> (t: NotificationType)
    ensures
        t == notification_of_tag(tag@),
{
    if chars_eq_str(tag.as_slice(), "permission_prompt") {
        NotificationType::PermissionPrompt
    } else if chars_eq_str(tag.as_slice(), "idle_prompt") {
        NotificationType::IdlePrompt
    } else {
        NotificationType::Other
    }
}

impl SessionStatus {
    /// The emoji shown for this status.
    pub open spec fn spec_emoji(self) -> Seq<char> {
        match self {
            SessionStatus::Active => "🟢"@,
            SessionStatus::WaitingPermission => "🔐"@,
            SessionStatus::WaitingInput => "⏳"@,
            SessionStatus::Completed => "✅"@,
        }
    }

    /// Returns the emoji shown for this status.
    pub fn emoji(&self) -> (r: &'static str)
        ensures
            r@ == self.spec_emoji(),
    {
        match self {
            SessionStatus::Active => "🟢",
            SessionStatus::WaitingPermission => "🔐",
            SessionStatus::WaitingInput => "⏳",
            SessionStatus::Completed => "✅",
        }
    }
}

/// The emoji shown for an event in menus.
pub open spec fn spec_event_emoji(e: EventView) -> Seq<char> {
    match e.kind {
        EventKind::Notification => match e.notification_type {
            NotificationType::PermissionPrompt => "🔐"@,
            NotificationType::IdlePrompt => "⏳"@,
            NotificationType::Other => "🔔"@,
        },
        EventKind::Stop => "✅"@,
        EventKind::SessionStart => "🚀"@,
        EventKind::SessionEnd => "🏁"@,
        EventKind::PostToolUse => "🔧"@,
        EventKind::UserPromptSubmit => "💬"@,
        EventKind::Unknown(_) => "📌"@,
    }
}

/// Returns the emoji shown for an event in menus.
pub fn get_event_emoji(event: &EventInfo) -> (r: &'static str)
    ensures
        r@ == spec_event_emoji(event@),
{
    match &event.event_type {
        EventType::Notification => match event.notification_type {
            NotificationType::PermissionPrompt => "🔐",
            NotificationType::IdlePrompt => "⏳",
            NotificationType::Other => "🔔",
        },
        EventType::Stop => "✅",
        EventType::SessionStart => "🚀",
        EventType::SessionEnd => "🏁",
        EventType::PostToolUse => "🔧",
        EventType::UserPromptSubmit => "💬",
        EventType::Unknown(_) => "📌",
    }
}

/// The display name of an event kind.
pub open spec fn spec_event_name(kind: EventKind) -> Seq<char> {
    match kind {
        EventKind::SessionStart => "session_start"@,
        EventKind::SessionEnd => "session_end"@,
        EventKind::Notification => "notification"@,
        EventKind::Stop => "stop"@,
        EventKind::PostToolUse => "post_tool_use"@,
        EventKind::UserPromptSubmit => "user_prompt_submit"@,
        EventKind::Unknown(_) => "unknown"@,
    }
}

/// Returns the display name of an event kind.
pub fn get_event_name(event_type: &EventType) -> (r: &'static str)
    ensures
        r@ == spec_event_name(event_type@),
{
    match event_type {
        EventType::SessionStart => "session_start",
        EventType::SessionEnd => "session_end",
        EventType::Notification => "notification",
        EventType::Stop => "stop",
        EventType::PostToolUse => "post_tool_use",
        EventType::UserPromptSubmit => "user_prompt_submit",
        EventType::Unknown(_) => "unknown",
    }
}

/// The views of a vector of session records, elementwise.
pub open spec fn sessions_view(v: Seq<SessionInfo>) -> Seq<SessionView> {
    v.map_values(|x: SessionInfo| x@)
}

/// The views of a vector of event records, elementwise.
pub open spec fn events_view(v: Seq<EventInfo>) -> Seq<EventView> {
    v.map_values(|x: EventInfo| x@)
}

} // verus!
