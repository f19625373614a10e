//! The session state machine.
//!
//! A pure transition function from (store, event record) to the next store,
//! applied in-place under the caller's lock.  The transition table follows
//! the hook protocol: session lifecycle events create and remove sessions,
//! notifications set a waiting status and reason, and unrecognised events
//! only refresh the timestamp of an existing session.

use vstd::prelude::*;

use crate::event::{
    event_key, events_view, sessions_view, EventInfo, EventKind, EventType, EventView,
    NotificationType, SessionInfo, SessionStatus, SessionView,
};
use crate::assoc::map_of;
use crate::store::{waiting_keys, SessionStore};

verus! {

/// Bound of the recent-event history kept for display.
pub const RECENT_EVENTS_LIMIT: usize = 50;

/// The in-memory state of the monitor: the session store, the bounded
/// recent-event history, and the remembered byte offset of the legacy
/// tail-reading mode.
pub struct AppState {
    pub sessions: SessionStore,
    pub recent_events: Vec<EventInfo>,
    pub last_file_pos: u64,
}

/// The data pushed to the presentation layer on every change.
pub struct DashboardData {
    pub sessions: Vec<SessionInfo>,
    pub events: Vec<EventInfo>,
}

/// A snapshot of the runtime state, for persistence across restarts.
pub struct PersistedRuntimeState {
    pub sessions: Vec<(String, SessionInfo)>,
    pub recent_events: Vec<EventInfo>,
}

/// The status a notification kind sets on its session.
pub open spec fn status_of_notification(nt: NotificationType) -> SessionStatus {
    match nt {
        NotificationType::PermissionPrompt => SessionStatus::WaitingPermission,
        NotificationType::IdlePrompt => SessionStatus::WaitingInput,
        NotificationType::Other => SessionStatus::Active,
    }
}

/// The waiting reason of a notification: the message when non-empty, else
/// the tool name, else empty.
pub open spec fn waiting_reason(e: EventView) -> Seq<char> {
    if e.message.len() > 0 {
        e.message
    } else if e.tool_name.len() > 0 {
        e.tool_name
    } else {
        Seq::<char>::empty()
    }
}

/// The session an upsert leaves at key `k`: project fields are taken from
/// the existing session when one is there, else from the incoming record;
/// status, timestamp and waiting reason are always renewed.
pub open spec fn upserted_session(
    m: Map<Seq<char>, SessionView>,
    k: Seq<char>,
    e: EventView,
    st: SessionStatus,
    w: Seq<char>,
) -> SessionView {
    SessionView {
        project_name: if m.contains_key(k) {
            m[k].project_name
        } else {
            e.project_name
        },
        project_dir: if m.contains_key(k) {
            m[k].project_dir
        } else {
            e.project_dir
        },
        status: st,
        last_event: e.timestamp,
        waiting_for: w,
    }
}

/// The transition function of the session state machine.
pub open spec fn apply_event(m: Map<Seq<char>, SessionView>, e: EventView) -> Map<
    Seq<char>,
    SessionView,
> {
    let k = event_key(e);
    match e.kind {
        EventKind::SessionStart => m.insert(
            k,
            SessionView {
                project_name: e.project_name,
                project_dir: e.project_dir,
                status: SessionStatus::Active,
                last_event: e.timestamp,
                waiting_for: Seq::<char>::empty(),
            },
        ),
        EventKind::SessionEnd => m.remove(k),
        EventKind::Notification => m.insert(
            k,
            upserted_session(m, k, e, status_of_notification(e.notification_type), waiting_reason(e)),
        ),
        EventKind::Stop => m.insert(
            k,
            upserted_session(m, k, e, SessionStatus::Completed, Seq::<char>::empty()),
        ),
        EventKind::PostToolUse => m.insert(
            k,
            upserted_session(m, k, e, SessionStatus::Active, Seq::<char>::empty()),
        ),
        EventKind::UserPromptSubmit => m.insert(
            k,
            upserted_session(m, k, e, SessionStatus::Active, Seq::<char>::empty()),
        ),
        EventKind::Unknown(_) => if m.contains_key(k) {
            m.insert(
                k,
                SessionView {
                    project_name: m[k].project_name,
                    project_dir: m[k].project_dir,
                    status: m[k].status,
                    last_event: e.timestamp,
                    waiting_for: m[k].waiting_for,
                },
            )
        } else {
            m
        },
    }
}

/// One step of the bounded history: push at the tail, and pop the oldest
/// entry once the bound is passed.
pub open spec fn push_recent(s: Seq<EventView>, e: EventView) -> Seq<EventView> {
    let t = s.push(e);
    if t.len() > RECENT_EVENTS_LIMIT as int {
        t.drop_first()
    } else {
        t
    }
}

impl AppState {
    /// Creates an empty state.
    pub fn new() -> (s: Self)
        ensures
            s.sessions.wf(),
            s.sessions@ == Map::<Seq<char>, SessionView>::empty(),
            s.recent_events@.len() == 0,
            s.last_file_pos == 0,
    {
        AppState { sessions: SessionStore::new(), recent_events: Vec::new(), last_file_pos: 0 }
    }

    /// Counts the sessions that wait on the user (permission or input).
    pub fn waiting_session_count(&self) -> (n: usize)
        requires
            self.sessions.wf(),
        ensures
            n == waiting_keys(self.sessions@).len(),
    {
        self.sessions.waiting_count()
    }

    /// Copies the current sessions and recent events for display.
    pub fn to_dashboard_data(&self) -> (r: DashboardData)
        ensures
            sessions_view(r.sessions@) == self.sessions.values_seq(),
            events_view(r.events@) == events_view(self.recent_events@),
    {
        DashboardData {
            sessions: self.sessions.values(),
            events: clone_events(&self.recent_events),
        }
    }

    /// Copies the current sessions and recent events for persistence.
    pub fn to_persisted(&self) -> (r: PersistedRuntimeState)
        ensures
            r.sessions@.map_values(|kv: (String, SessionInfo)| (kv.0@, kv.1@))
                == self.sessions.entries_view(),
            events_view(r.recent_events@) == events_view(self.recent_events@),
    {
        PersistedRuntimeState {
            sessions: self.sessions.to_entries(),
            recent_events: clone_events(&self.recent_events),
        }
    }

    /// Replaces sessions and recent events with a restored snapshot.
    pub fn restore(&mut self, snapshot: PersistedRuntimeState)
        ensures
            final(self).sessions.wf(),
            final(self).sessions@ == map_of(
                snapshot.sessions@.map_values(|kv: (String, SessionInfo)| (kv.0@, kv.1@)),
            ),
            final(self).recent_events == snapshot.recent_events,
            final(self).last_file_pos == old(self).last_file_pos,
    {
        self.sessions = SessionStore::from_entries(snapshot.sessions);
        self.recent_events = snapshot.recent_events;
    }

    /// Inserts or updates the session at `key`, renewing status, timestamp
    /// and waiting reason, and keeping the project fields of an existing
    /// session.
    pub fn upsert_session(
        &mut self,
        key: String,
        event: &EventInfo,
        status: SessionStatus,
        waiting_for: String,
    )
        requires
            old(self).sessions.wf(),
        ensures
            final(self).sessions.wf(),
            final(self).sessions@ == old(self).sessions@.insert(
                key@,
                upserted_session(old(self).sessions@, key@, event@, status, waiting_for@),
            ),
            final(self).recent_events == old(self).recent_events,
            final(self).last_file_pos == old(self).last_file_pos,
    {
        let info = match self.sessions.get(&key) {
            Some(existing) => SessionInfo {
                project_name: existing.project_name.clone(),
                project_dir: existing.project_dir.clone(),
                status,
                last_event: event.timestamp.clone(),
                waiting_for,
            },
            None => SessionInfo {
                project_name: event.project_name.clone(),
                project_dir: event.project_dir.clone(),
                status,
                last_event: event.timestamp.clone(),
                waiting_for,
            },
        };
        self.sessions.insert(key, info);
    }
}

/// Clones a vector of event records.
pub fn clone_events(v: &Vec<EventInfo>) -> (r: Vec<EventInfo>)
    ensures
        events_view(r@) == events_view(v@),
{
    let n = v.len();
    let mut r: Vec<EventInfo> = Vec::new();
    let mut i: usize = 0;
    while i < n
        invariant
            0 <= i <= n,
            n == v@.len(),
            events_view(r@) =~= events_view(v@).take(i as int),
        decreases n - i,
    {
        proof {
            assert(events_view(r@).len() == i);
            assert(r@.len() == i);
        }
        let ghost prev = r@;
        r.push(v[i].clone());
        proof {
            assert(r@.len() == i + 1);
            assert(forall|j: int| 0 <= j < i ==> r@[j] == prev[j]);
            assert(events_view(r@)[i as int] == v@[i as int]@);
            assert(events_view(r@) =~~= events_view(v@).take(i + 1));
        }
        i = i + 1;
    }
    proof {
        assert(events_view(v@).take(n as int) =~= events_view(v@));
    }
    r
}

/// Applies one event record to the state: the record joins the bounded
/// recent history, and the session store takes one step of the state
/// machine.  This function cannot fail.
pub fn process_event(state: &mut AppState, event: EventInfo)
    requires
        old(state).sessions.wf(),
    ensures
        final(state).sessions.wf(),
        final(state).sessions@ == apply_event(old(state).sessions@, event@),
        events_view(final(state).recent_events@) == push_recent(
            events_view(old(state).recent_events@),
            event@,
        ),
        final(state).last_file_pos == old(state).last_file_pos,
{
    let ghost old_recent = events_view(old(state).recent_events@);
    state.recent_events.push(event.clone());
    proof {
        assert(events_view(state.recent_events@) =~= old_recent.push(event@));
    }
    if state.recent_events.len() > RECENT_EVENTS_LIMIT {
        let ghost pushed = events_view(state.recent_events@);
        state.recent_events.remove(0);
        proof {
            assert(events_view(state.recent_events@) =~= pushed.drop_first());
        }
    }
    proof {
        assert(events_view(state.recent_events@) == push_recent(old_recent, event@));
    }

    let key = crate::event::key_of_event(&event);
    match &event.event_type {
        EventType::SessionStart => {
            let info = SessionInfo {
                project_name: event.project_name.clone(),
                project_dir: event.project_dir.clone(),
                status: SessionStatus::Active,
                last_event: event.timestamp.clone(),
                waiting_for: String::new(),
            };
            state.sessions.insert(key, info);
        },
        EventType::SessionEnd => {
            state.sessions.remove(&key);
        },
        EventType::Notification => {
            let new_status = match event.notification_type {
                NotificationType::PermissionPrompt => SessionStatus::WaitingPermission,
                NotificationType::IdlePrompt => SessionStatus::WaitingInput,
                NotificationType::Other => SessionStatus::Active,
            };
            let waiting_info = if !event.message.as_str().is_empty() {
                event.message.clone()
            } else if !event.tool_name.as_str().is_empty() {
                event.tool_name.clone()
            } else {
                String::new()
            };
            state.upsert_session(key, &event, new_status, waiting_info);
        },
        EventType::Stop => {
            state.upsert_session(key, &event, SessionStatus::Completed, String::new());
        },
        EventType::PostToolUse => {
            state.upsert_session(key, &event, SessionStatus::Active, String::new());
        },
        EventType::UserPromptSubmit => {
            state.upsert_session(key, &event, SessionStatus::Active, String::new());
        },
        EventType::Unknown(_) => {
            let touched = match state.sessions.get(&key) {
                Some(existing) => Some(
                    SessionInfo {
                        project_name: existing.project_name.clone(),
                        project_dir: existing.project_dir.clone(),
                        status: existing.status,
                        last_event: event.timestamp.clone(),
                        waiting_for: existing.waiting_for.clone(),
                    },
                ),
                None => None,
            };
            match touched {
                Some(info) => {
                    state.sessions.insert(key, info);
                    proof {
                        assert(final(state).sessions@ =~= apply_event(
                            old(state).sessions@,
                            event@,
                        ));
                    }
                },
                None => {},
            }
        },
    }
}

// ---------------------------------------------------------------------------
// Laws of the state machine.
// ---------------------------------------------------------------------------

/// After a `SessionEnd` event, its key is absent from the store, whatever
/// held before.
pub proof fn lemma_session_end_removes(m: Map<Seq<char>, SessionView>, e: EventView)
    requires
        e.kind == EventKind::SessionEnd,
    ensures
        !apply_event(m, e).contains_key(event_key(e)),
{
}

/// After a `SessionStart` event, its key holds exactly an `Active` session
/// with an empty waiting reason, whatever held before.
pub proof fn lemma_session_start_activates(m: Map<Seq<char>, SessionView>, e: EventView)
    requires
        e.kind == EventKind::SessionStart,
    ensures
        apply_event(m, e).contains_key(event_key(e)),
        apply_event(m, e)[event_key(e)].status == SessionStatus::Active,
        apply_event(m, e)[event_key(e)].waiting_for.len() == 0,
{
}

/// For a notification with a non-empty message, the message wins as the
/// waiting reason, whether or not a tool name is also set.
pub proof fn lemma_waiting_reason_precedence(m: Map<Seq<char>, SessionView>, e: EventView)
    requires
        e.kind == EventKind::Notification,
        e.message.len() > 0,
    ensures
        apply_event(m, e).contains_key(event_key(e)),
        apply_event(m, e)[event_key(e)].waiting_for == e.message,
{
}

/// Feeding a sequence of events into the bounded history, one
/// [`push_recent`] step each.
pub open spec fn feed_recent(s: Seq<EventView>, es: Seq<EventView>) -> Seq<EventView>
    decreases es.len(),
{
    if es.len() == 0 {
        s
    } else {
        feed_recent(push_recent(s, es.first()), es.drop_first())
    }
}

/// The events a full history would hold: all of them while they fit the
/// bound, else exactly the most recent ones, in order.
pub open spec fn most_recent(t: Seq<EventView>) -> Seq<EventView> {
    if t.len() <= RECENT_EVENTS_LIMIT as int {
        t
    } else {
        t.skip(t.len() - RECENT_EVENTS_LIMIT as int)
    }
}

/// The bounded history is never longer than its bound, and holds exactly
/// the most recent events, in order.
pub proof fn lemma_recent_events_bounded(s: Seq<EventView>, es: Seq<EventView>)
    requires
        s.len() <= RECENT_EVENTS_LIMIT as int,
    ensures
        feed_recent(s, es) == most_recent(s + es),
        feed_recent(s, es).len() <= RECENT_EVENTS_LIMIT as int,
    decreases es.len(),
{
    if es.len() == 0 {
        assert(s + es =~= s);
    } else {
        let e = es.first();
        let es2 = es.drop_first();
        let s2 = push_recent(s, e);
        assert(s2.len() <= RECENT_EVENTS_LIMIT as int);
        lemma_recent_events_bounded(s2, es2);
        if s.len() < RECENT_EVENTS_LIMIT as int {
            assert(s2 + es2 =~= s + es);
        } else {
            let t = s + es;
            assert(s2 =~= s.push(e).drop_first());
            assert(s2 + es2 =~= t.drop_first());
            assert(t.len() > RECENT_EVENTS_LIMIT as int);
            assert(most_recent(t.drop_first()) =~= most_recent(t));
        }
    }
}

} // verus!
