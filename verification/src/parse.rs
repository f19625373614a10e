//! From a parsed log line to an event record.
//!
//! The identifying fields are required and must be JSON strings; the
//! notification kind and tool name are optional, defaulting to `Other`
//! and empty.  A line whose required fields are missing or hold the wrong
//! type yields no record and is dropped by the drain pipeline.

use vstd::prelude::*;

use crate::event::{
    kind_of_tag, notification_of_tag, EventInfo, EventView, NotificationType,
};
use crate::jsonl::{
    field_lookup, fields_view, lookup_field, parse_object_line, spec_object_fields, FieldValue,
    FieldView,
};
use crate::strutil::str_to_chars;

verus! {

/// True when field `k` is present as a string.
pub open spec fn req_string_ok(fs: Seq<(Seq<char>, FieldView)>, k: Seq<char>) -> bool {
    match field_lookup(fs, k) {
        Some(FieldView::Str(_)) => true,
        _ => false,
    }
}

/// The string value of field `k`, empty when absent or not a string.
pub open spec fn string_val(fs: Seq<(Seq<char>, FieldView)>, k: Seq<char>) -> Seq<char> {
    match field_lookup(fs, k) {
        Some(FieldView::Str(v)) => v,
        _ => Seq::<char>::empty(),
    }
}

/// True when field `k` is absent or a string.
pub open spec fn opt_string_ok(fs: Seq<(Seq<char>, FieldView)>, k: Seq<char>) -> bool {
    match field_lookup(fs, k) {
        None => true,
        Some(FieldView::Str(_)) => true,
        _ => false,
    }
}

/// True when the notification kind is absent or a string.
pub open spec fn notification_ok(fs: Seq<(Seq<char>, FieldView)>) -> bool {
    opt_string_ok(fs, "notification_type"@)
}

/// The notification kind of the record: `Other` when the field is absent.
pub open spec fn notification_val(fs: Seq<(Seq<char>, FieldView)>) -> NotificationType {
    match field_lookup(fs, "notification_type"@) {
        Some(FieldView::Str(t)) => notification_of_tag(t),
        _ => NotificationType::Other,
    }
}

/// The event record described by the fields of a line, if they fit the
/// record's shape.
pub open spec fn spec_event_of_fields(fs: Seq<(Seq<char>, FieldView)>) -> Option<EventView> {
    if req_string_ok(fs, "timestamp"@) && req_string_ok(fs, "event"@) && req_string_ok(
        fs,
        "matcher"@,
    ) && req_string_ok(fs, "project_name"@) && req_string_ok(fs, "project_dir"@) && req_string_ok(
        fs,
        "session_id"@,
    ) && req_string_ok(fs, "message"@) && opt_string_ok(fs, "tool_name"@) && notification_ok(fs) {
        Some(
            EventView {
                timestamp: string_val(fs, "timestamp"@),
                kind: kind_of_tag(string_val(fs, "event"@)),
                matcher: string_val(fs, "matcher"@),
                project_name: string_val(fs, "project_name"@),
                project_dir: string_val(fs, "project_dir"@),
                session_id: string_val(fs, "session_id"@),
                message: string_val(fs, "message"@),
                notification_type: notification_val(fs),
                tool_name: string_val(fs, "tool_name"@),
            },
        )
    } else {
        None
    }
}

/// The event record a full log line describes, if it parses.
pub open spec fn spec_parse_event_line(line: Seq<char>) -> Option<EventView> {
    match spec_object_fields(line) {
        Some(fs) => spec_event_of_fields(fs),
        None => None,
    }
}

/// Builds the event record from the parsed fields of a line.
pub fn event_of_fields(fields: &Vec<(String, FieldValue)>) -> (r: Option<EventInfo>)
    ensures
        match r {
            Some(e) => spec_event_of_fields(fields_view(fields@)) == Some(e@),
            None => spec_event_of_fields(fields_view(fields@)) is None,
        },
{
    let timestamp = match lookup_field(fields, "timestamp") {
        Some(FieldValue::Str(v)) => v.clone(),
        _ => {
            return None;
        },
    };
    let event_tag = match lookup_field(fields, "event") {
        Some(FieldValue::Str(v)) => v.clone(),
        _ => {
            return None;
        },
    };
    let matcher = match lookup_field(fields, "matcher") {
        Some(FieldValue::Str(v)) => v.clone(),
        _ => {
            return None;
        },
    };
    let project_name = match lookup_field(fields, "project_name") {
        Some(FieldValue::Str(v)) => v.clone(),
        _ => {
            return None;
        },
    };
    let project_dir = match lookup_field(fields, "project_dir") {
        Some(FieldValue::Str(v)) => v.clone(),
        _ => {
            return None;
        },
    };
    let session_id = match lookup_field(fields, "session_id") {
        Some(FieldValue::Str(v)) => v.clone(),
        _ => {
            return None;
        },
    };
    let message = match lookup_field(fields, "message") {
        Some(FieldValue::Str(v)) => v.clone(),
        _ => {
            return None;
        },
    };
    let tool_name = match lookup_field(fields, "tool_name") {
        Some(FieldValue::Str(v)) => v.clone(),
        None => String::new(),
        _ => {
            return None;
        },
    };
    let notification_type = match lookup_field(fields, "notification_type") {
        Some(FieldValue::Str(v)) => {
            let tag = str_to_chars(v.as_str());
            crate::event::notification_type_of_tag(&tag)
        },
        None => NotificationType::Other,
        _ => {
            return None;
        },
    };
    let event_type = crate::event::event_type_of_tag(str_to_chars(event_tag.as_str()));
    Some(
        EventInfo {
            timestamp,
            event_type,
            matcher,
            project_name,
            project_dir,
            session_id,
            message,
            notification_type,
            tool_name,
        },
    )
}

/// Parses one log line into an event record; `None` when the line does
/// not fit the grammar or the record's shape.
pub fn parse_event_chars(line: &[char]) -> (r: Option<EventInfo>)
    ensures
        match r {
            Some(e) => spec_parse_event_line(line@) == Some(e@),
            None => spec_parse_event_line(line@) is None,
        },
{
    match parse_object_line(line) {
        Some(fields) => event_of_fields(&fields),
        None => None,
    }
}

/// Parses one log line into an event record; `None` when the line does
/// not fit the grammar or the record's shape.
pub fn parse_event_line(line: &str) -> (r: Option<EventInfo>)
    ensures
        match r {
            Some(e) => spec_parse_event_line(line@) == Some(e@),
            None => spec_parse_event_line(line@) is None,
        },
{
    let chars = str_to_chars(line);
    parse_event_chars(chars.as_slice())
}

} // verus!
