//! Canonical events: one event is one named, structured behaviour.

use vstd::prelude::*;
use vstd::string::*;

use crate::json::{put, Json, JsonView};
use crate::json_record::{record, record_of};
use crate::observation::Timestamp;
use crate::text::str_eq;

verus! {

/// The version of the event encoding, carried by every event.
pub const SCHEMA_VERSION: u32 = 1;

/// What an event names.
#[derive(Debug, Clone, Copy, PartialEq, Eq, Hash, Structural)]
pub enum EventKind {
    ProcessBirth,
    ProcessDeath,
    AppFocus,
    ConnectionOpened,
    ConnectionClosed,
    ConnectionCompleted,
    FileChanged,
    DnsQuery,
}

impl DeepView for EventKind {
    type V = EventKind;

    open spec fn deep_view(&self) -> EventKind {
        *self
    }
}

impl EventKind {
    /// The kind's name in the event encoding.
    pub open spec fn spec_name(self) -> Seq<char> {
        match self {
            EventKind::ProcessBirth => "process_birth"@,
            EventKind::ProcessDeath => "process_death"@,
            EventKind::AppFocus => "app_focus"@,
            EventKind::ConnectionOpened => "connection_opened"@,
            EventKind::ConnectionClosed => "connection_closed"@,
            EventKind::ConnectionCompleted => "connection_completed"@,
            EventKind::FileChanged => "file_changed"@,
            EventKind::DnsQuery => "dns_query"@,
        }
    }

    /// The kind's name in the event encoding.
    pub fn name(self) -> (r: &'static str)
        ensures
            r@ == self.spec_name(),
    {
        match self {
            EventKind::ProcessBirth => "process_birth",
            EventKind::ProcessDeath => "process_death",
            EventKind::AppFocus => "app_focus",
            EventKind::ConnectionOpened => "connection_opened",
            EventKind::ConnectionClosed => "connection_closed",
            EventKind::ConnectionCompleted => "connection_completed",
            EventKind::FileChanged => "file_changed",
            EventKind::DnsQuery => "dns_query",
        }
    }
}

/// The kind of a name, if it is the name of one.
pub open spec fn kind_of_name(s: Seq<char>) -> Option<EventKind> {
    if s == "process_birth"@ {
        Some(EventKind::ProcessBirth)
    } else if s == "process_death"@ {
        Some(EventKind::ProcessDeath)
    } else if s == "app_focus"@ {
        Some(EventKind::AppFocus)
    } else if s == "connection_opened"@ {
        Some(EventKind::ConnectionOpened)
    } else if s == "connection_closed"@ {
        Some(EventKind::ConnectionClosed)
    } else if s == "connection_completed"@ {
        Some(EventKind::ConnectionCompleted)
    } else if s == "file_changed"@ {
        Some(EventKind::FileChanged)
    } else if s == "dns_query"@ {
        Some(EventKind::DnsQuery)
    } else {
        None
    }
}

/// The name of an event kind.
pub fn event_kind_to_string(kind: EventKind) -> (r: String)
    ensures
        r@ == kind.spec_name(),
{
    kind.name().to_owned()
}

/// The kind that a name stands for.
pub fn event_kind_from_string(s: &str) -> (r: Option<EventKind>)
    ensures
        r == kind_of_name(s@),
{
    if str_eq(s, "process_birth") {
        Some(EventKind::ProcessBirth)
    } else if str_eq(s, "process_death") {
        Some(EventKind::ProcessDeath)
    } else if str_eq(s, "app_focus") {
        Some(EventKind::AppFocus)
    } else if str_eq(s, "connection_opened") {
        Some(EventKind::ConnectionOpened)
    } else if str_eq(s, "connection_closed") {
        Some(EventKind::ConnectionClosed)
    } else if str_eq(s, "connection_completed") {
        Some(EventKind::ConnectionCompleted)
    } else if str_eq(s, "file_changed") {
        Some(EventKind::FileChanged)
    } else if str_eq(s, "dns_query") {
        Some(EventKind::DnsQuery)
    } else {
        None
    }
}

/// A kind is read back from its own name, and from no other.
pub proof fn kind_name_round_trip(kind: EventKind)
    ensures
        kind_of_name(kind.spec_name()) == Some(kind),
        forall|s: Seq<char>| kind_of_name(s) == Some(kind) ==> s == kind.spec_name(),
{
    reveal_strlit("process_birth");
    reveal_strlit("process_death");
    reveal_strlit("app_focus");
    reveal_strlit("connection_opened");
    reveal_strlit("connection_closed");
    reveal_strlit("connection_completed");
    reveal_strlit("file_changed");
    reveal_strlit("dns_query");
    assert("process_birth"@.len() == 13);
    assert("process_death"@.len() == 13);
    assert("app_focus"@.len() == 9);
    assert("connection_opened"@.len() == 17);
    assert("connection_closed"@.len() == 17);
    assert("connection_completed"@.len() == 20);
    assert("file_changed"@.len() == 12);
    assert("dns_query"@.len() == 9);
    assert("process_birth"@[8] != "process_death"@[8]);
    assert("connection_opened"@[11] != "connection_closed"@[11]);
    assert("app_focus"@[0] != "dns_query"@[0]);
}

/// One event.
#[derive(Debug)]
pub struct Event {
    pub schema_version: u32,
    pub timestamp: Timestamp,
    pub kind: EventKind,
    pub pid: Option<u32>,
    pub payload: Json,
}

/// What an event holds.
pub struct EventView {
    pub schema_version: u32,
    pub timestamp: Timestamp,
    pub kind: EventKind,
    pub pid: Option<u32>,
    pub payload: JsonView,
}

impl DeepView for Event {
    type V = EventView;

    open spec fn deep_view(&self) -> EventView {
        EventView {
            schema_version: self.schema_version,
            timestamp: self.timestamp,
            kind: self.kind,
            pid: self.pid,
            payload: self.payload@,
        }
    }
}

impl Clone for Event {
    fn clone(&self) -> (r: Self)
        ensures
            r.deep_view() == self.deep_view(),
    {
        Event {
            schema_version: self.schema_version,
            timestamp: self.timestamp,
            kind: self.kind,
            pid: self.pid,
            payload: self.payload.clone(),
        }
    }
}

/// A timestamp as a JSON object.
pub open spec fn timestamp_json(ts: Timestamp) -> JsonView {
    JsonView::Object(
        seq![
            ("mono_ns"@, JsonView::Int(ts.mono_ns as int)),
            ("wall_anchor_ns"@, JsonView::Int(ts.wall_anchor_ns as int)),
        ],
    )
}

/// A timestamp as a JSON object, or null.
pub open spec fn opt_timestamp_json(ts: Option<Timestamp>) -> JsonView {
    match ts {
        Some(t) => timestamp_json(t),
        None => JsonView::Null,
    }
}

/// The fields of a timestamp.
pub open spec fn timestamp_names() -> Seq<Seq<char>> {
    seq!["mono_ns"@, "wall_anchor_ns"@]
}

/// The timestamp of a JSON object with both of its fields, or of a list of
/// both.
pub open spec fn timestamp_of(j: JsonView) -> Option<Timestamp> {
    let j = record(j, timestamp_names(), 2);
    match (j.u64_at("mono_ns"@), j.u64_at("wall_anchor_ns"@)) {
        (Some(mono_ns), Some(wall_anchor_ns)) => Some(Timestamp { mono_ns, wall_anchor_ns }),
        _ => None,
    }
}

/// A timestamp as a JSON object.
pub fn timestamp_to_json(ts: Timestamp) -> (r: Json)
    ensures
        r@ == timestamp_json(ts),
{
    let mut f: Vec<(String, Json)> = Vec::new();
    assert(f.deep_view() =~= Seq::empty());
    put(&mut f, "mono_ns", Json::U64(ts.mono_ns));
    put(&mut f, "wall_anchor_ns", Json::U64(ts.wall_anchor_ns));
    assert(f.deep_view() =~= timestamp_json(ts)->Object_0);
    Json::object(f)
}

/// A timestamp as a JSON object, or null.
pub fn opt_timestamp_to_json(ts: Option<Timestamp>) -> (r: Json)
    ensures
        r@ == opt_timestamp_json(ts),
{
    match ts {
        Some(t) => timestamp_to_json(t),
        None => Json::Null,
    }
}

/// The timestamp of a JSON object with both of its fields, or of a list of
/// both.
pub fn timestamp_from_json(j: &Json) -> (r: Option<Timestamp>)
    ensures
        r == timestamp_of(j@),
{
    match j {
        Json::Array(v) => {
            let list = ["mono_ns", "wall_anchor_ns"];
            let names: &[&str] = &list;
            assert(names.deep_view() =~= timestamp_names());
            assert(j@->Array_0 =~= v.deep_view());
            timestamp_from_fields(&record_of(v, names, 2))
        },
        _ => timestamp_from_fields(j),
    }
}

fn timestamp_from_fields(j: &Json) -> (r: Option<Timestamp>)
    ensures
        r == match (j@.u64_at("mono_ns"@), j@.u64_at("wall_anchor_ns"@)) {
            (Some(mono_ns), Some(wall_anchor_ns)) => Some(Timestamp { mono_ns, wall_anchor_ns }),
            _ => None,
        },
{
    match j.u64_at("mono_ns") {
        Some(mono_ns) => match j.u64_at("wall_anchor_ns") {
            Some(wall_anchor_ns) => Some(Timestamp { mono_ns, wall_anchor_ns }),
            None => None,
        },
        None => None,
    }
}

/// A timestamp is read back from its own JSON object.
pub proof fn timestamp_json_round_trip(ts: Timestamp)
    ensures
        timestamp_of(timestamp_json(ts)) == Some(ts),
{
    reveal_strlit("mono_ns");
    reveal_strlit("wall_anchor_ns");
    reveal_with_fuel(crate::json::entry, 3);
    let f = timestamp_json(ts)->Object_0;
    assert("mono_ns"@.len() != "wall_anchor_ns"@.len());
    assert(f.skip(1)[0] == f[1]);
}

} // verus!
