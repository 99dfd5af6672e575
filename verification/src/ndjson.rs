//! Events and observations as lines of JSON.

use vstd::prelude::*;
use vstd::string::*;

use crate::events::{
    event_kind_from_string, kind_of_name, timestamp_from_json, timestamp_json, timestamp_names, timestamp_of,
    timestamp_to_json, Event, EventKind, EventView, SCHEMA_VERSION,
};
use crate::json::{entry, field, put, Json, JsonView};
use crate::json_members::{
    choice_names_twice, choice_repeats, names_twice, part_names_twice, part_repeats, repeats,
};
use crate::json_parse::{json_document, parse_json};
use crate::json_record::{choice_of, read_choice, record, record_of};
use crate::observation::{Observation, ObservationView, Source};
use crate::seqs::collect;
use crate::text::{str_eq, trim, trim_text};

verus! {

/// What a source is called.
pub open spec fn source_text(s: Source) -> Seq<char> {
    match s {
        Source::FileSystem => "file_system"@,
        Source::Process => "process"@,
        Source::Network => "network"@,
        Source::Window => "window"@,
        Source::System => "system"@,
    }
}

/// The source that a name is of.
pub open spec fn source_of(s: Seq<char>) -> Option<Source> {
    if s == "file_system"@ {
        Some(Source::FileSystem)
    } else if s == "process"@ {
        Some(Source::Process)
    } else if s == "network"@ {
        Some(Source::Network)
    } else if s == "window"@ {
        Some(Source::Window)
    } else if s == "system"@ {
        Some(Source::System)
    } else {
        None
    }
}

/// What a source is called.
pub fn source_name(s: Source) -> (r: &'static str)
    ensures
        r@ == source_text(s),
{
    match s {
        Source::FileSystem => "file_system",
        Source::Process => "process",
        Source::Network => "network",
        Source::Window => "window",
        Source::System => "system",
    }
}

/// The source that a name is of.
pub fn source_from_name(s: &str) -> (r: Option<Source>)
    ensures
        r == source_of(s@),
{
    if str_eq(s, "file_system") {
        Some(Source::FileSystem)
    } else if str_eq(s, "process") {
        Some(Source::Process)
    } else if str_eq(s, "network") {
        Some(Source::Network)
    } else if str_eq(s, "window") {
        Some(Source::Window)
    } else if str_eq(s, "system") {
        Some(Source::System)
    } else {
        None
    }
}

/// A source is read back from its name.
pub proof fn source_round_trip(s: Source)
    ensures
        source_of(source_text(s)) == Some(s),
{
    reveal_strlit("file_system");
    reveal_strlit("process");
    reveal_strlit("network");
    reveal_strlit("window");
    reveal_strlit("system");
    assert("process"@[0] != "network"@[0]);
    assert("window"@[0] != "system"@[0]);
}

/// A process id, where there is one.
pub open spec fn pid_json(pid: Option<u32>) -> Option<JsonView> {
    match pid {
        Some(p) => Some(JsonView::Int(p as int)),
        None => None,
    }
}

/// A process id that may be missing or null; nothing for anything else.
pub open spec fn pid_of(v: Option<JsonView>) -> Option<Option<u32>> {
    match v {
        None | Some(JsonView::Null) => Some(None),
        Some(j) => match j.as_u64() {
            Some(n) => if n <= u32::MAX {
                Some(Some(n as u32))
            } else {
                None
            },
            None => None,
        },
    }
}

/// An event as JSON.
pub open spec fn event_json(e: EventView) -> JsonView {
    JsonView::Object(
        seq![
            ("schema_version"@, JsonView::Int(e.schema_version as int)),
            ("timestamp"@, timestamp_json(e.timestamp)),
            ("kind"@, JsonView::Str(e.kind.spec_name())),
        ] + field("pid"@, pid_json(e.pid)) + seq![("payload"@, e.payload)],
    )
}

/// The version of a document; the current one where it names none.
pub open spec fn version_of(v: Option<JsonView>) -> Option<u32> {
    match v {
        None => Some(SCHEMA_VERSION),
        Some(j) => match j.as_u64() {
            Some(n) => if n <= u32::MAX {
                Some(n as u32)
            } else {
                None
            },
            None => None,
        },
    }
}

/// The timestamp in a document.
pub open spec fn timestamp_in(j: JsonView) -> Option<crate::observation::Timestamp> {
    match j.get("timestamp"@) {
        Some(t) => timestamp_of(t),
        None => None,
    }
}

/// The kind in a document.
pub open spec fn kind_in(j: JsonView) -> Option<EventKind> {
    match j.get("kind"@) {
        Some(k) => match choice_of(k) {
            Some(s) => kind_of_name(s),
            None => None,
        },
        None => None,
    }
}

/// The fields of an event in a list.
pub open spec fn event_names() -> Seq<Seq<char>> {
    seq!["timestamp"@, "kind"@, "pid"@, "payload"@]
}

/// The event that a document writes, as an object or as a list.
pub open spec fn event_of(j: JsonView) -> Option<EventView> {
    event_in(record(j, event_names(), 4))
}

/// The event that an object writes.
pub open spec fn event_in(j: JsonView) -> Option<EventView> {
    match (
        version_of(j.get("schema_version"@)),
        timestamp_in(j),
        kind_in(j),
        pid_of(j.get("pid"@)),
        j.get("payload"@),
    ) {
        (Some(schema_version), Some(timestamp), Some(kind), Some(pid), Some(payload)) => Some(
            EventView { schema_version, timestamp, kind, pid, payload },
        ),
        _ => None,
    }
}

/// An observation as JSON.
pub open spec fn observation_json(o: ObservationView) -> JsonView {
    JsonView::Object(
        seq![
            ("timestamp"@, timestamp_json(o.timestamp)),
            ("source"@, JsonView::Str(source_text(o.source))),
        ] + field("pid"@, pid_json(o.pid)) + seq![("payload"@, o.payload)] + field("tags"@, o.tags),
    )
}

/// The source in a document.
pub open spec fn source_in(j: JsonView) -> Option<Source> {
    match j.get("source"@) {
        Some(k) => match choice_of(k) {
            Some(s) => source_of(s),
            None => None,
        },
        None => None,
    }
}

/// The tags in a document; null is none.
pub open spec fn tags_of(v: Option<JsonView>) -> Option<JsonView> {
    match v {
        Some(JsonView::Null) => None,
        _ => v,
    }
}

/// The fields of an observation in a list.
pub open spec fn observation_names() -> Seq<Seq<char>> {
    seq!["timestamp"@, "source"@, "pid"@, "payload"@, "tags"@]
}

/// The observation that a document writes, as an object or as a list.
pub open spec fn observation_of(j: JsonView) -> Option<ObservationView> {
    observation_in(record(j, observation_names(), 5))
}

/// The observation that an object writes.
pub open spec fn observation_in(j: JsonView) -> Option<ObservationView> {
    match (timestamp_in(j), source_in(j), pid_of(j.get("pid"@)), j.get("payload"@)) {
        (Some(timestamp), Some(source), Some(pid), Some(payload)) => Some(
            ObservationView { timestamp, source, pid, payload, tags: tags_of(j.get("tags"@)) },
        ),
        _ => None,
    }
}

/// An event as JSON.
pub fn event_to_json(e: &Event) -> (r: Json)
    ensures
        r@ == event_json(e.deep_view()),
{
    let mut f: Vec<(String, Json)> = Vec::new();
    put(&mut f, "schema_version", Json::U64(e.schema_version as u64));
    put(&mut f, "timestamp", timestamp_to_json(e.timestamp));
    put(&mut f, "kind", Json::text(e.kind.name()));
    match e.pid {
        Some(p) => {
            put(&mut f, "pid", Json::U64(p as u64));
        },
        None => {},
    }
    put(&mut f, "payload", e.payload.clone());
    assert(f.deep_view() =~= event_json(e.deep_view())->Object_0);
    Json::object(f)
}

fn pid_from(v: Option<&Json>) -> (r: Option<Option<u32>>)
    ensures
        r == pid_of(v.deep_view()),
{
    match v {
        None => Some(None),
        Some(j) => if j.is_null() {
            Some(None)
        } else {
            match j.as_u64() {
                Some(n) => if n <= 4_294_967_295 {
                    Some(Some(n as u32))
                } else {
                    None
                },
                None => None,
            }
        },
    }
}

/// The event that a document writes, as an object or as a list.
pub fn event_from_json(j: &Json) -> (r: Option<Event>)
    ensures
        r.deep_view() == event_of(j@),
{
    match j {
        Json::Array(v) => {
            let list = ["timestamp", "kind", "pid", "payload"];
            let names: &[&str] = &list;
            assert(names.deep_view() =~= event_names());
            assert(j@->Array_0 =~= v.deep_view());
            event_from_fields(&record_of(v, names, 4))
        },
        _ => event_from_fields(j),
    }
}

fn event_from_fields(j: &Json) -> (r: Option<Event>)
    ensures
        r.deep_view() == event_in(j@),
{
    let schema_version: u32 = match j.get("schema_version") {
        None => SCHEMA_VERSION,
        Some(v) => match v.as_u64() {
            Some(n) => if n <= 4_294_967_295 {
                n as u32
            } else {
                return None;
            },
            None => {
                return None;
            },
        },
    };
    let timestamp = match j.get("timestamp") {
        Some(t) => match timestamp_from_json(t) {
            Some(t) => t,
            None => {
                return None;
            },
        },
        None => {
            return None;
        },
    };
    let kind: EventKind = match j.get("kind") {
        Some(k) => match read_choice(k) {
            Some(s) => match event_kind_from_string(s.as_str()) {
                Some(k) => k,
                None => {
                    return None;
                },
            },
            None => {
                return None;
            },
        },
        None => {
            return None;
        },
    };
    match (pid_from(j.get("pid")), j.get("payload")) {
        (Some(pid), Some(payload)) => Some(
            Event { schema_version, timestamp, kind, pid, payload: payload.clone() },
        ),
        _ => None,
    }
}

/// An observation as JSON.
pub fn observation_to_json(o: &Observation) -> (r: Json)
    ensures
        r@ == observation_json(o.deep_view()),
{
    let mut f: Vec<(String, Json)> = Vec::new();
    put(&mut f, "timestamp", timestamp_to_json(o.timestamp));
    put(&mut f, "source", Json::text(source_name(o.source)));
    match o.pid {
        Some(p) => {
            put(&mut f, "pid", Json::U64(p as u64));
        },
        None => {},
    }
    put(&mut f, "payload", o.payload.clone());
    match &o.tags {
        Some(t) => {
            put(&mut f, "tags", t.clone());
        },
        None => {},
    }
    assert(f.deep_view() =~= observation_json(o.deep_view())->Object_0);
    Json::object(f)
}

/// The observation that a document writes, as an object or as a list.
pub fn observation_from_json(j: &Json) -> (r: Option<Observation>)
    ensures
        r.deep_view() == observation_of(j@),
{
    match j {
        Json::Array(v) => {
            let list = ["timestamp", "source", "pid", "payload", "tags"];
            let names: &[&str] = &list;
            assert(names.deep_view() =~= observation_names());
            assert(j@->Array_0 =~= v.deep_view());
            observation_from_fields(&record_of(v, names, 5))
        },
        _ => observation_from_fields(j),
    }
}

fn observation_from_fields(j: &Json) -> (r: Option<Observation>)
    ensures
        r.deep_view() == observation_in(j@),
{
    let timestamp = match j.get("timestamp") {
        Some(t) => match timestamp_from_json(t) {
            Some(t) => t,
            None => {
                return None;
            },
        },
        None => {
            return None;
        },
    };
    let source: Source = match j.get("source") {
        Some(k) => match read_choice(k) {
            Some(s) => match source_from_name(s.as_str()) {
                Some(k) => k,
                None => {
                    return None;
                },
            },
            None => {
                return None;
            },
        },
        None => {
            return None;
        },
    };
    let tags: Option<Json> = match j.get("tags") {
        Some(t) => if t.is_null() {
            None
        } else {
            Some(t.clone())
        },
        None => None,
    };
    match (pid_from(j.get("pid")), j.get("payload")) {
        (Some(pid), Some(payload)) => Some(
            Observation { timestamp, source, pid, payload: payload.clone(), tags },
        ),
        _ => None,
    }
}

/// Whether a text names a field of an event twice.
pub open spec fn event_repeats(s: Seq<char>) -> bool {
    ||| repeats(s, seq!["schema_version"@] + event_names())
    ||| part_repeats(s, "timestamp"@, 0, timestamp_names())
    ||| choice_repeats(s, "kind"@, 1)
}

/// The event that a line writes; none for an empty line, for one that names a
/// field twice, or for anything else.
pub open spec fn event_line() -> spec_fn(Seq<char>) -> Option<EventView> {
    |line: Seq<char>|
        if trim(line).len() == 0 || event_repeats(trim(line)) {
            None
        } else {
            match json_document(trim(line)) {
                Some(j) => event_of(j),
                None => None,
            }
        }
}

fn names_event_field_twice(s: &str) -> (r: bool)
    ensures
        r == event_repeats(s@),
{
    let list = ["schema_version", "timestamp", "kind", "pid", "payload"];
    let fields: &[&str] = &list;
    assert(fields.deep_view() =~= seq!["schema_version"@] + event_names());
    let list = ["mono_ns", "wall_anchor_ns"];
    let times: &[&str] = &list;
    assert(times.deep_view() =~= timestamp_names());
    names_twice(s, fields) || part_names_twice(s, "timestamp", 0, times) || choice_names_twice(
        s,
        "kind",
        1,
    )
}

fn read_event_line(line: &String) -> (r: Option<Event>)
    ensures
        r.deep_view() == event_line()(line.deep_view()),
{
    let t: String = trim_text(line.as_str());
    if t.as_str().is_empty() || names_event_field_twice(t.as_str()) {
        return None;
    }
    match parse_json(t.as_str()) {
        Some(j) => event_from_json(&j),
        None => None,
    }
}

/// Whether a text names a field of an observation twice.
pub open spec fn observation_repeats(s: Seq<char>) -> bool {
    ||| repeats(s, observation_names())
    ||| part_repeats(s, "timestamp"@, 0, timestamp_names())
    ||| choice_repeats(s, "source"@, 1)
}

/// The observation that a text writes; none for one that names a field twice,
/// or for anything else.
pub fn read_observation(text: &str) -> (r: Option<Observation>)
    ensures
        r.deep_view() == match json_document(text@) {
            Some(j) => if observation_repeats(text@) {
                None
            } else {
                observation_of(j)
            },
            None => None,
        },
{
    let list = ["timestamp", "source", "pid", "payload", "tags"];
    let fields: &[&str] = &list;
    assert(fields.deep_view() =~= observation_names());
    let list = ["mono_ns", "wall_anchor_ns"];
    let times: &[&str] = &list;
    assert(times.deep_view() =~= timestamp_names());
    if names_twice(text, fields) || part_names_twice(text, "timestamp", 0, times)
        || choice_names_twice(text, "source", 1) {
        return None;
    }
    match parse_json(text) {
        Some(j) => observation_from_json(&j),
        None => None,
    }
}

/// The events that lines write. Lines that are no event are passed over, so
/// that a stream may hold observations too.
pub fn read_events(lines: &[String]) -> (r: Vec<Event>)
    ensures
        r.deep_view() == lines.deep_view().filter_map(event_line()),
{
    collect(lines, read_event_line, Ghost(event_line()))
}

/// What a line of a mixed stream is.
#[derive(Debug)]
pub enum Line {
    /// Nothing.
    Blank,
    Observation(Observation),
    Event(Event),
    /// Anything else.
    Other,
}

/// What a `Line` holds.
pub enum LineView {
    Blank,
    Observation(ObservationView),
    Event(EventView),
    Other,
}

impl DeepView for Line {
    type V = LineView;

    open spec fn deep_view(&self) -> LineView {
        match self {
            Line::Blank => LineView::Blank,
            Line::Observation(o) => LineView::Observation(o.deep_view()),
            Line::Event(e) => LineView::Event(e.deep_view()),
            Line::Other => LineView::Other,
        }
    }
}

/// What a document of a mixed stream is: an observation has a source, an event
/// a kind.
pub open spec fn line_of_json(j: JsonView) -> LineView {
    if j.get("source"@) is Some {
        match observation_of(j) {
            Some(o) => LineView::Observation(o),
            None => LineView::Other,
        }
    } else if j.get("kind"@) is Some {
        match event_of(j) {
            Some(e) => LineView::Event(e),
            None => LineView::Other,
        }
    } else {
        LineView::Other
    }
}

/// What a line of a mixed stream is.
pub open spec fn line_of(line: Seq<char>) -> LineView {
    if trim(line).len() == 0 {
        LineView::Blank
    } else {
        match json_document(trim(line)) {
            Some(j) => line_of_json(j),
            None => LineView::Other,
        }
    }
}

/// What a document of a mixed stream is.
pub fn read_document(j: &Json) -> (r: Line)
    ensures
        r.deep_view() == line_of_json(j@),
{
    if j.get("source").is_some() {
        match observation_from_json(j) {
            Some(o) => Line::Observation(o),
            None => Line::Other,
        }
    } else if j.get("kind").is_some() {
        match event_from_json(j) {
            Some(e) => Line::Event(e),
            None => Line::Other,
        }
    } else {
        Line::Other
    }
}

/// What a line of a mixed stream is.
pub fn read_line(line: &str) -> (r: Line)
    ensures
        r.deep_view() == line_of(line@),
{
    let t: String = trim_text(line);
    if t.as_str().is_empty() {
        return Line::Blank;
    }
    match parse_json(t.as_str()) {
        Some(j) => read_document(&j),
        None => Line::Other,
    }
}

/// The names of the fields differ.
proof fn names_differ()
    ensures
        "schema_version"@.len() == 14,
        "timestamp"@.len() == 9,
        "kind"@.len() == 4,
        "pid"@.len() == 3,
        "payload"@.len() == 7,
        "source"@.len() == 6,
        "tags"@.len() == 4,
{
    reveal_strlit("schema_version");
    reveal_strlit("timestamp");
    reveal_strlit("kind");
    reveal_strlit("pid");
    reveal_strlit("payload");
    reveal_strlit("source");
    reveal_strlit("tags");
}

/// An event is read back from its JSON.
pub proof fn event_round_trip(e: EventView)
    ensures
        event_of(event_json(e)) == Some(e),
{
    names_differ();
    crate::events::timestamp_json_round_trip(e.timestamp);
    crate::events::kind_name_round_trip(e.kind);
    reveal_with_fuel(entry, 6);
    let f = event_json(e)->Object_0;
    let n = f.len();
    assert(f.skip(1).skip(1).skip(1) =~= f.skip(3));
    assert(f.skip(3)[0] == f[3]);
    if e.pid is Some {
        assert(f.skip(3).skip(1)[0] == f[4]);
    }
}

/// An observation is read back from its JSON. Tags that are null are none.
pub proof fn observation_round_trip(o: ObservationView)
    requires
        o.tags != Some(JsonView::Null),
    ensures
        observation_of(observation_json(o)) == Some(o),
{
    names_differ();
    crate::events::timestamp_json_round_trip(o.timestamp);
    source_round_trip(o.source);
    reveal_with_fuel(entry, 6);
    let f = observation_json(o)->Object_0;
    assert(f.skip(1).skip(1) =~= f.skip(2));
    assert(f.skip(2)[0] == f[2]);
    assert(f.skip(2).skip(1) =~= f.skip(3));
    if o.pid is Some {
        assert(f.skip(3)[0] == f[3]);
        assert(f.skip(3).skip(1) =~= f.skip(4));
        if o.tags is Some {
            assert(f.skip(4)[0] == f[4]);
        }
    } else if o.tags is Some {
        assert(f.skip(3)[0] == f[3]);
    }
}

} // verus!
