//! File events, coalesced: the reports of one path within a window of time
//! become one change.
//!
//! Windows are `WINDOW_NS` wide. A report in a later window flushes what was
//! gathered before it.

use vstd::prelude::*;
use vstd::string::*;

use crate::events::{
    opt_timestamp_json, opt_timestamp_to_json, Event, EventKind, EventView, SCHEMA_VERSION,
};
use crate::json::{str_array, put, Json, JsonView};
use crate::observation::{Observation, ObservationView, Timestamp};
use crate::seqs::{
    distinct_by, first_where, first_where_from, first_where_is_first, push_item, take_all,
};
use crate::store_lineage::has_text;
use crate::text::str_eq;

verus! {

/// The width of a window.
pub const WINDOW_NS: u64 = 500_000_000;

/// What was reported of a path in the window under way.
#[derive(Debug)]
pub(crate) struct PathRecord {
    pub(crate) path: String,
    pub(crate) flags: Vec<String>,
    pub(crate) event_ids: Vec<u64>,
    pub(crate) first_seen: Timestamp,
    pub(crate) last_seen: Timestamp,
}

/// What was reported of a path in the window under way.
pub struct PathRecordView {
    pub path: Seq<char>,
    pub flags: Seq<Seq<char>>,
    pub event_ids: Seq<u64>,
    pub first_seen: Timestamp,
    pub last_seen: Timestamp,
}

impl DeepView for PathRecord {
    type V = PathRecordView;

    open(crate) spec fn deep_view(&self) -> PathRecordView {
        PathRecordView {
            path: self.path@,
            flags: self.flags.deep_view(),
            event_ids: self.event_ids@,
            first_seen: self.first_seen,
            last_seen: self.last_seen,
        }
    }
}

/// The stage.
#[derive(Debug)]
pub struct FsEventsCoalesce {
    buffer: Vec<PathRecord>,
    current_window: Option<u64>,
    last_ts: Option<Timestamp>,
}

/// What the stage holds: what was gathered, in which window, and when the last
/// report came.
#[verifier::ext_equal]
pub struct FileStage {
    pub buffer: Seq<PathRecordView>,
    pub current_window: Option<u64>,
    pub last_ts: Option<Timestamp>,
}

impl View for FsEventsCoalesce {
    type V = FileStage;

    closed spec fn view(&self) -> FileStage {
        FileStage {
            buffer: self.buffer.deep_view(),
            current_window: self.current_window,
            last_ts: self.last_ts,
        }
    }
}

/// The texts of an array; other elements are passed over.
pub open spec fn texts_in(v: Seq<JsonView>) -> Seq<Seq<char>>
    decreases v.len(),
{
    if v.len() == 0 {
        Seq::empty()
    } else {
        let rest = texts_in(v.drop_last());
        match v.last().as_str() {
            Some(s) => rest.push(s),
            None => rest,
        }
    }
}

/// The texts of the array under a key; none without one.
pub open spec fn texts_at(p: JsonView, key: Seq<char>) -> Seq<Seq<char>> {
    match p.get(key) {
        Some(JsonView::Array(v)) => texts_in(v),
        _ => Seq::empty(),
    }
}

/// A list of texts and those of another that it does not have.
pub open spec fn union_texts(have: Seq<Seq<char>>, more: Seq<Seq<char>>) -> Seq<Seq<char>>
    decreases more.len(),
{
    if more.len() == 0 {
        have
    } else {
        let rest = union_texts(have, more.drop_last());
        if rest.contains(more.last()) {
            rest
        } else {
            rest.push(more.last())
        }
    }
}

/// The path that an observation is of; none without one.
pub open spec fn path_of(obs: ObservationView) -> Option<Seq<char>> {
    match obs.payload.str_at("path"@) {
        Some(p) if p.len() > 0 => Some(p),
        _ => None,
    }
}

/// The id of a report; zero without one.
pub open spec fn id_of(obs: ObservationView) -> u64 {
    match obs.payload.u64_at("event_id"@) {
        Some(n) => n,
        None => 0,
    }
}

/// The ids with one more, unless it is zero.
pub open spec fn with_id(ids: Seq<u64>, id: u64) -> Seq<u64> {
    if id != 0 {
        ids.push(id)
    } else {
        ids
    }
}

/// Whether a record is of a path.
pub open spec fn is_path(path: Seq<char>) -> spec_fn(PathRecordView) -> bool {
    |r: PathRecordView| r.path == path
}

/// A record's path.
pub open spec fn path_key() -> spec_fn(PathRecordView) -> Seq<char> {
    |r: PathRecordView| r.path
}

/// What was gathered after one more report: it joins the record of its path.
pub open spec fn with_report(buffer: Seq<PathRecordView>, path: Seq<char>, obs: ObservationView) -> Seq<
    PathRecordView,
> {
    let flags = texts_at(obs.payload, "flags"@);
    match first_where(buffer, is_path(path)) {
        Some(i) => buffer.update(
            i,
            PathRecordView {
                flags: union_texts(buffer[i].flags, flags),
                event_ids: with_id(buffer[i].event_ids, id_of(obs)),
                last_seen: obs.timestamp,
                ..buffer[i]
            },
        ),
        None => buffer.push(
            PathRecordView {
                path,
                flags: union_texts(Seq::empty(), flags),
                event_ids: with_id(Seq::empty(), id_of(obs)),
                first_seen: obs.timestamp,
                last_seen: obs.timestamp,
            },
        ),
    }
}

/// A list of numbers as a JSON array.
pub open spec fn number_array(v: Seq<u64>) -> JsonView {
    JsonView::Array(Seq::new(v.len(), |i: int| JsonView::Int(v[i] as int)))
}

/// The change of a path: the union of its flags, the ids of its reports and
/// their number.
pub open spec fn changed(r: PathRecordView, at: Timestamp) -> EventView {
    EventView {
        schema_version: SCHEMA_VERSION,
        timestamp: at,
        kind: EventKind::FileChanged,
        pid: None,
        payload: JsonView::Object(
            seq![
                ("path"@, JsonView::Str(r.path)),
                ("flags"@, str_array(r.flags)),
                ("event_ids"@, number_array(r.event_ids)),
                ("count"@, JsonView::Int(r.event_ids.len() as int)),
                ("first_seen"@, opt_timestamp_json(Some(r.first_seen))),
                ("last_seen"@, opt_timestamp_json(Some(r.last_seen))),
            ],
        ),
    }
}

impl FileStage {
    /// The changes of everything gathered, one per path.
    pub open spec fn changes(self, at: Timestamp) -> Seq<EventView> {
        Seq::new(self.buffer.len(), |i: int| changed(self.buffer[i], at))
    }

    /// Whether an observation begins a later window.
    pub open spec fn moves_on(self, obs: ObservationView) -> bool {
        self.current_window matches Some(w) && obs.timestamp.mono_ns as int / WINDOW_NS as int > w
    }

    /// The stage after an observation.
    pub open spec fn after(self, obs: ObservationView) -> FileStage {
        match path_of(obs) {
            None => self,
            Some(path) => FileStage {
                buffer: with_report(
                    if self.moves_on(obs) {
                        Seq::empty()
                    } else {
                        self.buffer
                    },
                    path,
                    obs,
                ),
                current_window: Some((obs.timestamp.mono_ns as int / WINDOW_NS as int) as u64),
                last_ts: Some(obs.timestamp),
            },
        }
    }

    /// The changes that an observation brings: those of the window that it
    /// leaves behind, as of the last report in it.
    pub open spec fn emitted(self, obs: ObservationView) -> Seq<EventView> {
        if path_of(obs) is Some && self.moves_on(obs) {
            self.changes(
                match self.last_ts {
                    Some(t) => t,
                    None => obs.timestamp,
                },
            )
        } else {
            Seq::empty()
        }
    }

    /// The changes of what is left, at the end of input.
    pub open spec fn flushed(self) -> Seq<EventView> {
        match self.last_ts {
            Some(t) => self.changes(t),
            None => Seq::empty(),
        }
    }

    /// No path stands twice in the buffer, and whatever is there was reported
    /// at some time.
    pub open spec fn wf(self) -> bool {
        distinct_by(self.buffer, path_key()) && (self.last_ts is None ==> self.buffer.len() == 0)
    }
}

/// The texts of the array under a key.
pub(crate) fn read_texts(p: &Json, key: &str) -> (r: Vec<String>)
    ensures
        r.deep_view() == texts_at(p@, key@),
{
    let mut out: Vec<String> = Vec::new();
    assert(out.deep_view() =~= Seq::<Seq<char>>::empty());
    match p.get(key) {
        Some(j) => match j.as_array() {
            Some(v) => {
                let ghost all = v.deep_view();
                let mut i: usize = 0;
                assert(all.take(0) =~= Seq::<JsonView>::empty());
                while i < v.len()
                    invariant
                        all == v.deep_view(),
                        i <= v@.len(),
                        out.deep_view() == texts_in(all.take(i as int)),
                    decreases v@.len() - i,
                {
                    assert(all.take(i + 1).drop_last() =~= all.take(i as int));
                    assert(all.take(i + 1).last() == v@[i as int]@);
                    match v[i].as_str() {
                        Some(s) => push_item(&mut out, s.to_owned()),
                        None => {},
                    }
                    i = i + 1;
                }
                proof {
                    take_all(all);
                }
            },
            None => {},
        },
        None => {},
    }
    out
}

/// Adds to a list the texts of another that it does not have.
pub(crate) fn add_texts(have: &mut Vec<String>, more: &Vec<String>)
    ensures
        final(have).deep_view() == union_texts(old(have).deep_view(), more.deep_view()),
{
    let ghost start = have.deep_view();
    let ghost all = more.deep_view();
    let mut i: usize = 0;
    while i < more.len()
        invariant
            all == more.deep_view(),
            i <= more@.len(),
            have.deep_view() == union_texts(start, all.take(i as int)),
        decreases more@.len() - i,
    {
        assert(all.take(i + 1).drop_last() =~= all.take(i as int));
        assert(all.take(i + 1).last() == more@[i as int]@);
        if !has_text(have, more[i].as_str()) {
            push_item(have, more[i].clone());
        }
        i = i + 1;
    }
    proof {
        take_all(all);
    }
}

fn find_path(buffer: &Vec<PathRecord>, path: &str) -> (r: Option<usize>)
    ensures
        match r {
            Some(i) => first_where(buffer.deep_view(), is_path(path@)) == Some(i as int) && i
                < buffer@.len(),
            None => first_where(buffer.deep_view(), is_path(path@)) is None,
        },
{
    let ghost all = buffer.deep_view();
    let mut i: usize = 0;
    while i < buffer.len()
        invariant
            all == buffer.deep_view(),
            i <= buffer@.len(),
            first_where(all, is_path(path@)) == first_where_from(all, is_path(path@), i as int),
        decreases buffer@.len() - i,
    {
        assert(all[i as int] == buffer@[i as int].deep_view());
        if str_eq(buffer[i].path.as_str(), path) {
            return Some(i);
        }
        i = i + 1;
    }
    None
}

fn file_changed_event(r: &PathRecord, at: Timestamp) -> (e: Event)
    ensures
        e.deep_view() == changed(r.deep_view(), at),
{
    let mut ids: Vec<Json> = Vec::new();
    let mut i: usize = 0;
    while i < r.event_ids.len()
        invariant
            i <= r.event_ids@.len(),
            ids@.len() == i,
            forall|k: int|
                0 <= k < i ==> (#[trigger] ids@[k])@ == JsonView::Int(r.event_ids@[k] as int),
        decreases r.event_ids@.len() - i,
    {
        ids.push(Json::U64(r.event_ids[i]));
        i = i + 1;
    }
    assert(ids.deep_view() =~= number_array(r.event_ids@)->Array_0);
    let mut f: Vec<(String, Json)> = Vec::new();
    put(&mut f, "path", Json::text(r.path.as_str()));
    put(&mut f, "flags", Json::text_array(&r.flags));
    put(&mut f, "event_ids", Json::array(ids));
    put(&mut f, "count", Json::U64(r.event_ids.len() as u64));
    put(&mut f, "first_seen", opt_timestamp_to_json(Some(r.first_seen)));
    put(&mut f, "last_seen", opt_timestamp_to_json(Some(r.last_seen)));
    assert(f.deep_view() =~= changed(r.deep_view(), at).payload->Object_0);
    Event {
        schema_version: SCHEMA_VERSION,
        timestamp: at,
        kind: EventKind::FileChanged,
        pid: None,
        payload: Json::object(f),
    }
}

impl FsEventsCoalesce {
    /// A stage that has seen nothing.
    pub fn new() -> (r: Self)
        ensures
            r@ == (FileStage { buffer: Seq::empty(), current_window: None, last_ts: None }),
            r@.wf(),
    {
        let r = FsEventsCoalesce { buffer: Vec::new(), current_window: None, last_ts: None };
        assert(r@.buffer =~= Seq::empty());
        r
    }

    /// Takes one report. Where it falls in a later window, the changes of the
    /// window before are returned.
    pub fn on_observation(&mut self, obs: &Observation) -> (r: Vec<Event>)
        ensures
            final(self)@ == old(self)@.after(obs.deep_view()),
            r.deep_view() == old(self)@.emitted(obs.deep_view()),
            old(self)@.wf() ==> final(self)@.wf(),
    {
        proof {
            file_stage_stays_wf(self@, obs.deep_view());
        }
        let mut events: Vec<Event> = Vec::new();
        assert(events.deep_view() =~= Seq::<EventView>::empty());
        let path: String = match obs.payload.string_at("path") {
            Some(s) => s,
            None => return events,
        };
        if path.as_str().is_empty() {
            return events;
        }
        let flags: Vec<String> = read_texts(&obs.payload, "flags");
        let event_id: u64 = match obs.payload.u64_at("event_id") {
            Some(n) => n,
            None => 0,
        };
        let window_id: u64 = obs.timestamp.mono_ns / WINDOW_NS;
        match self.current_window {
            Some(prev) => {
                if window_id > prev {
                    let at: Timestamp = match self.last_ts {
                        Some(t) => t,
                        None => obs.timestamp,
                    };
                    events = self.drain_buffer(at);
                }
            },
            None => {},
        }
        self.current_window = Some(window_id);
        let ghost before = self.buffer.deep_view();
        match find_path(&self.buffer, path.as_str()) {
            Some(i) => {
                let old_rec: &PathRecord = &self.buffer[i];
                let mut all_flags: Vec<String> = crate::json::copy_strings(&old_rec.flags);
                add_texts(&mut all_flags, &flags);
                let mut ids: Vec<u64> = copy_numbers(&old_rec.event_ids);
                if event_id != 0 {
                    ids.push(event_id);
                }
                let rec = PathRecord {
                    path: old_rec.path.clone(),
                    flags: all_flags,
                    event_ids: ids,
                    first_seen: old_rec.first_seen,
                    last_seen: obs.timestamp,
                };
                let ghost rv = rec.deep_view();
                self.buffer[i] = rec;
                assert(self.buffer.deep_view() =~= before.update(i as int, rv));
            },
            None => {
                let mut all_flags: Vec<String> = Vec::new();
                assert(all_flags.deep_view() =~= Seq::<Seq<char>>::empty());
                add_texts(&mut all_flags, &flags);
                let mut ids: Vec<u64> = Vec::new();
                if event_id != 0 {
                    ids.push(event_id);
                }
                push_item(
                    &mut self.buffer,
                    PathRecord {
                        path,
                        flags: all_flags,
                        event_ids: ids,
                        first_seen: obs.timestamp,
                        last_seen: obs.timestamp,
                    },
                );
            },
        }
        self.last_ts = Some(obs.timestamp);
        events
    }

    /// Returns the changes of what is left, at the end of input.
    pub fn flush_all(&mut self) -> (r: Vec<Event>)
        ensures
            r.deep_view() == old(self)@.flushed(),
            final(self)@ == match old(self)@.last_ts {
                Some(_) => FileStage { buffer: Seq::empty(), ..old(self)@ },
                None => old(self)@,
            },
    {
        match self.last_ts {
            Some(t) => self.drain_buffer(t),
            None => {
                let none: Vec<Event> = Vec::new();
                assert(none.deep_view() =~= Seq::<EventView>::empty());
                none
            },
        }
    }

    fn drain_buffer(&mut self, at: Timestamp) -> (r: Vec<Event>)
        ensures
            r.deep_view() == old(self)@.changes(at),
            final(self)@ == (FileStage { buffer: Seq::empty(), ..old(self)@ }),
    {
        let ghost want = self@.changes(at);
        let mut out: Vec<Event> = Vec::new();
        let mut i: usize = 0;
        assert(out.deep_view() =~= want.take(0));
        while i < self.buffer.len()
            invariant
                self@ == old(self)@,
                want == self@.changes(at),
                i <= self.buffer@.len(),
                out.deep_view() == want.take(i as int),
            decreases self.buffer@.len() - i,
        {
            push_item(&mut out, file_changed_event(&self.buffer[i], at));
            assert(want.take(i as int).push(want[i as int]) =~= want.take(i + 1));
            i = i + 1;
        }
        proof {
            take_all(want);
        }
        self.buffer = Vec::new();
        assert(self.buffer.deep_view() =~= Seq::<PathRecordView>::empty());
        out
    }
}

impl Default for FsEventsCoalesce {
    fn default() -> (r: Self)
        ensures
            r@ == (FileStage { buffer: Seq::empty(), current_window: None, last_ts: None }),
    {
        FsEventsCoalesce::new()
    }
}

/// Copies a list of numbers.
fn copy_numbers(v: &Vec<u64>) -> (r: Vec<u64>)
    ensures
        r@ == v@,
{
    let mut out: Vec<u64> = Vec::new();
    let mut i: usize = 0;
    while i < v.len()
        invariant
            i <= v@.len(),
            out@ == v@.take(i as int),
        decreases v@.len() - i,
    {
        out.push(v[i]);
        i = i + 1;
        assert(out@ =~= v@.take(i as int));
    }
    assert(out@ =~= v@);
    out
}

// ---------- laws -----------------------------------------------------------------

/// The stage never holds a path twice.
proof fn file_stage_stays_wf(s: FileStage, obs: ObservationView)
    ensures
        s.wf() ==> s.after(obs).wf(),
{
    if s.wf() && path_of(obs) is Some {
        let path = path_of(obs)->0;
        let base = if s.moves_on(obs) {
            Seq::empty()
        } else {
            s.buffer
        };
        let after = with_report(base, path, obs);
        let key = path_key();
        let p = is_path(path);
        first_where_is_first(base, p);
        assert forall|i: int, j: int| 0 <= i < j < after.len() implies key(#[trigger] after[i])
            != key(#[trigger] after[j]) by {
            match first_where(base, p) {
                Some(k) => {
                    assert(key(after[i]) == key(base[i]));
                    assert(key(after[j]) == key(base[j]));
                },
                None => {
                    if j == base.len() {
                        assert(!p(base[i]));
                    } else {
                        assert(key(base[i]) != key(base[j]));
                    }
                },
            }
        }
    }
}

/// A report that stays in its window brings no change.
pub proof fn same_window_is_silent(s: FileStage, obs: ObservationView)
    requires
        s.current_window is None || obs.timestamp.mono_ns as int / WINDOW_NS as int
            <= s.current_window->0,
    ensures
        s.emitted(obs) == Seq::<EventView>::empty(),
{
}

/// The union of texts repeats none, where the first list repeated none.
pub proof fn union_repeats_nothing(have: Seq<Seq<char>>, more: Seq<Seq<char>>)
    requires
        have.no_duplicates(),
    ensures
        union_texts(have, more).no_duplicates(),
    decreases more.len(),
{
    if more.len() > 0 {
        union_repeats_nothing(have, more.drop_last());
    }
}

} // verus!
