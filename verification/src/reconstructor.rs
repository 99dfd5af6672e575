//! The pipeline from observations to events: each observation goes to the
//! stage of its source, and what comes out is enriched with what is known of
//! the process it names.

use vstd::prelude::*;
use vstd::string::*;

use crate::dns_lifecycle::{is_dns_query_observation, is_query, query_event, DnsLifecycle};
use crate::events::{Event, EventKind, EventView};
use crate::fsevents_coalesce::{FileStage, FsEventsCoalesce};
use crate::json::{object_view, opt_str, put, Json, JsonView};
use crate::network_lifecycle::{NetworkLifecycle, NetworkStage};
use crate::observation::{Observation, ObservationView, Source, Timestamp};
use crate::process_lifecycle::{ProcessLifecycle, ProcessStage};
use crate::process_table::{
    AncestorEntry, AncestorEntryView, ProcKey, ProcessEntry, ProcessEntryView, ProcessTable,
    TableView,
};
use crate::seqs::{first_where, first_where_from, push_item, take_all};
use crate::text::str_eq;
use crate::window_lifecycle::{at_most_one, focus_event, WindowLifecycle};

verus! {

/// The pipeline.
#[derive(Debug)]
pub struct Reconstructor {
    process: ProcessLifecycle,
    window: WindowLifecycle,
    network: NetworkLifecycle,
    fsevents: FsEventsCoalesce,
    dns: DnsLifecycle,
    process_table: ProcessTable,
}

/// What the pipeline holds.
pub struct PipelineView {
    pub process: ProcessStage,
    pub network: NetworkStage,
    pub files: FileStage,
    pub table: TableView,
}

impl View for Reconstructor {
    type V = PipelineView;

    closed spec fn view(&self) -> PipelineView {
        PipelineView {
            process: self.process@,
            network: self.network@,
            files: self.fsevents@,
            table: self.process_table@,
        }
    }
}

/// The process that a birth announces; none without an id and a start time.
pub open spec fn entry_of_birth(ev: EventView) -> Option<ProcessEntryView> {
    match (ev.pid, ev.payload.u64_at("start_unix_secs"@)) {
        (Some(pid), Some(start_unix_secs)) => Some(
            ProcessEntryView {
                pid,
                start_unix_secs,
                ppid: ev.payload.u32_at("ppid"@),
                uid: ev.payload.u32_at("uid"@),
                comm: ev.payload.str_at("comm"@),
                name: ev.payload.str_at("name"@),
                exec_path: ev.payload.str_at("exec_path"@),
                alive: true,
                seq: 0,
            },
        ),
        _ => None,
    }
}

/// Whether a field has a key.
pub open spec fn is_field(key: Seq<char>) -> spec_fn((Seq<char>, JsonView)) -> bool {
    |f: (Seq<char>, JsonView)| f.0 == key
}

/// An object's fields after a value was put under a key.
pub open spec fn with_field(
    fields: Seq<(Seq<char>, JsonView)>,
    key: Seq<char>,
    value: JsonView,
) -> Seq<(Seq<char>, JsonView)> {
    match first_where(fields, is_field(key)) {
        Some(i) => fields.update(i, (key, value)),
        None => fields.push((key, value)),
    }
}

/// A field for a value that is there; none for one that is not.
pub open spec fn field_if(key: Seq<char>, value: Option<JsonView>) -> Seq<(Seq<char>, JsonView)> {
    match value {
        Some(v) => seq![(key, v)],
        None => Seq::empty(),
    }
}

/// A text that is there, as a value.
pub open spec fn some_text(s: Option<Seq<char>>) -> Option<JsonView> {
    match s {
        Some(t) => Some(JsonView::Str(t)),
        None => None,
    }
}

/// A number that is there, as a value.
pub open spec fn some_number(n: Option<u32>) -> Option<JsonView> {
    match n {
        Some(i) => Some(JsonView::Int(i as int)),
        None => None,
    }
}

/// An ancestor as a JSON object.
pub open spec fn ancestor_json(a: AncestorEntryView) -> JsonView {
    JsonView::Object(
        seq![
            ("pid"@, JsonView::Int(a.pid as int)),
            ("comm"@, opt_str(a.comm)),
            ("name"@, opt_str(a.name)),
            ("exec_path"@, opt_str(a.exec_path)),
        ],
    )
}

/// The ancestors as a JSON array.
pub open spec fn ancestors_json(v: Seq<AncestorEntryView>) -> JsonView {
    JsonView::Array(Seq::new(v.len(), |i: int| ancestor_json(v[i])))
}

/// What is known of a process, as a JSON object.
pub open spec fn process_context(e: ProcessEntryView, ancestors: Seq<AncestorEntryView>) -> JsonView {
    JsonView::Object(
        seq![
            ("pid"@, JsonView::Int(e.pid as int)),
            ("start_unix_secs"@, JsonView::Int(e.start_unix_secs as int)),
        ] + field_if("comm"@, some_text(e.comm)) + field_if("name"@, some_text(e.name)) + field_if(
            "exec_path"@,
            some_text(e.exec_path),
        ) + field_if("ppid"@, some_number(e.ppid)) + field_if("uid"@, some_number(e.uid)) + seq![
            ("alive"@, JsonView::Bool(e.alive)),
            ("ancestors"@, ancestors_json(ancestors)),
        ],
    )
}

/// An event with what the index knows of the process it names; unchanged where
/// the index does not know it.
pub open spec fn annotated(ev: EventView, t: TableView) -> EventView {
    match ev.pid {
        Some(pid) => match (t.by_pid(pid), ev.payload) {
            (Some(e), JsonView::Object(fields)) => EventView {
                payload: JsonView::Object(
                    with_field(fields, "process"@, process_context(e, t.ancestors(pid))),
                ),
                ..ev
            },
            _ => ev,
        },
        None => ev,
    }
}

/// The index after an event.
pub open spec fn table_after(t: TableView, ev: EventView) -> TableView {
    match ev.kind {
        EventKind::ProcessBirth => match entry_of_birth(ev) {
            Some(e) => t.inserted(e),
            None => t,
        },
        EventKind::ProcessDeath => match (ev.pid, ev.payload.u64_at("start_unix_secs"@)) {
            (Some(pid), Some(start_unix_secs)) => t.died(ProcKey { pid, start_unix_secs }),
            _ => t,
        },
        _ => t,
    }
}

/// An event as it leaves the pipeline: those that name a process by its raw id
/// alone are annotated.
pub open spec fn enriched_event(t: TableView, ev: EventView) -> EventView {
    match ev.kind {
        EventKind::ConnectionOpened
        | EventKind::ConnectionClosed
        | EventKind::ConnectionCompleted
        | EventKind::DnsQuery => annotated(ev, t),
        _ => ev,
    }
}

/// The index after events, one after the other.
pub open spec fn table_after_all(t: TableView, evs: Seq<EventView>) -> TableView
    decreases evs.len(),
{
    if evs.len() == 0 {
        t
    } else {
        table_after(table_after_all(t, evs.drop_last()), evs.last())
    }
}

/// Events as they leave the pipeline: each is enriched with what the index
/// knew when its turn came.
pub open spec fn enriched(t: TableView, evs: Seq<EventView>) -> Seq<EventView> {
    Seq::new(evs.len(), |i: int| enriched_event(table_after_all(t, evs.take(i)), evs[i]))
}

impl PipelineView {
    /// What the stages make of an observation, before enrichment.
    pub open spec fn raw(self, obs: ObservationView) -> Seq<EventView> {
        match obs.source {
            Source::Process => self.process.emitted(obs),
            Source::Window => at_most_one(focus_event(obs)),
            Source::Network => if is_query(obs) {
                at_most_one(query_event(obs))
            } else {
                self.network.emitted(obs)
            },
            Source::FileSystem => self.files.emitted(obs),
            Source::System => Seq::empty(),
        }
    }

    /// The pipeline after an observation.
    pub open spec fn after(self, obs: ObservationView) -> PipelineView {
        PipelineView {
            process: if obs.source == Source::Process {
                self.process.after(obs)
            } else {
                self.process
            },
            network: if obs.source == Source::Network && !is_query(obs) {
                self.network.after(obs)
            } else {
                self.network
            },
            files: if obs.source == Source::FileSystem {
                self.files.after(obs)
            } else {
                self.files
            },
            table: table_after_all(self.table, self.raw(obs)),
        }
    }

    /// What is left in the stages at the end of input, before enrichment.
    pub open spec fn rest(self, now: Timestamp) -> Seq<EventView> {
        self.process.tick_events(now) + self.network.tick_events(now) + self.files.flushed()
    }
}

fn entry_from_birth(ev: &Event) -> (r: Option<ProcessEntry>)
    ensures
        r.deep_view() == entry_of_birth(ev.deep_view()),
{
    let pid: u32 = match ev.pid {
        Some(p) => p,
        None => return None,
    };
    let start: u64 = match ev.payload.u64_at("start_unix_secs") {
        Some(s) => s,
        None => return None,
    };
    Some(
        ProcessEntry {
            pid,
            start_unix_secs: start,
            ppid: ev.payload.u32_at("ppid"),
            uid: ev.payload.u32_at("uid"),
            comm: ev.payload.string_at("comm"),
            name: ev.payload.string_at("name"),
            exec_path: ev.payload.string_at("exec_path"),
            alive: true,
            seq: 0,
        },
    )
}

fn put_text_if(f: &mut Vec<(String, Json)>, key: &str, value: &Option<String>)
    ensures
        final(f).deep_view() == old(f).deep_view() + field_if(
            key@,
            some_text(value.deep_view()),
        ),
{
    let ghost before = f.deep_view();
    match value {
        Some(s) => {
            put(f, key, Json::Str(s.clone()));
        },
        None => {},
    }
    assert(f.deep_view() =~= before + field_if(key@, some_text(value.deep_view())));
}

fn put_number_if(f: &mut Vec<(String, Json)>, key: &str, value: Option<u32>)
    ensures
        final(f).deep_view() == old(f).deep_view() + field_if(key@, some_number(value)),
{
    let ghost before = f.deep_view();
    match value {
        Some(n) => {
            put(f, key, Json::U64(n as u64));
        },
        None => {},
    }
    assert(f.deep_view() =~= before + field_if(key@, some_number(value)));
}

fn ancestors_to_json(v: &Vec<AncestorEntry>) -> (r: Json)
    ensures
        r@ == ancestors_json(v.deep_view()),
{
    let ghost all = v.deep_view();
    let mut out: Vec<Json> = Vec::new();
    let mut i: usize = 0;
    while i < v.len()
        invariant
            all == v.deep_view(),
            i <= v@.len(),
            out@.len() == i,
            forall|k: int| 0 <= k < i ==> (#[trigger] out@[k])@ == ancestor_json(all[k]),
        decreases v@.len() - i,
    {
        let a: &AncestorEntry = &v[i];
        let mut f: Vec<(String, Json)> = Vec::new();
        put(&mut f, "pid", Json::U64(a.pid as u64));
        put(&mut f, "comm", Json::opt_text(&a.comm));
        put(&mut f, "name", Json::opt_text(&a.name));
        put(&mut f, "exec_path", Json::opt_text(&a.exec_path));
        assert(f.deep_view() =~= ancestor_json(all[i as int])->Object_0);
        out.push(Json::object(f));
        i = i + 1;
    }
    assert(out.deep_view() =~= ancestors_json(all)->Array_0);
    Json::array(out)
}

fn context_of(e: &ProcessEntry, ancestors: &Vec<AncestorEntry>) -> (r: Json)
    ensures
        r@ == process_context(e.deep_view(), ancestors.deep_view()),
{
    let mut f: Vec<(String, Json)> = Vec::new();
    put(&mut f, "pid", Json::U64(e.pid as u64));
    put(&mut f, "start_unix_secs", Json::U64(e.start_unix_secs));
    assert(f.deep_view() =~= seq![
        ("pid"@, JsonView::Int(e.pid as int)),
        ("start_unix_secs"@, JsonView::Int(e.start_unix_secs as int)),
    ]);
    put_text_if(&mut f, "comm", &e.comm);
    put_text_if(&mut f, "name", &e.name);
    put_text_if(&mut f, "exec_path", &e.exec_path);
    put_number_if(&mut f, "ppid", e.ppid);
    put_number_if(&mut f, "uid", e.uid);
    let ghost known = f.deep_view();
    put(&mut f, "alive", Json::Bool(e.alive));
    put(&mut f, "ancestors", ancestors_to_json(ancestors));
    assert(f.deep_view() =~= known + seq![
        ("alive"@, JsonView::Bool(e.alive)),
        ("ancestors"@, ancestors_json(ancestors.deep_view())),
    ]);
    Json::object(f)
}

/// Puts a value under a key of an object's fields.
fn set_field(fields: &mut Vec<(String, Json)>, key: &str, value: Json)
    ensures
        final(fields).deep_view() == with_field(old(fields).deep_view(), key@, value@),
{
    let ghost all = fields.deep_view();
    let mut i: usize = 0;
    while i < fields.len()
        invariant
            all == old(fields).deep_view(),
            all == fields.deep_view(),
            i <= fields@.len(),
            first_where(all, is_field(key@)) == first_where_from(all, is_field(key@), i as int),
        decreases fields@.len() - i,
    {
        assert(all[i as int].0 == fields@[i as int].0@);
        if str_eq(fields[i].0.as_str(), key) {
            let ghost vv = value@;
            fields[i] = (key.to_owned(), value);
            assert(fields.deep_view() =~= all.update(i as int, (key@, vv)));
            return;
        }
        i = i + 1;
    }
    put(fields, key, value);
}

fn annotate_pid_event(ev: Event, table: &ProcessTable) -> (r: Event)
    ensures
        r.deep_view() == annotated(ev.deep_view(), table@),
{
    let pid: u32 = match ev.pid {
        Some(p) => p,
        None => return ev,
    };
    match table.by_pid(pid) {
        None => ev,
        Some(entry) => {
            let ancestors = table.ancestors(pid);
            match ev.payload {
                Json::Object(fields) => {
                    proof {
                        object_view(fields);
                    }
                    let mut fields = fields;
                    set_field(&mut fields, "process", context_of(entry, &ancestors));
                    Event {
                        schema_version: ev.schema_version,
                        timestamp: ev.timestamp,
                        kind: ev.kind,
                        pid: ev.pid,
                        payload: Json::object(fields),
                    }
                },
                other => Event {
                    schema_version: ev.schema_version,
                    timestamp: ev.timestamp,
                    kind: ev.kind,
                    pid: ev.pid,
                    payload: other,
                },
            }
        },
    }
}

/// Adds the events of one list at the end of another.
fn extend(v: &mut Vec<Event>, more: Vec<Event>)
    ensures
        final(v).deep_view() == old(v).deep_view() + more.deep_view(),
{
    let ghost start = v.deep_view();
    let ghost m = more.deep_view();
    assert(start + m.take(0) =~= start);
    for e in it: more
        invariant
            it.seq() == more@,
            m == more.deep_view(),
            v.deep_view() == start + m.take(it.index() as int),
    {
        assert(m[it.index() as int] == e.deep_view());
        push_item(v, e);
        assert((start + m.take(it.index() as int)).push(m[it.index() as int]) =~= start + m.take(
            it.index() + 1,
        ));
    }
    proof {
        take_all(m);
    }
}

impl Reconstructor {
    /// A pipeline that has seen nothing.
    pub fn new() -> (r: Self)
        ensures
            r@.process == (ProcessStage {
                current: Seq::empty(),
                prior: Seq::empty(),
                primed: false,
                last_obs_ts: None,
            }),
            r@.network == (NetworkStage {
                current: Seq::empty(),
                prior: Seq::empty(),
                primed: false,
                last_obs_ts: None,
            }),
            r@.files == (FileStage { buffer: Seq::empty(), current_window: None, last_ts: None }),
            r@.table == (TableView { entries: Seq::empty(), latest: Seq::empty(), next_seq: 0 }),
    {
        Reconstructor {
            process: ProcessLifecycle::new(),
            window: WindowLifecycle::new(),
            network: NetworkLifecycle::new(),
            fsevents: FsEventsCoalesce::new(),
            dns: DnsLifecycle::new(),
            process_table: ProcessTable::new(),
        }
    }

    /// The index of processes.
    pub fn process_table(&self) -> (r: &ProcessTable)
        ensures
            r@ == self@.table,
    {
        &self.process_table
    }

    /// Feeds one observation through the pipeline. Returns the events that it
    /// brings, enriched.
    pub fn process(&mut self, obs: &Observation) -> (r: Vec<Event>)
        ensures
            final(self)@ == old(self)@.after(obs.deep_view()),
            r.deep_view() == enriched(old(self)@.table, old(self)@.raw(obs.deep_view())),
    {
        let raw: Vec<Event> = match obs.source {
            Source::Process => self.process.on_observation(obs),
            Source::Window => self.window.on_observation(obs),
            Source::Network => if is_dns_query_observation(obs) {
                self.dns.on_observation(obs)
            } else {
                self.network.on_observation(obs)
            },
            Source::FileSystem => self.fsevents.on_observation(obs),
            Source::System => {
                let none: Vec<Event> = Vec::new();
                assert(none.deep_view() =~= Seq::<EventView>::empty());
                none
            },
        };
        self.enrich(raw)
    }

    /// Ends the ticks under way and flushes what was gathered, at the end of
    /// input.
    pub fn on_tick_complete(&mut self, now: Timestamp) -> (r: Vec<Event>)
        ensures
            r.deep_view() == enriched(old(self)@.table, old(self)@.rest(now)),
            final(self)@.table == table_after_all(old(self)@.table, old(self)@.rest(now)),
            final(self)@.process == old(self)@.process.after_tick(),
            final(self)@.network == old(self)@.network.after_tick(),
            final(self)@.files == match old(self)@.files.last_ts {
                Some(_) => FileStage { buffer: Seq::empty(), ..old(self)@.files },
                None => old(self)@.files,
            },
    {
        let mut raw = self.process.on_tick_complete(now);
        extend(&mut raw, self.network.on_tick_complete(now));
        extend(&mut raw, self.fsevents.flush_all());
        self.enrich(raw)
    }

    fn enrich(&mut self, events: Vec<Event>) -> (r: Vec<Event>)
        ensures
            r.deep_view() == enriched(old(self)@.table, events.deep_view()),
            final(self)@ == (PipelineView {
                table: table_after_all(old(self)@.table, events.deep_view()),
                ..old(self)@
            }),
    {
        let ghost start = self@;
        let ghost all = events.deep_view();
        let ghost want = enriched(start.table, all);
        let mut out: Vec<Event> = Vec::new();
        assert(out.deep_view() =~= want.take(0));
        assert(all.take(0) =~= Seq::<EventView>::empty());
        for ev in it: events
            invariant
                it.seq() == events@,
                all == events.deep_view(),
                want == enriched(start.table, all),
                self@ == (PipelineView {
                    table: table_after_all(start.table, all.take(it.index() as int)),
                    ..start
                }),
                out.deep_view() == want.take(it.index() as int),
        {
            let ghost i = it.index() as int;
            let ghost t = self@.table;
            assert(all[i] == ev.deep_view());
            assert(all.take(i + 1).drop_last() =~= all.take(i));
            assert(want[i] == enriched_event(t, all[i]));
            match ev.kind {
                EventKind::ProcessBirth => {
                    match entry_from_birth(&ev) {
                        Some(entry) => self.process_table.insert(entry),
                        None => {},
                    }
                    push_item(&mut out, ev);
                },
                EventKind::ProcessDeath => {
                    match ev.pid {
                        Some(pid) => match ev.payload.u64_at("start_unix_secs") {
                            Some(start_unix_secs) => self.process_table.mark_dead(
                                &ProcKey { pid, start_unix_secs },
                            ),
                            None => {},
                        },
                        None => {},
                    }
                    push_item(&mut out, ev);
                },
                EventKind::ConnectionOpened
                | EventKind::ConnectionClosed
                | EventKind::ConnectionCompleted
                | EventKind::DnsQuery => {
                    let a = annotate_pid_event(ev, &self.process_table);
                    push_item(&mut out, a);
                },
                EventKind::AppFocus | EventKind::FileChanged => {
                    push_item(&mut out, ev);
                },
            }
            assert(want.take(i).push(want[i]) =~= want.take(i + 1));
        }
        proof {
            take_all(all);
            take_all(want);
        }
        out
    }
}

impl Default for Reconstructor {
    fn default() -> (r: Self)
        ensures
            r@.process == (ProcessStage {
                current: Seq::empty(),
                prior: Seq::empty(),
                primed: false,
                last_obs_ts: None,
            }),
            r@.network == (NetworkStage {
                current: Seq::empty(),
                prior: Seq::empty(),
                primed: false,
                last_obs_ts: None,
            }),
            r@.files == (FileStage { buffer: Seq::empty(), current_window: None, last_ts: None }),
            r@.table == (TableView { entries: Seq::empty(), latest: Seq::empty(), next_seq: 0 }),
    {
        Reconstructor::new()
    }
}

// ---------- laws -----------------------------------------------------------------

/// A query leaves the stage of connections as it was.
pub proof fn queries_do_not_touch_connections(p: PipelineView, obs: ObservationView)
    requires
        is_query(obs),
    ensures
        p.after(obs).network == p.network,
{
}

/// An event that names a process unknown to the index is not changed.
pub proof fn unknown_process_adds_nothing(t: TableView, ev: EventView)
    requires
        ev.pid is None || t.by_pid(ev.pid->0) is None,
    ensures
        enriched_event(t, ev) == ev,
{
}

/// Enrichment changes no event's time, kind or process.
pub proof fn enrichment_keeps_identity(t: TableView, evs: Seq<EventView>, i: int)
    requires
        0 <= i < evs.len(),
    ensures
        enriched(t, evs).len() == evs.len(),
        enriched(t, evs)[i].timestamp == evs[i].timestamp,
        enriched(t, evs)[i].kind == evs[i].kind,
        enriched(t, evs)[i].pid == evs[i].pid,
{
}

} // verus!
