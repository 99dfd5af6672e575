//! Process lifecycle: snapshots of the process table become births and deaths.
//!
//! Observations come in bursts, one per process and tick. When a burst is
//! over, what is in it and was not in the one before was born, and what is
//! missing has died. The first burst only sets the scene. A process is
//! identified by its id and its start time, so that a reused id is not taken
//! for the process that had it.

use vstd::prelude::*;
use vstd::string::*;

use crate::events::{timestamp_json, timestamp_to_json, Event, EventKind, EventView, SCHEMA_VERSION};
use crate::json::{int_of_u32, opt_int, opt_str, put, Json, JsonView};
use crate::observation::{Observation, ObservationView, Timestamp};
use crate::seqs::{
    any_where, count_kept, count_where, count_where_joins, count_where_none, count_where_one,
    distinct_by, filter_map_keeps, filter_map_start, filter_map_step, first_where,
    first_where_from, first_where_is_first, keeps_where, push_item, take_all,
};

verus! {

/// A gap between observations longer than this ends a tick.
pub const TICK_GAP_NS: u64 = 250_000_000;

/// What is known of a process in a tick.
#[derive(Debug)]
pub(crate) struct ProcessRecord {
    pub(crate) pid: u32,
    pub(crate) start_unix_secs: u64,
    pub(crate) comm: Option<String>,
    pub(crate) name: Option<String>,
    pub(crate) ppid: Option<u32>,
    pub(crate) uid: Option<u32>,
    pub(crate) exec_path: Option<String>,
    pub(crate) last_seen: Timestamp,
}

/// What is known of a process in a tick.
pub struct ProcessRecordView {
    pub pid: u32,
    pub start_unix_secs: u64,
    pub comm: Option<Seq<char>>,
    pub name: Option<Seq<char>>,
    pub ppid: Option<u32>,
    pub uid: Option<u32>,
    pub exec_path: Option<Seq<char>>,
    pub last_seen: Timestamp,
}

impl DeepView for ProcessRecord {
    type V = ProcessRecordView;

    open(crate) spec fn deep_view(&self) -> ProcessRecordView {
        ProcessRecordView {
            pid: self.pid,
            start_unix_secs: self.start_unix_secs,
            comm: self.comm.deep_view(),
            name: self.name.deep_view(),
            ppid: self.ppid,
            uid: self.uid,
            exec_path: self.exec_path.deep_view(),
            last_seen: self.last_seen,
        }
    }
}

/// The stage.
#[derive(Debug)]
pub struct ProcessLifecycle {
    current: Vec<ProcessRecord>,
    prior: Vec<ProcessRecord>,
    primed: bool,
    last_obs_ts: Option<Timestamp>,
}

/// What the stage holds: the tick under way, the last complete one, whether
/// there was one, and when the last observation came.
#[verifier::ext_equal]
pub struct ProcessStage {
    pub current: Seq<ProcessRecordView>,
    pub prior: Seq<ProcessRecordView>,
    pub primed: bool,
    pub last_obs_ts: Option<Timestamp>,
}

impl View for ProcessLifecycle {
    type V = ProcessStage;

    closed spec fn view(&self) -> ProcessStage {
        ProcessStage {
            current: self.current.deep_view(),
            prior: self.prior.deep_view(),
            primed: self.primed,
            last_obs_ts: self.last_obs_ts,
        }
    }
}

/// Whether a record is of a process.
pub open spec fn is_process(pid: u32, start: u64) -> spec_fn(ProcessRecordView) -> bool {
    |r: ProcessRecordView| r.pid == pid && r.start_unix_secs == start
}

/// Whether a tick has a process.
pub open spec fn in_tick(tick: Seq<ProcessRecordView>, r: ProcessRecordView) -> bool {
    any_where(tick, is_process(r.pid, r.start_unix_secs))
}

/// A record's identity.
pub open spec fn record_key() -> spec_fn(ProcessRecordView) -> (u32, u64) {
    |r: ProcessRecordView| (r.pid, r.start_unix_secs)
}

/// A tick after one more record: the same process is replaced.
pub open spec fn with_record(tick: Seq<ProcessRecordView>, r: ProcessRecordView) -> Seq<
    ProcessRecordView,
> {
    match first_where(tick, is_process(r.pid, r.start_unix_secs)) {
        Some(i) => tick.update(i, r),
        None => tick.push(r),
    }
}

/// What an observation says of a process; nothing without an id and a start
/// time.
pub open spec fn record_of(obs: ObservationView) -> Option<ProcessRecordView> {
    match (obs.pid, obs.payload.u64_at("start_unix_secs"@)) {
        (Some(pid), Some(start_unix_secs)) => Some(
            ProcessRecordView {
                pid,
                start_unix_secs,
                comm: obs.payload.str_at("comm"@),
                name: obs.payload.str_at("name"@),
                ppid: obs.payload.u32_at("ppid"@),
                uid: obs.payload.u32_at("uid"@),
                exec_path: obs.payload.str_at("exec_path"@),
                last_seen: obs.timestamp,
            },
        ),
        _ => None,
    }
}

/// The fields that births and deaths share.
pub open spec fn process_fields(r: ProcessRecordView) -> Seq<(Seq<char>, JsonView)> {
    seq![
        ("comm"@, opt_str(r.comm)),
        ("name"@, opt_str(r.name)),
        ("ppid"@, opt_int(int_of_u32(r.ppid))),
        ("uid"@, opt_int(int_of_u32(r.uid))),
        ("exec_path"@, opt_str(r.exec_path)),
        ("start_unix_secs"@, JsonView::Int(r.start_unix_secs as int)),
    ]
}

/// The birth of a process, when it was seen.
pub open spec fn birth_of(r: ProcessRecordView) -> EventView {
    EventView {
        schema_version: SCHEMA_VERSION,
        timestamp: r.last_seen,
        kind: EventKind::ProcessBirth,
        pid: Some(r.pid),
        payload: JsonView::Object(process_fields(r)),
    }
}

/// The death of a process, at the end of the tick that missed it.
pub open spec fn death_of(r: ProcessRecordView, now: Timestamp) -> EventView {
    EventView {
        schema_version: SCHEMA_VERSION,
        timestamp: now,
        kind: EventKind::ProcessDeath,
        pid: Some(r.pid),
        payload: JsonView::Object(
            process_fields(r).push(("last_seen"@, timestamp_json(r.last_seen))),
        ),
    }
}

/// The birth of a process that a tick does not have.
pub open spec fn born_since(prior: Seq<ProcessRecordView>) -> spec_fn(ProcessRecordView) -> Option<
    EventView,
> {
    |r: ProcessRecordView|
        if in_tick(prior, r) {
            None
        } else {
            Some(birth_of(r))
        }
}

/// The death of a process that a tick does not have.
pub open spec fn dead_since(current: Seq<ProcessRecordView>, now: Timestamp) -> spec_fn(
    ProcessRecordView,
) -> Option<EventView> {
    |r: ProcessRecordView|
        if in_tick(current, r) {
            None
        } else {
            Some(death_of(r, now))
        }
}

/// Whether a gap between two observations ends a tick.
pub open spec fn ends_tick(prev: Option<Timestamp>, now: Timestamp) -> bool {
    prev matches Some(p) && now.mono_ns > p.mono_ns + TICK_GAP_NS
}

impl ProcessStage {
    /// The events of a tick that is over: first the births, then the deaths;
    /// none for the first tick.
    pub open spec fn tick_events(self, now: Timestamp) -> Seq<EventView> {
        if self.primed {
            self.current.filter_map(born_since(self.prior)) + self.prior.filter_map(
                dead_since(self.current, now),
            )
        } else {
            Seq::empty()
        }
    }

    /// The stage after a tick: what was current is now the last complete tick.
    pub open spec fn after_tick(self) -> ProcessStage {
        ProcessStage { current: Seq::empty(), prior: self.current, primed: true, ..self }
    }

    /// The stage after an observation.
    pub open spec fn after(self, obs: ObservationView) -> ProcessStage {
        match record_of(obs) {
            None => self,
            Some(r) => {
                let base = if ends_tick(self.last_obs_ts, obs.timestamp) {
                    self.after_tick()
                } else {
                    self
                };
                ProcessStage {
                    current: with_record(base.current, r),
                    last_obs_ts: Some(obs.timestamp),
                    ..base
                }
            },
        }
    }

    /// The events that an observation brings: those of the tick that it ends.
    pub open spec fn emitted(self, obs: ObservationView) -> Seq<EventView> {
        if record_of(obs) is Some && ends_tick(self.last_obs_ts, obs.timestamp) {
            self.tick_events(self.last_obs_ts->0)
        } else {
            Seq::empty()
        }
    }

    /// No process stands twice in a tick.
    pub open spec fn wf(self) -> bool {
        distinct_by(self.current, record_key()) && distinct_by(self.prior, record_key())
    }
}

fn find_record(tick: &Vec<ProcessRecord>, pid: u32, start: u64) -> (r: Option<usize>)
    ensures
        match r {
            Some(i) => first_where(tick.deep_view(), is_process(pid, start)) == Some(i as int) && i
                < tick@.len(),
            None => first_where(tick.deep_view(), is_process(pid, start)) is None,
        },
{
    let ghost all = tick.deep_view();
    let mut i: usize = 0;
    while i < tick.len()
        invariant
            all == tick.deep_view(),
            i <= tick@.len(),
            first_where(all, is_process(pid, start)) == first_where_from(
                all,
                is_process(pid, start),
                i as int,
            ),
        decreases tick@.len() - i,
    {
        assert(all[i as int] == tick@[i as int].deep_view());
        if tick[i].pid == pid && tick[i].start_unix_secs == start {
            return Some(i);
        }
        i = i + 1;
    }
    None
}

fn fields_of(r: &ProcessRecord) -> (f: Vec<(String, Json)>)
    ensures
        f.deep_view() == process_fields(r.deep_view()),
{
    let mut f: Vec<(String, Json)> = Vec::new();
    put(&mut f, "comm", Json::opt_text(&r.comm));
    put(&mut f, "name", Json::opt_text(&r.name));
    put(&mut f, "ppid", Json::opt_u32(r.ppid));
    put(&mut f, "uid", Json::opt_u32(r.uid));
    put(&mut f, "exec_path", Json::opt_text(&r.exec_path));
    put(&mut f, "start_unix_secs", Json::U64(r.start_unix_secs));
    assert(f.deep_view() =~= process_fields(r.deep_view()));
    f
}

fn birth_event(r: &ProcessRecord) -> (e: Event)
    ensures
        e.deep_view() == birth_of(r.deep_view()),
{
    Event {
        schema_version: SCHEMA_VERSION,
        timestamp: r.last_seen,
        kind: EventKind::ProcessBirth,
        pid: Some(r.pid),
        payload: Json::object(fields_of(r)),
    }
}

fn death_event(r: &ProcessRecord, now: Timestamp) -> (e: Event)
    ensures
        e.deep_view() == death_of(r.deep_view(), now),
{
    let mut f = fields_of(r);
    put(&mut f, "last_seen", timestamp_to_json(r.last_seen));
    Event {
        schema_version: SCHEMA_VERSION,
        timestamp: now,
        kind: EventKind::ProcessDeath,
        pid: Some(r.pid),
        payload: Json::object(f),
    }
}

impl ProcessLifecycle {
    /// A stage that has seen nothing.
    pub fn new() -> (r: Self)
        ensures
            r@ == (ProcessStage {
                current: Seq::empty(),
                prior: Seq::empty(),
                primed: false,
                last_obs_ts: None,
            }),
            r@.wf(),
    {
        let r = ProcessLifecycle {
            current: Vec::new(),
            prior: Vec::new(),
            primed: false,
            last_obs_ts: None,
        };
        assert(r@.current =~= Seq::empty());
        assert(r@.prior =~= Seq::empty());
        r
    }

    /// Takes one observation. Where it comes more than `TICK_GAP_NS` after the
    /// last one, the tick before it is over and its events are returned.
    pub fn on_observation(&mut self, obs: &Observation) -> (r: Vec<Event>)
        ensures
            final(self)@ == old(self)@.after(obs.deep_view()),
            r.deep_view() == old(self)@.emitted(obs.deep_view()),
            old(self)@.wf() ==> final(self)@.wf(),
    {
        proof {
            process_stage_stays_wf(self@, obs.deep_view());
        }
        let none: Vec<Event> = Vec::new();
        assert(none.deep_view() =~= Seq::<EventView>::empty());
        let pid: u32 = match obs.pid {
            Some(p) => p,
            None => return none,
        };
        let start: u64 = match obs.payload.u64_at("start_unix_secs") {
            Some(s) => s,
            None => return none,
        };
        let mut events = none;
        match self.last_obs_ts {
            Some(prev) => {
                if obs.timestamp.mono_ns > prev.mono_ns && obs.timestamp.mono_ns - prev.mono_ns
                    > TICK_GAP_NS {
                    events = self.finalize_tick(prev);
                }
            },
            None => {},
        }
        let record = ProcessRecord {
            pid,
            start_unix_secs: start,
            comm: obs.payload.string_at("comm"),
            name: obs.payload.string_at("name"),
            ppid: obs.payload.u32_at("ppid"),
            uid: obs.payload.u32_at("uid"),
            exec_path: obs.payload.string_at("exec_path"),
            last_seen: obs.timestamp,
        };
        let ghost rv = record.deep_view();
        let ghost before = self.current.deep_view();
        match find_record(&self.current, pid, start) {
            Some(i) => {
                self.current[i] = record;
                assert(self.current.deep_view() =~= before.update(i as int, rv));
            },
            None => {
                push_item(&mut self.current, record);
            },
        }
        self.last_obs_ts = Some(obs.timestamp);
        events
    }

    /// Ends the tick under way, at the end of input.
    pub fn on_tick_complete(&mut self, now: Timestamp) -> (r: Vec<Event>)
        ensures
            final(self)@ == old(self)@.after_tick(),
            r.deep_view() == old(self)@.tick_events(now),
    {
        self.finalize_tick(now)
    }

    fn finalize_tick(&mut self, now: Timestamp) -> (r: Vec<Event>)
        ensures
            final(self)@ == old(self)@.after_tick(),
            r.deep_view() == old(self)@.tick_events(now),
    {
        let mut events: Vec<Event> = Vec::new();
        assert(events.deep_view() =~= Seq::<EventView>::empty());
        if self.primed {
            let ghost cur = self.current.deep_view();
            let ghost pri = self.prior.deep_view();
            let ghost born = born_since(pri);
            let ghost dead = dead_since(cur, now);
            let mut i: usize = 0;
            proof {
                filter_map_start(cur, born);
            }
            while i < self.current.len()
                invariant
                    self@ == old(self)@,
                    cur == self.current.deep_view(),
                    pri == self.prior.deep_view(),
                    born == born_since(pri),
                    i <= self.current@.len(),
                    events.deep_view() == cur.take(i as int).filter_map(born),
                decreases self.current@.len() - i,
            {
                proof {
                    filter_map_step(cur, born, i as int);
                }
                let r: &ProcessRecord = &self.current[i];
                assert(cur[i as int] == r.deep_view());
                if find_record(&self.prior, r.pid, r.start_unix_secs).is_none() {
                    push_item(&mut events, birth_event(r));
                }
                i = i + 1;
            }
            proof {
                take_all(cur);
                filter_map_start(pri, dead);
            }
            let ghost births = events.deep_view();
            assert(births + Seq::<EventView>::empty() =~= births);
            i = 0;
            while i < self.prior.len()
                invariant
                    self@ == old(self)@,
                    cur == self.current.deep_view(),
                    pri == self.prior.deep_view(),
                    dead == dead_since(cur, now),
                    i <= self.prior@.len(),
                    events.deep_view() == births + pri.take(i as int).filter_map(dead),
                decreases self.prior@.len() - i,
            {
                proof {
                    filter_map_step(pri, dead, i as int);
                }
                let r: &ProcessRecord = &self.prior[i];
                assert(pri[i as int] == r.deep_view());
                if find_record(&self.current, r.pid, r.start_unix_secs).is_none() {
                    let e = death_event(r, now);
                    let ghost ev = e.deep_view();
                    let ghost sofar = pri.take(i as int).filter_map(dead);
                    push_item(&mut events, e);
                    assert((births + sofar).push(ev) =~= births + sofar.push(ev));
                }
                i = i + 1;
            }
            proof {
                take_all(pri);
            }
        } else {
            self.primed = true;
        }
        let mut fresh: Vec<ProcessRecord> = Vec::new();
        assert(fresh.deep_view() =~= Seq::<ProcessRecordView>::empty());
        core::mem::swap(&mut self.current, &mut fresh);
        self.prior = fresh;
        events
    }
}

impl Default for ProcessLifecycle {
    fn default() -> (r: Self)
        ensures
            r@ == (ProcessStage {
                current: Seq::empty(),
                prior: Seq::empty(),
                primed: false,
                last_obs_ts: None,
            }),
    {
        ProcessLifecycle::new()
    }
}

// ---------- laws -----------------------------------------------------------------

/// The stage never holds a process twice in a tick.
proof fn process_stage_stays_wf(s: ProcessStage, obs: ObservationView)
    ensures
        s.wf() ==> s.after(obs).wf(),
{
    if s.wf() && record_of(obs) is Some {
        let r = record_of(obs)->0;
        let base = if ends_tick(s.last_obs_ts, obs.timestamp) {
            s.after_tick()
        } else {
            s
        };
        let key = record_key();
        let p = is_process(r.pid, r.start_unix_secs);
        first_where_is_first(base.current, p);
        let after = with_record(base.current, r);
        assert forall|i: int, j: int| 0 <= i < j < after.len() implies key(#[trigger] after[i])
            != key(#[trigger] after[j]) by {
            match first_where(base.current, p) {
                Some(k) => {
                    assert(key(after[i]) == key(base.current[i]));
                    assert(key(after[j]) == key(base.current[j]));
                },
                None => {
                    if j == base.current.len() {
                        assert(!p(base.current[i]));
                    } else {
                        assert(key(base.current[i]) != key(base.current[j]));
                    }
                },
            }
        }
    }
}

/// The first tick is silent, whatever it holds.
pub proof fn first_process_tick_is_silent(s: ProcessStage, now: Timestamp)
    requires
        !s.primed,
    ensures
        s.tick_events(now) == Seq::<EventView>::empty(),
{
}

/// A tick with the same processes as the one before is silent.
pub proof fn unchanged_process_tick_is_silent(s: ProcessStage, now: Timestamp)
    requires
        forall|i: int| 0 <= i < s.current.len() ==> in_tick(s.prior, #[trigger] s.current[i]),
        forall|i: int| 0 <= i < s.prior.len() ==> in_tick(s.current, #[trigger] s.prior[i]),
    ensures
        s.tick_events(now) == Seq::<EventView>::empty(),
{
    nothing_kept(s.current, born_since(s.prior));
    nothing_kept(s.prior, dead_since(s.current, now));
    assert(Seq::<EventView>::empty() + Seq::<EventView>::empty() =~= Seq::<EventView>::empty());
}

/// Nothing is kept of elements that the function does not map.
pub(crate) proof fn nothing_kept<A, B>(s: Seq<A>, f: spec_fn(A) -> Option<B>)
    requires
        forall|i: int| 0 <= i < s.len() ==> f(#[trigger] s[i]) is None,
    ensures
        s.filter_map(f) == Seq::<B>::empty(),
    decreases s.len(),
{
    if s.len() == 0 {
        filter_map_start(s, f);
        take_all(s);
    } else {
        let n = s.len() - 1;
        let t = s.take(n);
        assert forall|i: int| 0 <= i < t.len() implies f(#[trigger] t[i]) is None by {
            assert(f(s[i]) is None);
        }
        nothing_kept(t, f);
        filter_map_step(s, f, n);
        take_all(s);
        assert(f(s[n]) is None);
    }
}

/// A process that is new in a tick is born, and one that is missing has died.
pub proof fn changes_are_reported(s: ProcessStage, now: Timestamp, i: int)
    requires
        s.primed,
    ensures
        0 <= i < s.current.len() && !in_tick(s.prior, s.current[i]) ==> s.tick_events(
            now,
        ).contains(birth_of(s.current[i])),
        0 <= i < s.prior.len() && !in_tick(s.current, s.prior[i]) ==> s.tick_events(now).contains(
            death_of(s.prior[i], now),
        ),
{
    let births = s.current.filter_map(born_since(s.prior));
    let deaths = s.prior.filter_map(dead_since(s.current, now));
    if 0 <= i < s.current.len() && !in_tick(s.prior, s.current[i]) {
        filter_map_keeps(s.current, born_since(s.prior), i);
        let k = choose|k: int| 0 <= k < births.len() && births[k] == birth_of(s.current[i]);
        assert(s.tick_events(now)[k] == birth_of(s.current[i]));
    }
    if 0 <= i < s.prior.len() && !in_tick(s.current, s.prior[i]) {
        filter_map_keeps(s.prior, dead_since(s.current, now), i);
        let k = choose|k: int| 0 <= k < deaths.len() && deaths[k] == death_of(s.prior[i], now);
        assert(s.tick_events(now)[births.len() + k] == death_of(s.prior[i], now));
    }
}

/// Every event of a tick is the birth of a process that is new in it, or the
/// death of one that is missing from it.
pub proof fn only_changes_are_reported(s: ProcessStage, now: Timestamp, e: EventView)
    requires
        s.tick_events(now).contains(e),
    ensures
        (exists|r: ProcessRecordView|
            #[trigger] s.current.contains(r) && !in_tick(s.prior, r) && e == birth_of(r)) || (exists|
            r: ProcessRecordView,
        |
            #[trigger] s.prior.contains(r) && !in_tick(s.current, r) && e == death_of(r, now)),
{
    let births = s.current.filter_map(born_since(s.prior));
    let deaths = s.prior.filter_map(dead_since(s.current, now));
    let k = choose|k: int| 0 <= k < s.tick_events(now).len() && s.tick_events(now)[k] == e;
    if k < births.len() {
        assert(births[k] == e);
        assert(births.contains(e));
        s.current.lemma_filter_map_contains(born_since(s.prior), e);
    } else {
        assert(deaths[k - births.len()] == e);
        assert(deaths.contains(e));
        s.prior.lemma_filter_map_contains(dead_since(s.current, now), e);
    }
}

/// The stage after some observations.
pub open spec fn traced(obs: Seq<ObservationView>) -> ProcessStage
    decreases obs.len(),
{
    if obs.len() == 0 {
        ProcessStage { current: Seq::empty(), prior: Seq::empty(), primed: false, last_obs_ts: None }
    } else {
        traced(obs.drop_last()).after(obs.last())
    }
}

/// Whatever was observed, no process stands twice in a tick.
pub proof fn traced_ticks_are_distinct(obs: Seq<ObservationView>)
    ensures
        traced(obs).wf(),
    decreases obs.len(),
{
    if obs.len() > 0 {
        traced_ticks_are_distinct(obs.drop_last());
        process_stage_stays_wf(traced(obs.drop_last()), obs.last());
    }
}

/// Whether an event is of a kind, and of a process.
pub open spec fn is_event_of(kind: EventKind, pid: u32, start: u64) -> spec_fn(EventView) -> bool {
    |e: EventView|
        e.kind == kind && e.pid == Some(pid) && e.payload.u64_at("start_unix_secs"@) == Some(start)
}

/// Whether a tick has the process with an identity.
pub open spec fn has_identity(tick: Seq<ProcessRecordView>, pid: u32, start: u64) -> bool {
    any_where(tick, is_process(pid, start))
}

/// Births and deaths tell the start time of their process.
proof fn start_is_told(r: ProcessRecordView, now: Timestamp)
    ensures
        birth_of(r).payload.u64_at("start_unix_secs"@) == Some(r.start_unix_secs),
        death_of(r, now).payload.u64_at("start_unix_secs"@) == Some(r.start_unix_secs),
{
    reveal_strlit("comm");
    reveal_strlit("name");
    reveal_strlit("ppid");
    reveal_strlit("uid");
    reveal_strlit("exec_path");
    reveal_strlit("start_unix_secs");
    reveal_with_fuel(crate::json::entry, 7);
    let f = process_fields(r);
    let g = f.push(("last_seen"@, timestamp_json(r.last_seen)));
    assert(f.len() == 6 && g.len() == 7);
    assert("start_unix_secs"@.len() == 15);
    skipped(f);
    skipped(g);
}

/// What is skipped one by one stands where it stood.
proof fn skipped<A>(s: Seq<A>)
    requires
        s.len() >= 6,
    ensures
        s.skip(1).skip(1) == s.skip(2),
        s.skip(2).skip(1) == s.skip(3),
        s.skip(3).skip(1) == s.skip(4),
        s.skip(4).skip(1) == s.skip(5),
        s.skip(1)[0] == s[1],
        s.skip(2)[0] == s[2],
        s.skip(3)[0] == s[3],
        s.skip(4)[0] == s[4],
        s.skip(5)[0] == s[5],
{
    assert(s.skip(1).skip(1) =~= s.skip(2));
    assert(s.skip(2).skip(1) =~= s.skip(3));
    assert(s.skip(3).skip(1) =~= s.skip(4));
    assert(s.skip(4).skip(1) =~= s.skip(5));
}

/// Of a tick that repeats nothing, a process counts once where another tick
/// misses it and it is there, and else not at all.
proof fn missed_counts_once(
    here: Seq<ProcessRecordView>,
    there: Seq<ProcessRecordView>,
    f: spec_fn(ProcessRecordView) -> Option<EventView>,
    q: spec_fn(EventView) -> bool,
    pid: u32,
    start: u64,
)
    requires
        distinct_by(here, record_key()),
        forall|r: ProcessRecordView|
            #[trigger] keeps_where(f, q)(r) <==> is_process(pid, start)(r) && !in_tick(there, r),
    ensures
        count_where(here.filter_map(f), q) == if has_identity(here, pid, start) && !has_identity(
            there,
            pid,
            start,
        ) {
            1nat
        } else {
            0nat
        },
{
    let p = is_process(pid, start);
    let k = keeps_where(f, q);
    let key = record_key();
    count_kept(here, f, q);
    first_where_is_first(here, p);
    if has_identity(here, pid, start) && !has_identity(there, pid, start) {
        let i = first_where(here, p)->0;
        assert(k(here[i]));
        assert forall|j: int| 0 <= j < here.len() && j != i implies !k(#[trigger] here[j]) by {
            if j < i {
                assert(key(here[j]) != key(here[i]));
            } else {
                assert(key(here[i]) != key(here[j]));
            }
        }
        count_where_one(here, k, i);
    } else {
        assert forall|j: int| 0 <= j < here.len() implies !k(#[trigger] here[j]) by {
            if k(here[j]) {
                assert(p(here[j]));
            }
        }
        count_where_none(here, k);
    }
}

/// After the first tick, a tick that is over brings one birth of each process
/// that is new in it, one death of each that is missing from it, and nothing
/// else.
pub proof fn each_change_is_reported_once(s: ProcessStage, now: Timestamp, pid: u32, start: u64)
    requires
        s.wf(),
        s.primed,
    ensures
        count_where(s.tick_events(now), is_event_of(EventKind::ProcessBirth, pid, start)) == if has_identity(
            s.current,
            pid,
            start,
        ) && !has_identity(s.prior, pid, start) {
            1nat
        } else {
            0nat
        },
        count_where(s.tick_events(now), is_event_of(EventKind::ProcessDeath, pid, start)) == if has_identity(
            s.prior,
            pid,
            start,
        ) && !has_identity(s.current, pid, start) {
            1nat
        } else {
            0nat
        },
        forall|i: int|
            0 <= i < s.tick_events(now).len() ==> (#[trigger] s.tick_events(now)[i]).kind
                == EventKind::ProcessBirth || s.tick_events(now)[i].kind == EventKind::ProcessDeath,
{
    let f = born_since(s.prior);
    let g = dead_since(s.current, now);
    let births = s.current.filter_map(f);
    let deaths = s.prior.filter_map(g);
    let b = is_event_of(EventKind::ProcessBirth, pid, start);
    let d = is_event_of(EventKind::ProcessDeath, pid, start);
    count_where_joins(births, deaths, b);
    count_where_joins(births, deaths, d);
    assert forall|r: ProcessRecordView| #[trigger] keeps_where(f, b)(r) <==> is_process(pid, start)(
        r,
    ) && !in_tick(s.prior, r) by {
        start_is_told(r, now);
    }
    assert forall|r: ProcessRecordView| #[trigger] keeps_where(g, d)(r) <==> is_process(pid, start)(
        r,
    ) && !in_tick(s.current, r) by {
        start_is_told(r, now);
    }
    missed_counts_once(s.current, s.prior, f, b, pid, start);
    missed_counts_once(s.prior, s.current, g, d, pid, start);
    count_kept(s.current, f, d);
    count_where_none(s.current, keeps_where(f, d));
    count_kept(s.prior, g, b);
    count_where_none(s.prior, keeps_where(g, b));
    assert forall|i: int| 0 <= i < s.tick_events(now).len() implies (#[trigger] s.tick_events(
        now,
    )[i]).kind == EventKind::ProcessBirth || s.tick_events(now)[i].kind
        == EventKind::ProcessDeath by {
        assert(s.tick_events(now).contains(s.tick_events(now)[i]));
        only_changes_are_reported(s, now, s.tick_events(now)[i]);
    }
}

} // verus!
