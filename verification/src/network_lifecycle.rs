//! Connection lifecycle: snapshots of the socket table become openings and
//! closings.
//!
//! A connection is identified by its protocol and its two addresses. Its state
//! is a property: a change of state opens and closes nothing. With a closing
//! comes a summary of the whole connection.

use vstd::prelude::*;
use vstd::string::*;

use crate::events::{timestamp_json, timestamp_to_json, Event, EventKind, EventView, SCHEMA_VERSION};
use crate::graph::{same_socket, SocketId, SocketIdView};
use crate::json::{int_of_u64, opt_int, opt_str, put, Json, JsonView};
use crate::observation::{Observation, ObservationView, Timestamp};
use crate::process_lifecycle::{ends_tick, nothing_kept, TICK_GAP_NS};
use crate::seqs::{
    any_where, distinct_by, filter_map_start, filter_map_step, first_where, first_where_from,
    first_where_is_first, push_item, take_all,
};

verus! {

/// What is known of a connection in a tick.
#[derive(Debug)]
pub(crate) struct ConnectionRecord {
    pub(crate) id: SocketId,
    pub(crate) state: Option<String>,
    pub(crate) pid: Option<u32>,
    pub(crate) process_name: Option<String>,
    pub(crate) rxbytes: Option<u64>,
    pub(crate) txbytes: Option<u64>,
    /// When the connection was first observed, over all ticks that had it.
    pub(crate) first_seen: Timestamp,
    pub(crate) last_seen: Timestamp,
}

/// What is known of a connection in a tick.
pub struct ConnectionRecordView {
    pub id: SocketIdView,
    pub state: Option<Seq<char>>,
    pub pid: Option<u32>,
    pub process_name: Option<Seq<char>>,
    pub rxbytes: Option<u64>,
    pub txbytes: Option<u64>,
    pub first_seen: Timestamp,
    pub last_seen: Timestamp,
}

impl DeepView for ConnectionRecord {
    type V = ConnectionRecordView;

    open(crate) spec fn deep_view(&self) -> ConnectionRecordView {
        ConnectionRecordView {
            id: self.id.deep_view(),
            state: self.state.deep_view(),
            pid: self.pid,
            process_name: self.process_name.deep_view(),
            rxbytes: self.rxbytes,
            txbytes: self.txbytes,
            first_seen: self.first_seen,
            last_seen: self.last_seen,
        }
    }
}

/// The stage.
#[derive(Debug)]
pub struct NetworkLifecycle {
    current: Vec<ConnectionRecord>,
    prior: Vec<ConnectionRecord>,
    primed: bool,
    last_obs_ts: Option<Timestamp>,
}

/// What the stage holds: the tick under way, the last complete one, whether
/// there was one, and when the last observation came.
#[verifier::ext_equal]
pub struct NetworkStage {
    pub current: Seq<ConnectionRecordView>,
    pub prior: Seq<ConnectionRecordView>,
    pub primed: bool,
    pub last_obs_ts: Option<Timestamp>,
}

impl View for NetworkLifecycle {
    type V = NetworkStage;

    closed spec fn view(&self) -> NetworkStage {
        NetworkStage {
            current: self.current.deep_view(),
            prior: self.prior.deep_view(),
            primed: self.primed,
            last_obs_ts: self.last_obs_ts,
        }
    }
}

/// Whether a record is of a connection.
pub open spec fn is_connection(id: SocketIdView) -> spec_fn(ConnectionRecordView) -> bool {
    |r: ConnectionRecordView| r.id == id
}

/// Whether a tick has a connection.
pub open spec fn in_tick(tick: Seq<ConnectionRecordView>, id: SocketIdView) -> bool {
    any_where(tick, is_connection(id))
}

/// A record's identity.
pub open spec fn record_key() -> spec_fn(ConnectionRecordView) -> SocketIdView {
    |r: ConnectionRecordView| r.id
}

/// When a connection was first seen, if the tick has it.
pub open spec fn first_seen_in(tick: Seq<ConnectionRecordView>, id: SocketIdView) -> Option<
    Timestamp,
> {
    match first_where(tick, is_connection(id)) {
        Some(i) => Some(tick[i].first_seen),
        None => None,
    }
}

/// A tick after one more record: the same connection is replaced.
pub open spec fn with_record(tick: Seq<ConnectionRecordView>, r: ConnectionRecordView) -> Seq<
    ConnectionRecordView,
> {
    match first_where(tick, is_connection(r.id)) {
        Some(i) => tick.update(i, r),
        None => tick.push(r),
    }
}

/// The connection that an observation is of; none without a protocol and both
/// addresses.
pub open spec fn connection_of(obs: ObservationView) -> Option<SocketIdView> {
    match (
        obs.payload.str_at("proto"@),
        obs.payload.str_at("local_addr"@),
        obs.payload.str_at("foreign_addr"@),
    ) {
        (Some(proto), Some(local_addr), Some(foreign_addr)) => Some(
            SocketIdView { proto, local_addr, foreign_addr },
        ),
        _ => None,
    }
}

/// What an observation says of its connection, which was first seen at a time.
pub open spec fn record_of(
    obs: ObservationView,
    id: SocketIdView,
    first_seen: Timestamp,
) -> ConnectionRecordView {
    ConnectionRecordView {
        id,
        state: obs.payload.str_at("state"@),
        pid: obs.pid,
        process_name: obs.payload.str_at("process_name"@),
        rxbytes: obs.payload.u64_at("rxbytes"@),
        txbytes: obs.payload.u64_at("txbytes"@),
        first_seen,
        last_seen: obs.timestamp,
    }
}

/// The fields that openings and closings share.
pub open spec fn connection_fields(r: ConnectionRecordView) -> Seq<(Seq<char>, JsonView)> {
    seq![
        ("proto"@, JsonView::Str(r.id.proto)),
        ("local_addr"@, JsonView::Str(r.id.local_addr)),
        ("foreign_addr"@, JsonView::Str(r.id.foreign_addr)),
        ("state"@, opt_str(r.state)),
        ("process_name"@, opt_str(r.process_name)),
        ("rxbytes"@, opt_int(int_of_u64(r.rxbytes))),
        ("txbytes"@, opt_int(int_of_u64(r.txbytes))),
    ]
}

/// The opening of a connection, when it was seen.
pub open spec fn opened(r: ConnectionRecordView) -> EventView {
    EventView {
        schema_version: SCHEMA_VERSION,
        timestamp: r.last_seen,
        kind: EventKind::ConnectionOpened,
        pid: r.pid,
        payload: JsonView::Object(connection_fields(r)),
    }
}

/// The closing of a connection, at the end of the tick that missed it.
pub open spec fn closed(r: ConnectionRecordView, now: Timestamp) -> EventView {
    EventView {
        schema_version: SCHEMA_VERSION,
        timestamp: now,
        kind: EventKind::ConnectionClosed,
        pid: r.pid,
        payload: JsonView::Object(
            connection_fields(r).push(("last_seen"@, timestamp_json(r.last_seen))),
        ),
    }
}

/// The time between the first and the last sight of a connection; none if
/// they are the wrong way round.
pub open spec fn duration(r: ConnectionRecordView) -> int {
    if r.last_seen.mono_ns >= r.first_seen.mono_ns {
        r.last_seen.mono_ns - r.first_seen.mono_ns
    } else {
        0
    }
}

/// The summary of a connection that was closed.
pub open spec fn completed(r: ConnectionRecordView, now: Timestamp) -> EventView {
    EventView {
        schema_version: SCHEMA_VERSION,
        timestamp: now,
        kind: EventKind::ConnectionCompleted,
        pid: r.pid,
        payload: JsonView::Object(
            seq![
                ("proto"@, JsonView::Str(r.id.proto)),
                ("local_addr"@, JsonView::Str(r.id.local_addr)),
                ("foreign_addr"@, JsonView::Str(r.id.foreign_addr)),
                ("final_state"@, opt_str(r.state)),
                ("process_name"@, opt_str(r.process_name)),
                ("bytes_rx"@, opt_int(int_of_u64(r.rxbytes))),
                ("bytes_tx"@, opt_int(int_of_u64(r.txbytes))),
                ("opened_at"@, timestamp_json(r.first_seen)),
                ("closed_at"@, timestamp_json(r.last_seen)),
                ("duration_ns"@, JsonView::Int(duration(r))),
            ],
        ),
    }
}

/// The opening of a connection that a tick does not have.
pub open spec fn opened_since(prior: Seq<ConnectionRecordView>) -> spec_fn(
    ConnectionRecordView,
) -> Option<EventView> {
    |r: ConnectionRecordView|
        if in_tick(prior, r.id) {
            None
        } else {
            Some(opened(r))
        }
}

/// The closing and the summary of every connection that a tick does not have.
pub open spec fn closings(
    prior: Seq<ConnectionRecordView>,
    current: Seq<ConnectionRecordView>,
    now: Timestamp,
) -> Seq<EventView>
    decreases prior.len(),
{
    if prior.len() == 0 {
        Seq::empty()
    } else {
        let rest = closings(prior.drop_last(), current, now);
        let r = prior.last();
        if in_tick(current, r.id) {
            rest
        } else {
            rest.push(closed(r, now)).push(completed(r, now))
        }
    }
}

impl NetworkStage {
    /// The events of a tick that is over: first the openings, then each
    /// closing with its summary; none for the first tick.
    pub open spec fn tick_events(self, now: Timestamp) -> Seq<EventView> {
        if self.primed {
            self.current.filter_map(opened_since(self.prior)) + closings(
                self.prior,
                self.current,
                now,
            )
        } else {
            Seq::empty()
        }
    }

    /// The stage after a tick: what was current is now the last complete tick.
    pub open spec fn after_tick(self) -> NetworkStage {
        NetworkStage { current: Seq::empty(), prior: self.current, primed: true, ..self }
    }

    /// When a connection that is observed now was first seen: in the tick
    /// under way, in the one before, or now.
    pub open spec fn first_seen(self, id: SocketIdView, now: Timestamp) -> Timestamp {
        match first_seen_in(self.current, id) {
            Some(t) => t,
            None => match first_seen_in(self.prior, id) {
                Some(t) => t,
                None => now,
            },
        }
    }

    /// The stage after an observation.
    pub open spec fn after(self, obs: ObservationView) -> NetworkStage {
        match connection_of(obs) {
            None => self,
            Some(id) => {
                let base = if ends_tick(self.last_obs_ts, obs.timestamp) {
                    self.after_tick()
                } else {
                    self
                };
                NetworkStage {
                    current: with_record(
                        base.current,
                        record_of(obs, id, base.first_seen(id, obs.timestamp)),
                    ),
                    last_obs_ts: Some(obs.timestamp),
                    ..base
                }
            },
        }
    }

    /// The events that an observation brings: those of the tick that it ends.
    pub open spec fn emitted(self, obs: ObservationView) -> Seq<EventView> {
        if connection_of(obs) is Some && ends_tick(self.last_obs_ts, obs.timestamp) {
            self.tick_events(self.last_obs_ts->0)
        } else {
            Seq::empty()
        }
    }

    /// No connection stands twice in a tick.
    pub open spec fn wf(self) -> bool {
        distinct_by(self.current, record_key()) && distinct_by(self.prior, record_key())
    }
}

fn find_record(tick: &Vec<ConnectionRecord>, id: &SocketId) -> (r: Option<usize>)
    ensures
        match r {
            Some(i) => first_where(tick.deep_view(), is_connection(id.deep_view())) == Some(
                i as int,
            ) && i < tick@.len(),
            None => first_where(tick.deep_view(), is_connection(id.deep_view())) is None,
        },
{
    let ghost all = tick.deep_view();
    let ghost p = is_connection(id.deep_view());
    let mut i: usize = 0;
    while i < tick.len()
        invariant
            all == tick.deep_view(),
            p == is_connection(id.deep_view()),
            i <= tick@.len(),
            first_where(all, p) == first_where_from(all, p, i as int),
        decreases tick@.len() - i,
    {
        assert(all[i as int] == tick@[i as int].deep_view());
        if same_socket(&tick[i].id, id) {
            return Some(i);
        }
        i = i + 1;
    }
    None
}

fn fields_of(r: &ConnectionRecord) -> (f: Vec<(String, Json)>)
    ensures
        f.deep_view() == connection_fields(r.deep_view()),
{
    let mut f: Vec<(String, Json)> = Vec::new();
    put(&mut f, "proto", Json::text(r.id.proto.as_str()));
    put(&mut f, "local_addr", Json::text(r.id.local_addr.as_str()));
    put(&mut f, "foreign_addr", Json::text(r.id.foreign_addr.as_str()));
    put(&mut f, "state", Json::opt_text(&r.state));
    put(&mut f, "process_name", Json::opt_text(&r.process_name));
    put(&mut f, "rxbytes", Json::opt_u64(r.rxbytes));
    put(&mut f, "txbytes", Json::opt_u64(r.txbytes));
    assert(f.deep_view() =~= connection_fields(r.deep_view()));
    f
}

fn opened_event(r: &ConnectionRecord) -> (e: Event)
    ensures
        e.deep_view() == opened(r.deep_view()),
{
    Event {
        schema_version: SCHEMA_VERSION,
        timestamp: r.last_seen,
        kind: EventKind::ConnectionOpened,
        pid: r.pid,
        payload: Json::object(fields_of(r)),
    }
}

fn closed_event(r: &ConnectionRecord, now: Timestamp) -> (e: Event)
    ensures
        e.deep_view() == closed(r.deep_view(), now),
{
    let mut f = fields_of(r);
    put(&mut f, "last_seen", timestamp_to_json(r.last_seen));
    Event {
        schema_version: SCHEMA_VERSION,
        timestamp: now,
        kind: EventKind::ConnectionClosed,
        pid: r.pid,
        payload: Json::object(f),
    }
}

fn completed_event(r: &ConnectionRecord, now: Timestamp) -> (e: Event)
    ensures
        e.deep_view() == completed(r.deep_view(), now),
{
    let duration_ns: u64 = r.last_seen.mono_ns.saturating_sub(r.first_seen.mono_ns);
    let mut f: Vec<(String, Json)> = Vec::new();
    put(&mut f, "proto", Json::text(r.id.proto.as_str()));
    put(&mut f, "local_addr", Json::text(r.id.local_addr.as_str()));
    put(&mut f, "foreign_addr", Json::text(r.id.foreign_addr.as_str()));
    put(&mut f, "final_state", Json::opt_text(&r.state));
    put(&mut f, "process_name", Json::opt_text(&r.process_name));
    put(&mut f, "bytes_rx", Json::opt_u64(r.rxbytes));
    put(&mut f, "bytes_tx", Json::opt_u64(r.txbytes));
    put(&mut f, "opened_at", timestamp_to_json(r.first_seen));
    put(&mut f, "closed_at", timestamp_to_json(r.last_seen));
    put(&mut f, "duration_ns", Json::U64(duration_ns));
    assert(f.deep_view() =~= completed(r.deep_view(), now).payload->Object_0);
    Event {
        schema_version: SCHEMA_VERSION,
        timestamp: now,
        kind: EventKind::ConnectionCompleted,
        pid: r.pid,
        payload: Json::object(f),
    }
}

impl NetworkLifecycle {
    /// A stage that has seen nothing.
    pub fn new() -> (r: Self)
        ensures
            r@ == (NetworkStage {
                current: Seq::empty(),
                prior: Seq::empty(),
                primed: false,
                last_obs_ts: None,
            }),
            r@.wf(),
    {
        let r = NetworkLifecycle {
            current: Vec::new(),
            prior: Vec::new(),
            primed: false,
            last_obs_ts: None,
        };
        assert(r@.current =~= Seq::empty());
        assert(r@.prior =~= Seq::empty());
        r
    }

    /// Takes one observation. Where it comes more than `TICK_GAP_NS` after the
    /// last one, the tick before it is over and its events are returned.
    pub fn on_observation(&mut self, obs: &Observation) -> (r: Vec<Event>)
        ensures
            final(self)@ == old(self)@.after(obs.deep_view()),
            r.deep_view() == old(self)@.emitted(obs.deep_view()),
            old(self)@.wf() ==> final(self)@.wf(),
    {
        proof {
            network_stage_stays_wf(self@, obs.deep_view());
        }
        let none: Vec<Event> = Vec::new();
        assert(none.deep_view() =~= Seq::<EventView>::empty());
        let proto: String = match obs.payload.string_at("proto") {
            Some(s) => s,
            None => return none,
        };
        let local_addr: String = match obs.payload.string_at("local_addr") {
            Some(s) => s,
            None => return none,
        };
        let foreign_addr: String = match obs.payload.string_at("foreign_addr") {
            Some(s) => s,
            None => return none,
        };
        let id = SocketId { proto, local_addr, foreign_addr };
        let mut events = none;
        match self.last_obs_ts {
            Some(prev) => {
                if obs.timestamp.mono_ns > prev.mono_ns && obs.timestamp.mono_ns - prev.mono_ns
                    > TICK_GAP_NS {
                    events = self.finalize_tick(prev);
                }
            },
            None => {},
        }
        let ghost base = self@;
        let at: Option<usize> = find_record(&self.current, &id);
        let first_seen: Timestamp = match at {
            Some(i) => self.current[i].first_seen,
            None => match find_record(&self.prior, &id) {
                Some(k) => self.prior[k].first_seen,
                None => obs.timestamp,
            },
        };
        assert(first_seen == base.first_seen(id.deep_view(), obs.timestamp));
        let record = ConnectionRecord {
            id,
            state: obs.payload.string_at("state"),
            pid: obs.pid,
            process_name: obs.payload.string_at("process_name"),
            rxbytes: obs.payload.u64_at("rxbytes"),
            txbytes: obs.payload.u64_at("txbytes"),
            first_seen,
            last_seen: obs.timestamp,
        };
        let ghost rv = record.deep_view();
        let ghost before = self.current.deep_view();
        match at {
            Some(i) => {
                self.current[i] = record;
                assert(self.current.deep_view() =~= before.update(i as int, rv));
            },
            None => {
                push_item(&mut self.current, record);
            },
        }
        self.last_obs_ts = Some(obs.timestamp);
        events
    }

    /// Ends the tick under way, at the end of input.
    pub fn on_tick_complete(&mut self, now: Timestamp) -> (r: Vec<Event>)
        ensures
            final(self)@ == old(self)@.after_tick(),
            r.deep_view() == old(self)@.tick_events(now),
    {
        self.finalize_tick(now)
    }

    fn finalize_tick(&mut self, now: Timestamp) -> (r: Vec<Event>)
        ensures
            final(self)@ == old(self)@.after_tick(),
            r.deep_view() == old(self)@.tick_events(now),
    {
        let mut events: Vec<Event> = Vec::new();
        assert(events.deep_view() =~= Seq::<EventView>::empty());
        if self.primed {
            let ghost cur = self.current.deep_view();
            let ghost pri = self.prior.deep_view();
            let ghost open = opened_since(pri);
            let mut i: usize = 0;
            proof {
                filter_map_start(cur, open);
            }
            while i < self.current.len()
                invariant
                    self@ == old(self)@,
                    cur == self.current.deep_view(),
                    pri == self.prior.deep_view(),
                    open == opened_since(pri),
                    i <= self.current@.len(),
                    events.deep_view() == cur.take(i as int).filter_map(open),
                decreases self.current@.len() - i,
            {
                proof {
                    filter_map_step(cur, open, i as int);
                }
                let r: &ConnectionRecord = &self.current[i];
                assert(cur[i as int] == r.deep_view());
                if find_record(&self.prior, &r.id).is_none() {
                    push_item(&mut events, opened_event(r));
                }
                i = i + 1;
            }
            proof {
                take_all(cur);
            }
            let ghost opens = events.deep_view();
            assert(opens + closings(pri.take(0), cur, now) =~= opens);
            i = 0;
            while i < self.prior.len()
                invariant
                    self@ == old(self)@,
                    cur == self.current.deep_view(),
                    pri == self.prior.deep_view(),
                    i <= self.prior@.len(),
                    events.deep_view() == opens + closings(pri.take(i as int), cur, now),
                decreases self.prior@.len() - i,
            {
                assert(pri.take(i + 1).drop_last() =~= pri.take(i as int));
                let r: &ConnectionRecord = &self.prior[i];
                assert(pri[i as int] == r.deep_view());
                if find_record(&self.current, &r.id).is_none() {
                    let a = closed_event(r, now);
                    let b = completed_event(r, now);
                    let ghost av = a.deep_view();
                    let ghost bv = b.deep_view();
                    let ghost sofar = closings(pri.take(i as int), cur, now);
                    push_item(&mut events, a);
                    push_item(&mut events, b);
                    assert((opens + sofar).push(av).push(bv) =~= opens + sofar.push(av).push(bv));
                }
                i = i + 1;
            }
            proof {
                take_all(pri);
            }
        } else {
            self.primed = true;
        }
        let mut fresh: Vec<ConnectionRecord> = Vec::new();
        assert(fresh.deep_view() =~= Seq::<ConnectionRecordView>::empty());
        core::mem::swap(&mut self.current, &mut fresh);
        self.prior = fresh;
        events
    }
}

impl Default for NetworkLifecycle {
    fn default() -> (r: Self)
        ensures
            r@ == (NetworkStage {
                current: Seq::empty(),
                prior: Seq::empty(),
                primed: false,
                last_obs_ts: None,
            }),
    {
        NetworkLifecycle::new()
    }
}

// ---------- laws -----------------------------------------------------------------

/// The stage never holds a connection twice in a tick.
proof fn network_stage_stays_wf(s: NetworkStage, obs: ObservationView)
    ensures
        s.wf() ==> s.after(obs).wf(),
{
    if s.wf() && connection_of(obs) is Some {
        let id = connection_of(obs)->0;
        let base = if ends_tick(s.last_obs_ts, obs.timestamp) {
            s.after_tick()
        } else {
            s
        };
        let r = record_of(obs, id, base.first_seen(id, obs.timestamp));
        let key = record_key();
        let p = is_connection(id);
        first_where_is_first(base.current, p);
        let after = with_record(base.current, r);
        assert forall|i: int, j: int| 0 <= i < j < after.len() implies key(#[trigger] after[i])
            != key(#[trigger] after[j]) by {
            match first_where(base.current, p) {
                Some(k) => {
                    assert(key(after[i]) == key(base.current[i]));
                    assert(key(after[j]) == key(base.current[j]));
                },
                None => {
                    if j == base.current.len() {
                        assert(!p(base.current[i]));
                    } else {
                        assert(key(base.current[i]) != key(base.current[j]));
                    }
                },
            }
        }
    }
}

/// The first tick is silent, whatever it holds.
pub proof fn first_network_tick_is_silent(s: NetworkStage, now: Timestamp)
    requires
        !s.primed,
    ensures
        s.tick_events(now) == Seq::<EventView>::empty(),
{
}

proof fn nothing_closed(
    prior: Seq<ConnectionRecordView>,
    current: Seq<ConnectionRecordView>,
    now: Timestamp,
)
    requires
        forall|i: int| 0 <= i < prior.len() ==> in_tick(current, (#[trigger] prior[i]).id),
    ensures
        closings(prior, current, now) == Seq::<EventView>::empty(),
    decreases prior.len(),
{
    if prior.len() > 0 {
        let t = prior.drop_last();
        assert forall|i: int| 0 <= i < t.len() implies in_tick(current, (#[trigger] t[i]).id) by {
            assert(t[i] == prior[i]);
        }
        nothing_closed(t, current, now);
        assert(in_tick(current, prior[prior.len() - 1].id));
    }
}

/// A tick with the same connections as the one before is silent, whatever
/// became of their states and counters.
pub proof fn unchanged_network_tick_is_silent(s: NetworkStage, now: Timestamp)
    requires
        forall|i: int| 0 <= i < s.current.len() ==> in_tick(s.prior, (#[trigger] s.current[i]).id),
        forall|i: int| 0 <= i < s.prior.len() ==> in_tick(s.current, (#[trigger] s.prior[i]).id),
    ensures
        s.tick_events(now) == Seq::<EventView>::empty(),
{
    nothing_kept(s.current, opened_since(s.prior));
    nothing_closed(s.prior, s.current, now);
    assert(Seq::<EventView>::empty() + Seq::<EventView>::empty() =~= Seq::<EventView>::empty());
}

/// Every closing is followed by the summary of the same connection.
pub proof fn closing_comes_with_summary(
    prior: Seq<ConnectionRecordView>,
    current: Seq<ConnectionRecordView>,
    now: Timestamp,
    i: int,
)
    requires
        0 <= i < prior.len(),
        !in_tick(current, prior[i].id),
    ensures
        exists|k: int|
            0 <= k && k + 1 < closings(prior, current, now).len() && #[trigger] closings(
                prior,
                current,
                now,
            )[k] == closed(prior[i], now) && closings(prior, current, now)[k + 1] == completed(
                prior[i],
                now,
            ),
    decreases prior.len(),
{
    let t = prior.drop_last();
    let rest = closings(t, current, now);
    let all = closings(prior, current, now);
    if i == prior.len() - 1 {
        let k = rest.len() as int;
        assert(all[k] == closed(prior[i], now));
        assert(all[k + 1] == completed(prior[i], now));
    } else {
        assert(t[i] == prior[i]);
        closing_comes_with_summary(t, current, now, i);
        let k = choose|k: int|
            0 <= k && k + 1 < rest.len() && #[trigger] rest[k] == closed(prior[i], now) && rest[k
                + 1] == completed(prior[i], now);
        assert(all[k] == rest[k]);
        assert(all[k + 1] == rest[k + 1]);
    }
}

/// A connection that is still observed keeps when it was first seen, over any
/// number of ticks.
pub proof fn first_seen_is_kept(s: NetworkStage, obs: ObservationView)
    requires
        connection_of(obs) is Some,
    ensures
        ({
            let id = connection_of(obs)->0;
            let ticked = ends_tick(s.last_obs_ts, obs.timestamp);
            let known = if first_seen_in(s.current, id) is Some {
                first_seen_in(s.current, id)
            } else if ticked {
                None
            } else {
                first_seen_in(s.prior, id)
            };
            first_seen_in(s.after(obs).current, id) == Some(
                match known {
                    Some(t) => t,
                    None => obs.timestamp,
                },
            )
        }),
{
    let id = connection_of(obs)->0;
    let base = if ends_tick(s.last_obs_ts, obs.timestamp) {
        s.after_tick()
    } else {
        s
    };
    let r = record_of(obs, id, base.first_seen(id, obs.timestamp));
    let after = with_record(base.current, r);
    let p = is_connection(id);
    first_where_is_first(base.current, p);
    first_where_is_first(after, p);
    let at = match first_where(base.current, p) {
        Some(i) => i,
        None => base.current.len() as int,
    };
    assert(p(after[at]));
    assert forall|j: int| 0 <= j < at implies !p(#[trigger] after[j]) by {
        assert(after[j] == base.current[j]);
    }
}

} // verus!
