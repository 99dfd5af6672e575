//! What holds of the events that ticks of observations bring: which there are,
//! how often, and what they tell.

use vstd::prelude::*;

use crate::events::{timestamp_json_round_trip, timestamp_of, EventKind, EventView};
use crate::graph::SocketIdView;
use crate::json::{entry, JsonView};
use crate::network_lifecycle::{
    closed, closings, completed, connection_fields, in_tick, is_connection, opened, opened_since,
    record_key, ConnectionRecordView, NetworkStage,
};
use crate::observation::{ObservationView, Timestamp};
use crate::process_lifecycle::{birth_of, death_of, process_fields, ProcessRecordView, ProcessStage};
use crate::seqs::{
    count_kept, count_where, count_where_joins, count_where_none, count_where_one, filter_map_from,
    first_where, first_where_is_first, keeps_where,
};

verus! {

// ---------- fields -----------------------------------------------------------------

/// A field whose name none before it has is read under its name.
pub proof fn field_is_read(f: Seq<(Seq<char>, JsonView)>, i: int)
    requires
        0 <= i < f.len(),
        forall|j: int| 0 <= j < i ==> (#[trigger] f[j]).0 != f[i].0,
    ensures
        entry(f, f[i].0) == Some(f[i].1),
        JsonView::Object(f).get(f[i].0) == Some(f[i].1),
    decreases f.len(),
{
    if i > 0 {
        let rest = f.skip(1);
        assert(f[0].0 != f[i].0);
        assert forall|j: int| 0 <= j < i - 1 implies (#[trigger] rest[j]).0 != rest[i - 1].0 by {
            assert(rest[j] == f[j + 1]);
        }
        assert(rest[i - 1] == f[i]);
        field_is_read(rest, i - 1);
    }
}

/// The names of the fields of connections and processes differ.
proof fn names_differ()
    ensures
        "proto"@.len() == 5,
        "local_addr"@.len() == 10,
        "foreign_addr"@.len() == 12,
        "state"@.len() == 5,
        "state"@[0] == 's',
        "proto"@[0] == 'p',
        "process_name"@.len() == 12,
        "process_name"@[0] == 'p',
        "foreign_addr"@[0] == 'f',
        "rxbytes"@.len() == 7,
        "rxbytes"@[0] == 'r',
        "txbytes"@.len() == 7,
        "txbytes"@[0] == 't',
        "last_seen"@.len() == 9,
        "final_state"@.len() == 11,
        "bytes_rx"@.len() == 8,
        "bytes_rx"@[6] == 'r',
        "bytes_tx"@.len() == 8,
        "bytes_tx"@[6] == 't',
        "opened_at"@.len() == 9,
        "opened_at"@[0] == 'o',
        "closed_at"@.len() == 9,
        "closed_at"@[0] == 'c',
        "duration_ns"@.len() == 11,
        "duration_ns"@[0] == 'd',
        "final_state"@[0] == 'f',
        "comm"@.len() == 4,
        "comm"@[0] == 'c',
        "name"@.len() == 4,
        "name"@[0] == 'n',
        "ppid"@.len() == 4,
        "ppid"@[0] == 'p',
        "uid"@.len() == 3,
        "exec_path"@.len() == 9,
        "exec_path"@[0] == 'e',
        "last_seen"@[0] == 'l',
        "start_unix_secs"@.len() == 15,
{
    reveal_strlit("proto");
    reveal_strlit("local_addr");
    reveal_strlit("foreign_addr");
    reveal_strlit("state");
    reveal_strlit("process_name");
    reveal_strlit("rxbytes");
    reveal_strlit("txbytes");
    reveal_strlit("last_seen");
    reveal_strlit("final_state");
    reveal_strlit("bytes_rx");
    reveal_strlit("bytes_tx");
    reveal_strlit("opened_at");
    reveal_strlit("closed_at");
    reveal_strlit("duration_ns");
    reveal_strlit("comm");
    reveal_strlit("name");
    reveal_strlit("ppid");
    reveal_strlit("uid");
    reveal_strlit("exec_path");
    reveal_strlit("start_unix_secs");
}

// ---------- connections ------------------------------------------------------------

/// Whether a tick has a connection.
pub open spec fn has_connection(tick: Seq<ConnectionRecordView>, id: SocketIdView) -> bool {
    exists|i: int| 0 <= i < tick.len() && (#[trigger] tick[i]).id == id
}

/// Whether an event names a connection.
pub open spec fn names_connection(e: EventView, id: SocketIdView) -> bool {
    &&& e.payload.str_at("proto"@) == Some(id.proto)
    &&& e.payload.str_at("local_addr"@) == Some(id.local_addr)
    &&& e.payload.str_at("foreign_addr"@) == Some(id.foreign_addr)
}

/// Whether an event is of a kind, and of a connection.
pub open spec fn is_connection_event(kind: EventKind, id: SocketIdView) -> spec_fn(EventView) -> bool {
    |e: EventView| e.kind == kind && names_connection(e, id)
}

/// Whether an event tells what a record holds.
pub open spec fn tells_record(e: EventView, r: ConnectionRecordView) -> bool {
    &&& names_connection(e, r.id)
    &&& e.pid == r.pid
    &&& e.payload.str_at("state"@) == r.state
    &&& e.payload.str_at("process_name"@) == r.process_name
    &&& e.payload.u64_at("rxbytes"@) == r.rxbytes
    &&& e.payload.u64_at("txbytes"@) == r.txbytes
}

/// Whether an event tells the whole of a connection: its last state, its bytes,
/// when it was first and last seen, and for how long.
pub open spec fn tells_summary(e: EventView, r: ConnectionRecordView) -> bool {
    let (from, to) = (r.first_seen.mono_ns, r.last_seen.mono_ns);
    &&& names_connection(e, r.id)
    &&& e.pid == r.pid
    &&& e.payload.str_at("final_state"@) == r.state
    &&& e.payload.str_at("process_name"@) == r.process_name
    &&& e.payload.u64_at("bytes_rx"@) == r.rxbytes
    &&& e.payload.u64_at("bytes_tx"@) == r.txbytes
    &&& e.payload.get("opened_at"@) matches Some(t) && timestamp_of(t) == Some(r.first_seen)
    &&& e.payload.get("closed_at"@) matches Some(t) && timestamp_of(t) == Some(r.last_seen)
    &&& e.payload.u64_at("duration_ns"@) matches Some(d) && from + d == if from <= to {
        to
    } else {
        from
    }
}

/// An opening and a closing tell what the record holds, and a summary tells the
/// whole of it.
pub proof fn records_are_told(r: ConnectionRecordView, now: Timestamp)
    ensures
        tells_record(opened(r), r),
        opened(r).kind == EventKind::ConnectionOpened,
        opened(r).timestamp == r.last_seen,
        tells_record(closed(r, now), r),
        closed(r, now).kind == EventKind::ConnectionClosed,
        closed(r, now).timestamp == now,
        closed(r, now).payload.get("last_seen"@) matches Some(t) && timestamp_of(t) == Some(
            r.last_seen,
        ),
        tells_summary(completed(r, now), r),
        completed(r, now).kind == EventKind::ConnectionCompleted,
        completed(r, now).timestamp == now,
{
    names_differ();
    timestamp_json_round_trip(r.first_seen);
    timestamp_json_round_trip(r.last_seen);
    let f = connection_fields(r);
    let g = closed(r, now).payload->Object_0;
    let h = completed(r, now).payload->Object_0;
    assert forall|i: int| 0 <= i < 7 implies #[trigger] g[i] == f[i] by {}
    field_is_read(f, 0);
    field_is_read(f, 1);
    field_is_read(f, 2);
    field_is_read(f, 3);
    field_is_read(f, 4);
    field_is_read(f, 5);
    field_is_read(f, 6);
    field_is_read(g, 0);
    field_is_read(g, 1);
    field_is_read(g, 2);
    field_is_read(g, 3);
    field_is_read(g, 4);
    field_is_read(g, 5);
    field_is_read(g, 6);
    field_is_read(g, 7);
    field_is_read(h, 0);
    field_is_read(h, 1);
    field_is_read(h, 2);
    field_is_read(h, 3);
    field_is_read(h, 4);
    field_is_read(h, 5);
    field_is_read(h, 6);
    field_is_read(h, 7);
    field_is_read(h, 8);
    field_is_read(h, 9);
}

proof fn found_is_there(tick: Seq<ConnectionRecordView>, id: SocketIdView)
    ensures
        in_tick(tick, id) <==> has_connection(tick, id),
{
    first_where_is_first(tick, is_connection(id));
    if has_connection(tick, id) {
        let i = choose|i: int| 0 <= i < tick.len() && (#[trigger] tick[i]).id == id;
        assert(is_connection(id)(tick[i]));
    }
}

/// Of a tick that repeats nothing, a connection counts once where it is there
/// and another tick misses it.
proof fn missed_counts_once(
    here: Seq<ConnectionRecordView>,
    there: Seq<ConnectionRecordView>,
    p: spec_fn(ConnectionRecordView) -> bool,
    id: SocketIdView,
)
    requires
        crate::seqs::distinct_by(here, record_key()),
        forall|r: ConnectionRecordView| #[trigger] p(r) <==> r.id == id && !in_tick(there, id),
    ensures
        count_where(here, p) == if has_connection(here, id) && !has_connection(there, id) {
            1nat
        } else {
            0nat
        },
{
    found_is_there(there, id);
    if has_connection(here, id) && !has_connection(there, id) {
        let i = choose|i: int| 0 <= i < here.len() && (#[trigger] here[i]).id == id;
        assert(p(here[i]));
        assert forall|j: int| 0 <= j < here.len() && j != i implies !p(#[trigger] here[j]) by {
            if j < i {
                assert(record_key()(here[j]) != record_key()(here[i]));
            } else {
                assert(record_key()(here[i]) != record_key()(here[j]));
            }
        }
        count_where_one(here, p, i);
    } else {
        assert forall|j: int| 0 <= j < here.len() implies !p(#[trigger] here[j]) by {}
        count_where_none(here, p);
    }
}

/// Whether a record is of a connection that a tick misses.
spec fn is_missed(tick: Seq<ConnectionRecordView>, id: SocketIdView) -> spec_fn(
    ConnectionRecordView,
) -> bool {
    |r: ConnectionRecordView| r.id == id && !in_tick(tick, id)
}

/// What the closings count: a closing and a summary of each connection that the
/// other tick misses.
proof fn closings_count(
    prior: Seq<ConnectionRecordView>,
    current: Seq<ConnectionRecordView>,
    now: Timestamp,
    kind: EventKind,
    id: SocketIdView,
)
    ensures
        count_where(closings(prior, current, now), is_connection_event(kind, id)) == if kind
            == EventKind::ConnectionClosed || kind == EventKind::ConnectionCompleted {
            count_where(prior, is_missed(current, id))
        } else {
            0nat
        },
    decreases prior.len(),
{
    let q = is_connection_event(kind, id);
    let p = is_missed(current, id);
    if prior.len() > 0 {
        let rest = closings(prior.drop_last(), current, now);
        let r = prior.last();
        closings_count(prior.drop_last(), current, now, kind, id);
        records_are_told(r, now);
        if !in_tick(current, r.id) {
            let all = closings(prior, current, now);
            assert(all.drop_last() =~= rest.push(closed(r, now)));
            assert(all.drop_last().drop_last() =~= rest);
            assert(all.last() == completed(r, now));
            assert(all.drop_last().last() == closed(r, now));
            let (a, z) = (closed(r, now), completed(r, now));
            assert(names_connection(a, id) <==> r.id == id);
            assert(names_connection(z, id) <==> r.id == id);
            assert(q(a) <==> kind == EventKind::ConnectionClosed && r.id == id);
            assert(q(z) <==> kind == EventKind::ConnectionCompleted && r.id == id);
            assert(count_where(all, q) == count_where(all.drop_last(), q) + if q(z) {
                1nat
            } else {
                0nat
            });
            assert(count_where(all.drop_last(), q) == count_where(rest, q) + if q(a) {
                1nat
            } else {
                0nat
            });
        }
    }
}

proof fn closings_are_told(
    prior: Seq<ConnectionRecordView>,
    current: Seq<ConnectionRecordView>,
    now: Timestamp,
    k: int,
)
    requires
        0 <= k < closings(prior, current, now).len(),
    ensures
        ({
            let all = closings(prior, current, now);
            let e = all[k];
            &&& e.timestamp == now
            &&& exists|i: int|
                0 <= i < prior.len() && !has_connection(current, (#[trigger] prior[i]).id) && (
                e.kind == EventKind::ConnectionClosed && tells_record(e, prior[i]) && k + 1
                    < all.len() && all[k + 1].kind == EventKind::ConnectionCompleted
                    && tells_summary(all[k + 1], prior[i]) || e.kind
                    == EventKind::ConnectionCompleted && tells_summary(e, prior[i]))
        }),
    decreases prior.len(),
{
    let t = prior.drop_last();
    let rest = closings(t, current, now);
    let all = closings(prior, current, now);
    let n = prior.len() - 1;
    if k < rest.len() {
        closings_are_told(t, current, now, k);
        let e = rest[k];
        let i = choose|i: int|
            0 <= i < t.len() && !has_connection(current, (#[trigger] t[i]).id) && (e.kind
                == EventKind::ConnectionClosed && tells_record(e, t[i]) && k + 1 < rest.len()
                && rest[k + 1].kind == EventKind::ConnectionCompleted && tells_summary(
                rest[k + 1],
                t[i],
            ) || e.kind == EventKind::ConnectionCompleted && tells_summary(e, t[i]));
        assert(prior[i] == t[i]);
        assert(all[k] == rest[k]);
        if k + 1 < rest.len() {
            assert(all[k + 1] == rest[k + 1]);
        }
    } else {
        let r = prior.last();
        records_are_told(r, now);
        found_is_there(current, r.id);
        assert(prior[n] == r);
        assert(!has_connection(current, prior[n].id));
    }
}

/// After the first tick, a tick that is over brings one opening of each
/// connection that is new in it, and one closing and one summary of each that
/// is missing from it, whatever is known of its state, its owner and its bytes.
/// It brings nothing else. An opening tells what the tick holds of its
/// connection; a closing and the summary right behind it tell what the tick
/// before held.
pub proof fn connection_changes_are_told(s: NetworkStage, now: Timestamp, id: SocketIdView)
    requires
        s.wf(),
        s.primed,
    ensures
        count_where(s.tick_events(now), is_connection_event(EventKind::ConnectionOpened, id))
            == if has_connection(s.current, id) && !has_connection(s.prior, id) {
            1nat
        } else {
            0nat
        },
        count_where(s.tick_events(now), is_connection_event(EventKind::ConnectionClosed, id))
            == if has_connection(s.prior, id) && !has_connection(s.current, id) {
            1nat
        } else {
            0nat
        },
        count_where(s.tick_events(now), is_connection_event(EventKind::ConnectionCompleted, id))
            == if has_connection(s.prior, id) && !has_connection(s.current, id) {
            1nat
        } else {
            0nat
        },
        forall|k: int|
            0 <= k < s.tick_events(now).len() ==> #[trigger] tells_change(s, now, k),
{
    let f = opened_since(s.prior);
    let opens = s.current.filter_map(f);
    let ends = closings(s.prior, s.current, now);
    let events = s.tick_events(now);
    let (o, c, d) = (
        is_connection_event(EventKind::ConnectionOpened, id),
        is_connection_event(EventKind::ConnectionClosed, id),
        is_connection_event(EventKind::ConnectionCompleted, id),
    );
    let gone = is_missed(s.current, id);
    count_where_joins(opens, ends, o);
    count_where_joins(opens, ends, c);
    count_where_joins(opens, ends, d);
    closings_count(s.prior, s.current, now, EventKind::ConnectionOpened, id);
    closings_count(s.prior, s.current, now, EventKind::ConnectionClosed, id);
    closings_count(s.prior, s.current, now, EventKind::ConnectionCompleted, id);
    missed_counts_once(s.prior, s.current, gone, id);
    count_kept(s.current, f, o);
    assert forall|r: ConnectionRecordView| #[trigger] keeps_where(f, o)(r) <==> r.id == id
        && !in_tick(s.prior, id) by {
        records_are_told(r, now);
    }
    missed_counts_once(s.current, s.prior, keeps_where(f, o), id);
    count_kept(s.current, f, c);
    count_where_none(s.current, keeps_where(f, c));
    count_kept(s.current, f, d);
    count_where_none(s.current, keeps_where(f, d));
    assert forall|k: int| 0 <= k < events.len() implies #[trigger] tells_change(s, now, k) by {
        if k < opens.len() {
            assert(events[k] == opens[k]);
            filter_map_from(s.current, f, k);
            let i = choose|i: int|
                0 <= i < s.current.len() && f(#[trigger] s.current[i]) == Some(opens[k]);
            records_are_told(s.current[i], now);
            found_is_there(s.prior, s.current[i].id);
            assert(!has_connection(s.prior, s.current[i].id));
        } else {
            let m = k - opens.len();
            closings_are_told(s.prior, s.current, now, m);
            assert(events[k] == ends[m]);
            let e = ends[m];
            let i = choose|i: int|
                0 <= i < s.prior.len() && !has_connection(s.current, (#[trigger] s.prior[i]).id)
                    && (e.kind == EventKind::ConnectionClosed && tells_record(e, s.prior[i]) && m
                    + 1 < ends.len() && ends[m + 1].kind == EventKind::ConnectionCompleted
                    && tells_summary(ends[m + 1], s.prior[i]) || e.kind
                    == EventKind::ConnectionCompleted && tells_summary(e, s.prior[i]));
            if m + 1 < ends.len() {
                assert(events[k + 1] == ends[m + 1]);
            }
            assert(!has_connection(s.current, s.prior[i].id));
        }
    }
}

/// Whether an event of a tick tells a change: a connection that is new, or one
/// that is missing.
pub open spec fn tells_change(s: NetworkStage, now: Timestamp, k: int) -> bool {
    let events = s.tick_events(now);
    let e = events[k];
    match e.kind {
        EventKind::ConnectionOpened => exists|i: int|
            0 <= i < s.current.len() && !has_connection(s.prior, (#[trigger] s.current[i]).id)
                && tells_record(e, s.current[i]) && e.timestamp == s.current[i].last_seen,
        EventKind::ConnectionClosed => e.timestamp == now && exists|i: int|
            0 <= i < s.prior.len() && !has_connection(s.current, (#[trigger] s.prior[i]).id)
                && tells_record(e, s.prior[i]) && k + 1 < events.len() && events[k + 1].kind
                == EventKind::ConnectionCompleted && tells_summary(events[k + 1], s.prior[i]),
        EventKind::ConnectionCompleted => e.timestamp == now && exists|i: int|
            0 <= i < s.prior.len() && !has_connection(s.current, (#[trigger] s.prior[i]).id)
                && tells_summary(e, s.prior[i]),
        _ => false,
    }
}

/// Whether a record holds what an observation says of a connection.
pub open spec fn holds_observation(
    r: ConnectionRecordView,
    id: SocketIdView,
    obs: ObservationView,
) -> bool {
    &&& r.id == id
    &&& r.state == obs.payload.str_at("state"@)
    &&& r.pid == obs.pid
    &&& r.process_name == obs.payload.str_at("process_name"@)
    &&& r.rxbytes == obs.payload.u64_at("rxbytes"@)
    &&& r.txbytes == obs.payload.u64_at("txbytes"@)
    &&& r.last_seen == obs.timestamp
}

/// Whether more than a quarter of a second passed since an observation.
pub open spec fn is_after_gap(last: Option<Timestamp>, now: Timestamp) -> bool {
    last matches Some(t) && now.mono_ns - t.mono_ns > 250_000_000
}

/// An observation that names a protocol and two addresses is in the tick under
/// way, whatever its state is, and takes nothing else out of it. It ends a tick
/// exactly if more than a quarter of a second passed since the last, and brings
/// that tick's events then, and else none.
pub proof fn connection_is_recorded(s: NetworkStage, obs: ObservationView, id: SocketIdView)
    requires
        obs.payload.str_at("proto"@) == Some(id.proto),
        obs.payload.str_at("local_addr"@) == Some(id.local_addr),
        obs.payload.str_at("foreign_addr"@) == Some(id.foreign_addr),
    ensures
        ({
            let gap = is_after_gap(s.last_obs_ts, obs.timestamp);
            let after = s.after(obs);
            let tick = if gap {
                Seq::empty()
            } else {
                s.current
            };
            &&& exists|i: int|
                0 <= i < after.current.len() && #[trigger] holds_observation(
                    after.current[i],
                    id,
                    obs,
                )
            &&& forall|other: SocketIdView|
                has_connection(after.current, other) <==> other == id || #[trigger] has_connection(
                    tick,
                    other,
                )
            &&& forall|i: int|
                0 <= i < tick.len() && (#[trigger] tick[i]).id != id ==> after.current.contains(
                    tick[i],
                )
            &&& after.prior == if gap {
                s.current
            } else {
                s.prior
            }
            &&& after.primed == (s.primed || gap)
            &&& after.last_obs_ts == Some(obs.timestamp)
            &&& s.emitted(obs) == if gap {
                s.tick_events(s.last_obs_ts->0)
            } else {
                Seq::empty()
            }
        }),
{
    let gap = is_after_gap(s.last_obs_ts, obs.timestamp);
    let after = s.after(obs).current;
    let tick = if gap {
        Seq::empty()
    } else {
        s.current
    };
    let p = is_connection(id);
    first_where_is_first(tick, p);
    let at = match first_where(tick, p) {
        Some(i) => i,
        None => tick.len() as int,
    };
    assert(holds_observation(after[at], id, obs));
    assert forall|j: int| 0 <= j < tick.len() && j != at implies #[trigger] after[j] == tick[j] by {}
    assert forall|other: SocketIdView|
        has_connection(after, other) <==> other == id || #[trigger] has_connection(
            tick,
            other,
        ) by {
        if has_connection(tick, other) && other != id {
            let i = choose|i: int| 0 <= i < tick.len() && (#[trigger] tick[i]).id == other;
            assert(i != at);
            assert(after[i].id == other);
        }
        if other == id {
            assert(after[at].id == other);
        }
        if has_connection(after, other) && other != id {
            let i = choose|i: int| 0 <= i < after.len() && (#[trigger] after[i]).id == other;
            assert(tick[i].id == other);
        }
    }
    assert forall|i: int| 0 <= i < tick.len() && (#[trigger] tick[i]).id != id implies after.contains(
        tick[i],
    ) by {
        assert(i != at);
        assert(after[i] == tick[i]);
    }
}

// ---------- processes --------------------------------------------------------------

/// Whether an event tells what a record holds of a process.
pub open spec fn tells_process(e: EventView, r: ProcessRecordView) -> bool {
    &&& e.pid == Some(r.pid)
    &&& e.payload.u64_at("start_unix_secs"@) == Some(r.start_unix_secs)
    &&& e.payload.str_at("comm"@) == r.comm
    &&& e.payload.str_at("name"@) == r.name
    &&& e.payload.u32_at("ppid"@) == r.ppid
    &&& e.payload.u32_at("uid"@) == r.uid
    &&& e.payload.str_at("exec_path"@) == r.exec_path
}

/// Births and deaths tell what the record of the process holds: a birth when it
/// was seen, a death at the end of the tick that missed it.
pub proof fn processes_are_told(r: ProcessRecordView, now: Timestamp)
    ensures
        tells_process(birth_of(r), r),
        birth_of(r).kind == EventKind::ProcessBirth,
        birth_of(r).timestamp == r.last_seen,
        tells_process(death_of(r, now), r),
        death_of(r, now).kind == EventKind::ProcessDeath,
        death_of(r, now).timestamp == now,
        death_of(r, now).payload.get("last_seen"@) matches Some(t) && timestamp_of(t) == Some(
            r.last_seen,
        ),
{
    names_differ();
    timestamp_json_round_trip(r.last_seen);
    let f = process_fields(r);
    let g = death_of(r, now).payload->Object_0;
    assert forall|i: int| 0 <= i < 6 implies #[trigger] g[i] == f[i] by {}
    field_is_read(f, 0);
    field_is_read(f, 1);
    field_is_read(f, 2);
    field_is_read(f, 3);
    field_is_read(f, 4);
    field_is_read(f, 5);
    field_is_read(g, 0);
    field_is_read(g, 1);
    field_is_read(g, 2);
    field_is_read(g, 3);
    field_is_read(g, 4);
    field_is_read(g, 5);
    field_is_read(g, 6);
}

/// Whether a tick has a process: its id and its start time.
pub open spec fn has_process(tick: Seq<ProcessRecordView>, pid: u32, start: u64) -> bool {
    exists|i: int|
        0 <= i < tick.len() && (#[trigger] tick[i]).pid == pid && tick[i].start_unix_secs == start
}

/// Whether a record holds what an observation says of a process.
pub open spec fn holds_process(r: ProcessRecordView, obs: ObservationView) -> bool {
    &&& obs.pid == Some(r.pid)
    &&& obs.payload.u64_at("start_unix_secs"@) == Some(r.start_unix_secs)
    &&& r.comm == obs.payload.str_at("comm"@)
    &&& r.name == obs.payload.str_at("name"@)
    &&& r.ppid == obs.payload.u32_at("ppid"@)
    &&& r.uid == obs.payload.u32_at("uid"@)
    &&& r.exec_path == obs.payload.str_at("exec_path"@)
    &&& r.last_seen == obs.timestamp
}

/// An observation with an id and a start time is in the tick under way, and
/// takes nothing else out of it: the same id with another start time is another
/// process. It ends a tick exactly if more than a quarter of a second passed
/// since the last, and brings that tick's events then, and else none.
pub proof fn process_is_recorded(s: ProcessStage, obs: ObservationView, pid: u32, start: u64)
    requires
        obs.pid == Some(pid),
        obs.payload.u64_at("start_unix_secs"@) == Some(start),
    ensures
        ({
            let gap = is_after_gap(s.last_obs_ts, obs.timestamp);
            let after = s.after(obs);
            let tick = if gap {
                Seq::empty()
            } else {
                s.current
            };
            &&& exists|i: int|
                0 <= i < after.current.len() && #[trigger] holds_process(after.current[i], obs)
            &&& forall|p: u32, t: u64|
                has_process(after.current, p, t) <==> (p == pid && t == start)
                    || #[trigger] has_process(tick, p, t)
            &&& forall|i: int|
                0 <= i < tick.len() && ((#[trigger] tick[i]).pid != pid || tick[i].start_unix_secs
                    != start) ==> after.current.contains(tick[i])
            &&& after.prior == if gap {
                s.current
            } else {
                s.prior
            }
            &&& after.primed == (s.primed || gap)
            &&& after.last_obs_ts == Some(obs.timestamp)
            &&& s.emitted(obs) == if gap {
                s.tick_events(s.last_obs_ts->0)
            } else {
                Seq::empty()
            }
        }),
{
    let gap = is_after_gap(s.last_obs_ts, obs.timestamp);
    let after = s.after(obs).current;
    let tick = if gap {
        Seq::empty()
    } else {
        s.current
    };
    let p = crate::process_lifecycle::is_process(pid, start);
    first_where_is_first(tick, p);
    let at = match first_where(tick, p) {
        Some(i) => i,
        None => tick.len() as int,
    };
    assert(holds_process(after[at], obs));
    assert forall|j: int| 0 <= j < tick.len() && j != at implies #[trigger] after[j] == tick[j] by {}
    assert forall|q: u32, t: u64|
        has_process(after, q, t) <==> (q == pid && t == start) || #[trigger] has_process(
            tick,
            q,
            t,
        ) by {
        if has_process(tick, q, t) && !(q == pid && t == start) {
            let i = choose|i: int|
                0 <= i < tick.len() && (#[trigger] tick[i]).pid == q && tick[i].start_unix_secs
                    == t;
            assert(i != at);
            assert(after[i].pid == q);
        }
        if q == pid && t == start {
            assert(after[at].pid == q);
        }
        if has_process(after, q, t) && !(q == pid && t == start) {
            let i = choose|i: int|
                0 <= i < after.len() && (#[trigger] after[i]).pid == q && after[i].start_unix_secs
                    == t;
            assert(tick[i].pid == q);
        }
    }
    assert forall|i: int|
        0 <= i < tick.len() && ((#[trigger] tick[i]).pid != pid || tick[i].start_unix_secs
            != start) implies after.contains(tick[i]) by {
        assert(i != at);
        assert(after[i] == tick[i]);
    }
}

} // verus!
