//! What holds of the daemon as it runs on, of the counts that the store keeps of
//! its history, and of the processes that are picked for a review.

use vstd::arithmetic::div_mod::{
    lemma_fundamental_div_mod, lemma_fundamental_div_mod_converse, lemma_mod_bound,
};
use vstd::prelude::*;

use crate::daemon::{
    evicted, has_scored, history_is_short, is_due, joined_scores, merged_scores, nominal, received,
    retention_cutoff, stored, trim_cutoff, window_keeps_what_is_recent, DaemonView,
};
use crate::events::{EventKind, EventView};
use crate::graph::{GraphView, ProcessNodeView};
use crate::history_laws::sorted_list_is_complete;
use crate::observation::{ObservationView, Source};
use crate::order::{sort_by_key, sort_by_key_sorts};
use crate::process_anomaly::{
    by_pid, by_place, candidate, candidates, of_pid, pids, program, prolific_parents, reason_of,
    root_flag, roots_under_users, store_flags, trusted_paths, untrusted, CandidateReason,
};
use crate::seqs::{
    count_where, filter_map_from, filter_map_keeps, first_where, first_where_is_first, uniques,
    uniques_are_distinct,
};
use crate::store::{EventRowView, NodeKind, NodeRowView, StoreView};
use crate::store_admin::{by_count, count_node_kind, latest, node_count, node_kinds};
use crate::store_load::event_row;
use crate::store_trends::{
    cell_count, cells, hour_of, in_cell, kinds_by_name, same_cell, sort_cells, window_counts,
    window_start, FieldWindowCountView, HourlyKindCountView,
};
use crate::summary_laws::same_count;

verus! {

// ---------- the daemon -------------------------------------------------------------

/// An event that came in waits to be appended where there is a store, and stays
/// in the window as long as it is no older than the window's span before the
/// newest. The source's count goes up by one, and no other.
pub proof fn events_are_kept(
    d: DaemonView,
    o: ObservationView,
    events: Seq<EventView>,
    window_ns: u64,
    i: int,
)
    requires
        d.sources.len() == 5,
    ensures
        ({
            let all = d.window + events;
            let r = received(d, o, events, window_ns);
            &&& d.builder is Some ==> r.pending == d.pending + events
            &&& d.builder is None ==> r.pending == d.pending
            &&& 0 <= i < all.len() && all[i].timestamp.mono_ns + window_ns
                >= all.last().timestamp.mono_ns ==> r.window.contains(all[i])
            &&& all.len() > 0 ==> r.window.len() > 0 && r.window[0].timestamp.mono_ns + window_ns
                >= all.last().timestamp.mono_ns
            &&& forall|s: Source|
                s == o.source && d.sources[s.position()] < u64::MAX ==> #[trigger] r.sources[s.position()]
                    == d.sources[s.position()] + 1
            &&& forall|s: Source|
                s != o.source ==> #[trigger] r.sources[s.position()] == d.sources[s.position()]
        }),
{
    let all = d.window + events;
    if all.len() > 0 {
        window_keeps_what_is_recent(all, window_ns);
        let r = evicted(all, window_ns);
        if 0 <= i < all.len() && all[i].timestamp.mono_ns + window_ns
            >= all.last().timestamp.mono_ns {
            let gone = all.len() - r.len();
            if i < gone {
                assert(all[i].timestamp.mono_ns < all.last().timestamp.mono_ns - window_ns);
            }
            assert(r[i - gone] == all[i]);
        }
    }
}

/// What waits is appended behind what the store has, each event once and in
/// order, and nothing that the store had of events is lost.
pub proof fn waiting_events_are_stored(s: StoreView, g: GraphView, events: Seq<EventView>, i: int)
    ensures
        stored(s, g, events).events.len() == s.events.len() + events.len(),
        0 <= i < s.events.len() ==> stored(s, g, events).events[i] == s.events[i],
        0 <= i < events.len() ==> ({
            let r = stored(s, g, events).events[s.events.len() + i];
            r.kind == events[i].kind && r.pid == events[i].pid && r.payload == events[i].payload
                && r == event_row(events[i])
        }),
{
}

/// Maintenance is due when an hour has passed since the last, and when there was
/// none; a store forgets what is older than the days that it is kept for; and the
/// history is too short where it reaches back for less than half an hour before
/// the window.
pub proof fn times_are_kept(last: u64, now: u64, unix: i64, days: u64, oldest: i64, from: i64)
    ensures
        is_due(None, now),
        now - last >= 3_600_000_000_000 <==> is_due(Some(last), now),
        unix - days * 86_400_000_000_000 >= i64::MIN ==> retention_cutoff(unix, days) == unix - days
            * 86_400_000_000_000,
        history_is_short(None, from),
        history_is_short(Some(oldest), from) <==> from - oldest < 1_800_000_000_000,
{
}

/// The graph under way lets go of what was quiet for longer than its span before
/// the newest event, and of nothing newer.
pub proof fn trimming_goes_by_the_newest(window: Seq<EventView>, ttl_ns: u64)
    requires
        window.len() > 0,
    ensures
        trim_cutoff(window, ttl_ns).mono_ns <= window.last().timestamp.mono_ns,
        window.last().timestamp.mono_ns >= ttl_ns ==> trim_cutoff(window, ttl_ns).mono_ns + ttl_ns
            == window.last().timestamp.mono_ns,
        window.last().timestamp.mono_ns < ttl_ns ==> trim_cutoff(window, ttl_ns).mono_ns == 0,
{
}

/// What is suspected, newly or before or by a flag, is told, unless eight others
/// that rank no lower are; and what is told was suspected.
pub proof fn suspicions_are_told(
    new: Seq<(Seq<char>, i64)>,
    earlier: Seq<(Seq<char>, i64)>,
    flags: Seq<Seq<char>>,
    text: Seq<char>,
)
    ensures
        ({
            let r = merged_scores(new, earlier, flags);
            let known = has_scored(new, text) || has_scored(earlier, text) || flags.contains(text);
            &&& has_scored(r, text) ==> known
            &&& known ==> has_scored(r, text) || r.len() == 8
        }),
{
    broadcast use vstd::seq_lib::group_to_multiset_ensures;

    let marks = flags.map_values(nominal());
    let one = joined_scores(new, earlier);
    let all = joined_scores(one, marks);
    let order = sort_by_key(all, crate::daemon::highest_first());
    let r = merged_scores(new, earlier, flags);
    sort_by_key_sorts(all, crate::daemon::highest_first());
    joined_has_only(new, earlier, text);
    joined_has_only(one, marks, text);
    crate::daemon::joining_keeps_every_text(new, earlier, text);
    crate::daemon::joining_keeps_every_text(one, marks, text);
    if flags.contains(text) {
        let i = choose|i: int| 0 <= i < flags.len() && flags[i] == text;
        assert(marks[i].0 == text);
    }
    if has_scored(marks, text) {
        let i = choose|i: int| 0 <= i < marks.len() && (#[trigger] marks[i]).0 == text;
        assert(flags[i] == text);
    }
    if has_scored(r, text) {
        let i = choose|i: int| 0 <= i < r.len() && (#[trigger] r[i]).0 == text;
        assert(order[i] == r[i]);
        assert(order.to_multiset().count(order[i]) > 0);
        assert(all.contains(order[i]));
        let k = choose|k: int| 0 <= k < all.len() && all[k] == order[i];
        assert(all[k].0 == text);
    }
    if has_scored(all, text) {
        let k = choose|k: int| 0 <= k < all.len() && (#[trigger] all[k]).0 == text;
        assert(all.to_multiset().count(all[k]) > 0);
        assert(order.contains(all[k]));
        let i = choose|i: int| 0 <= i < order.len() && order[i] == all[k];
        if i < r.len() {
            assert(r[i].0 == text);
        }
    }
}

proof fn joined_has_only(s: Seq<(Seq<char>, i64)>, more: Seq<(Seq<char>, i64)>, text: Seq<char>)
    ensures
        has_scored(joined_scores(s, more), text) ==> has_scored(s, text) || has_scored(more, text),
    decreases more.len(),
{
    if more.len() > 0 {
        let t = more.drop_last();
        joined_has_only(s, t, text);
        let rest = joined_scores(s, t);
        let all = joined_scores(s, more);
        if has_scored(all, text) {
            let k = choose|k: int| 0 <= k < all.len() && (#[trigger] all[k]).0 == text;
            if k < rest.len() {
                assert(rest[k].0 == text);
                if has_scored(t, text) {
                    let m = choose|m: int| 0 <= m < t.len() && (#[trigger] t[m]).0 == text;
                    assert(more[m].0 == text);
                }
            } else {
                assert(more[more.len() - 1].0 == text);
            }
        }
    }
}

// ---------- counts of the history --------------------------------------------------

/// Whether a time falls in an hour of the day, by UTC.
pub open spec fn falls_in_hour(ts: i64, hour: int) -> bool {
    exists|day: int| #[trigger] starts_hour(day, hour) <= ts < starts_hour(day, hour) + 3_600_000_000_000
}

/// When an hour of a day begins.
pub open spec fn starts_hour(day: int, hour: int) -> int {
    day * 86_400_000_000_000 + hour * 3_600_000_000_000
}

proof fn hour_is_that(ts: i64, hour: int)
    requires
        0 <= hour < 24,
    ensures
        hour_of(ts) == hour <==> falls_in_hour(ts, hour),
{
    let t = ts as int;
    let n = t / 3_600_000_000_000;
    lemma_fundamental_div_mod(t, 3_600_000_000_000);
    lemma_mod_bound(t, 3_600_000_000_000);
    lemma_fundamental_div_mod(n, 24);
    if hour_of(ts) == hour {
        let day = n / 24;
        assert(n == 24 * day + hour);
        assert(starts_hour(day, hour) == 3_600_000_000_000 * n);
        assert(starts_hour(day, hour) <= ts < starts_hour(day, hour) + 3_600_000_000_000);
    }
    if falls_in_hour(ts, hour) {
        let day = choose|day: int| #[trigger]
            starts_hour(day, hour) <= ts < starts_hour(day, hour) + 3_600_000_000_000;
        let m = 24 * day + hour;
        assert(starts_hour(day, hour) == 3_600_000_000_000 * m);
        assert(m * 3_600_000_000_000 + (t - 3_600_000_000_000 * m) == t);
        lemma_fundamental_div_mod_converse(t, 3_600_000_000_000, m, t - 3_600_000_000_000 * m);
        assert(n == m);
        assert(day * 24 + hour == m);
        lemma_fundamental_div_mod_converse(m, 24, day, hour);
    }
}

/// Whether an event of the history is of a kind, came at or after a time, and
/// fell in an hour of the day.
pub open spec fn counts_for(kind: EventKind, from: i64, hour: int) -> spec_fn(EventRowView) -> bool {
    |r: EventRowView| r.kind == kind && r.ts_unix_ns >= from && falls_in_hour(r.ts_unix_ns, hour)
}

/// A kind is told with an hour of the day exactly if some of its events fell in
/// it, with their number.
pub proof fn hours_are_counted(
    rows: Seq<EventRowView>,
    from: i64,
    kind: EventKind,
    hour: u8,
    n: u64,
)
    requires
        hour < 24,
        rows.len() <= u64::MAX,
    ensures
        cells().filter_map(cell_count(rows, from)).contains(
            HourlyKindCountView { kind: kind.spec_name(), hour_of_day: hour, count: n },
        ) <==> n > 0 && n == count_where(rows, counts_for(kind, from, hour as int)),
{
    let f = cell_count(rows, from);
    let all = cells();
    let told = all.filter_map(f);
    let x = HourlyKindCountView { kind: kind.spec_name(), hour_of_day: hour, count: n };
    let p = in_cell(from, kind, hour as int);
    assert forall|r: EventRowView| #[trigger] p(r) == counts_for(kind, from, hour as int)(r) by {
        hour_is_that(r.ts_unix_ns, hour as int);
    }
    same_count(rows, p, counts_for(kind, from, hour as int));
    let kinds = kinds_by_name();
    assert(kinds[0] == EventKind::AppFocus && kinds[1] == EventKind::ConnectionClosed && kinds[2]
        == EventKind::ConnectionCompleted && kinds[3] == EventKind::ConnectionOpened && kinds[4]
        == EventKind::DnsQuery && kinds[5] == EventKind::FileChanged && kinds[6]
        == EventKind::ProcessBirth && kinds[7] == EventKind::ProcessDeath);
    if told.contains(x) {
        let k = choose|k: int| 0 <= k < told.len() && told[k] == x;
        filter_map_from(all, f, k);
        let i = choose|i: int| 0 <= i < all.len() && f(#[trigger] all[i]) == Some(told[k]);
        crate::events::kind_name_round_trip(kind);
        crate::events::kind_name_round_trip(all[i].0);
        assert(all[i].0 == kind);
        assert(all[i].1 == i % 24);
        assert(all[i].1 == hour);
        same_count(rows, p, p);
    }
    if n > 0 && n == count_where(rows, p) {
        assert(kinds.contains(kind));
        let a = choose|a: int| 0 <= a < kinds.len() && kinds[a] == kind;
        let i = a * 24 + hour as int;
        assert(0 <= i < 192);
        assert(i / 24 == a && i % 24 == hour as int);
        assert(all[i] == (kind, hour as int));
        assert(f(all[i]) == Some(x));
        filter_map_keeps(all, f, i);
    }
}

/// A window begins at a multiple of its width, not after the time that falls in
/// it, and less than the width before it.
pub proof fn windows_hold_their_times(ts: i64, width: i64)
    requires
        width > 0,
    ensures
        window_start(ts, width) <= ts < window_start(ts, width) + width,
        window_start(ts, width) % (width as int) == 0,
{
    let w = width as int;
    vstd::arithmetic::div_mod::lemma_fundamental_div_mod(ts as int, w);
    vstd::arithmetic::div_mod::lemma_mod_bound(ts as int, w);
    assert((ts as int / w) * w == w * (ts as int / w)) by (nonlinear_arith);
    vstd::arithmetic::div_mod::lemma_mod_multiples_basic(ts as int / w, w);
}

proof fn cells_stay(s: Seq<(Seq<char>, i64)>, x: (Seq<char>, i64))
    ensures
        crate::store_trends::insert_cell(s, x).to_multiset() == s.to_multiset().insert(x),
    decreases s.len(),
{
    broadcast use vstd::seq_lib::group_to_multiset_ensures;

    if !(s.len() == 0 || !crate::store_trends::cell_before(x, s.last())) {
        let t = s.drop_last();
        cells_stay(t, x);
        assert(s =~= t.push(s.last()));
        assert(crate::store_trends::insert_cell(s, x).to_multiset() =~= s.to_multiset().insert(x));
    }
}

proof fn sorted_cells_stay(s: Seq<(Seq<char>, i64)>)
    ensures
        sort_cells(s).to_multiset() == s.to_multiset(),
    decreases s.len(),
{
    broadcast use vstd::seq_lib::group_to_multiset_ensures;

    if s.len() > 0 {
        let t = s.drop_last();
        sorted_cells_stay(t);
        cells_stay(sort_cells(t), s.last());
        assert(s =~= t.push(s.last()));
    } else {
        assert(s =~= Seq::empty());
    }
}

/// A value is told with a window exactly if it occurred in it, with the number of
/// times that it did.
pub proof fn values_are_counted(cs: Seq<(Seq<char>, i64)>, value: Seq<char>, start: i64, n: u64)
    requires
        cs.len() <= u64::MAX,
    ensures
        window_counts(cs).contains(
            FieldWindowCountView { value, window_start_unix_ns: start, count: n },
        ) <==> n > 0 && n == count_where(cs, |c: (Seq<char>, i64)| c.0 == value && c.1 == start),
{
    broadcast use vstd::seq_lib::group_to_multiset_ensures;

    let c = (value, start);
    let p = |c: (Seq<char>, i64)| c.0 == value && c.1 == start;
    let u = uniques(cs);
    let order = sort_cells(u);
    let told = window_counts(cs);
    let x = FieldWindowCountView { value, window_start_unix_ns: start, count: n };
    assert forall|d: (Seq<char>, i64)| #[trigger] p(d) == same_cell(c)(d) by {}
    same_count(cs, p, same_cell(c));
    uniques_are_distinct(cs);
    sorted_cells_stay(u);
    assert(order.contains(c) <==> order.to_multiset().count(c) > 0);
    assert(u.contains(c) <==> u.to_multiset().count(c) > 0);
    if told.contains(x) {
        let i = choose|i: int| 0 <= i < told.len() && told[i] == x;
        assert(order[i] == c);
        assert(order.contains(c));
        assert(cs.contains(c));
        let m = choose|m: int| 0 <= m < cs.len() && cs[m] == c;
        crate::summary_laws::is_counted(cs, same_cell(c), m);
        same_count(cs, same_cell(c), same_cell(c));
    }
    if n > 0 && n == count_where(cs, p) {
        crate::seqs::counted_is_there(cs, same_cell(c));
        let m = choose|m: int| 0 <= m < cs.len() && same_cell(c)(#[trigger] cs[m]);
        assert(cs.contains(c));
        assert(order.contains(c));
        let i = choose|i: int| 0 <= i < order.len() && order[i] == c;
        assert(told[i] == x);
    }
}

pub(crate) proof fn node_count_is_count(nodes: Seq<NodeRowView>, kind: NodeKind)
    ensures
        node_count(nodes, kind) == count_where(nodes, |r: NodeRowView| r.kind == kind),
        node_count(nodes, kind) <= nodes.len(),
    decreases nodes.len(),
{
    if nodes.len() > 0 {
        node_count_is_count(nodes.drop_last(), kind);
    }
}

/// The overview tells a kind of node exactly if there are any, with their number,
/// and the latest time at which a node was seen.
pub proof fn overview_counts_nodes(nodes: Seq<NodeRowView>, kind: NodeKind, n: u64)
    requires
        nodes.len() <= u64::MAX,
    ensures
        n > 0 && n == count_where(nodes, |r: NodeRowView| r.kind == kind) ==> sort_by_key(
            node_kinds().filter_map(count_node_kind(nodes)),
            by_count(),
        ).contains((kind.spec_name(), n)),
        latest(nodes) matches Some(t) ==> (forall|i: int|
            0 <= i < nodes.len() ==> (#[trigger] nodes[i]).last_seen <= t) && exists|i: int|
            0 <= i < nodes.len() && (#[trigger] nodes[i]).last_seen == t,
        latest(nodes) is None <==> nodes.len() == 0,
{
    node_count_is_count(nodes, kind);
    latest_is_last(nodes);
    let f = count_node_kind(nodes);
    let kinds = node_kinds();
    assert(kinds[0] == NodeKind::Process && kinds[1] == NodeKind::App && kinds[2]
        == NodeKind::Socket && kinds[3] == NodeKind::File && kinds[4] == NodeKind::Domain);
    assert(kinds.contains(kind));
    let at = choose|at: int| 0 <= at < kinds.len() && kinds[at] == kind;
    if n > 0 && n == node_count(nodes, kind) {
        assert(f(kinds[at]) == Some((kind.spec_name(), n)));
        sorted_list_is_complete(kinds, f, by_count(), (kind.spec_name(), n));
    }
}

proof fn latest_is_last(nodes: Seq<NodeRowView>)
    ensures
        latest(nodes) is None <==> nodes.len() == 0,
        latest(nodes) matches Some(t) ==> (forall|i: int|
            0 <= i < nodes.len() ==> (#[trigger] nodes[i]).last_seen <= t) && exists|i: int|
            0 <= i < nodes.len() && (#[trigger] nodes[i]).last_seen == t,
    decreases nodes.len(),
{
    if nodes.len() > 0 {
        let t = nodes.drop_last();
        let n = nodes.len() - 1;
        latest_is_last(t);
        let at = latest(nodes)->0;
        assert forall|i: int| 0 <= i < nodes.len() implies (#[trigger] nodes[i]).last_seen <= at by {
            if i < n {
                assert(t[i] == nodes[i]);
            }
        }
        if at == nodes[n].last_seen {
            assert(nodes[n].last_seen == at);
        } else {
            let i = choose|i: int| 0 <= i < t.len() && (#[trigger] t[i]).last_seen == latest(t)->0;
            assert(nodes[i].last_seen == at);
        }
    }
}

// ---------- candidates -------------------------------------------------------------

/// Every process id that was picked has one candidate, with a process of that id
/// and every reason for which it was picked, each once; and no other id has one.
/// Candidates stand in the order of their ids.
pub proof fn candidates_have_every_reason(
    picks: Seq<(ProcessNodeView, CandidateReason)>,
    pid: u32,
    reason: CandidateReason,
    i: int,
    j: int,
)
    ensures
        ({
            let all = candidates(picks);
            &&& 0 <= i < all.len() ==> {
                &&& exists|k: int|
                    0 <= k < picks.len() && (#[trigger] picks[k]).0 == all[i].0
                &&& all[i].1.contains(reason) <==> exists|k: int|
                    0 <= k < picks.len() && (#[trigger] picks[k]).0.id.pid == all[i].0.id.pid
                        && picks[k].1 == reason
                &&& all[i].1.no_duplicates()
            }
            &&& 0 <= i < j < all.len() ==> all[i].0.id.pid < all[j].0.id.pid
            &&& (exists|k: int| 0 <= k < picks.len() && (#[trigger] picks[k]).0.id.pid == pid)
                <==> exists|k: int| 0 <= k < all.len() && (#[trigger] all[k]).0.id.pid == pid
        }),
{
    broadcast use vstd::seq_lib::group_to_multiset_ensures;

    let all = candidates(picks);
    let ids = uniques(pids(picks));
    let order = sort_by_key(ids, by_pid());
    uniques_are_distinct(pids(picks));
    sort_by_key_sorts(ids, by_pid());
    crate::seqs::rearranged_stays_distinct(ids, order);
    assert forall|k: int| 0 <= k < all.len() implies (#[trigger] all[k]).0.id.pid == order[k]
        && exists|m: int| 0 <= m < picks.len() && (#[trigger] picks[m]).0 == all[k].0 by {
        assert(order.to_multiset().count(order[k]) > 0);
        assert(ids.contains(order[k]));
        assert(pids(picks).contains(order[k]));
        let m = choose|m: int| 0 <= m < pids(picks).len() && pids(picks)[m] == order[k];
        let p = of_pid(order[k]);
        assert(p(picks[m]));
        first_where_is_first(picks, p);
        let at = first_where(picks, p)->0;
        assert(picks[at].0 == all[k].0);
    }
    if 0 <= i < all.len() {
        let f = reason_of(order[i]);
        let kept = picks.filter_map(f);
        let u = uniques(kept);
        let sorted = sort_by_key(u, by_place());
        assert(all[i].1 == sorted);
        uniques_are_distinct(kept);
        sort_by_key_sorts(u, by_place());
        crate::seqs::rearranged_stays_distinct(u, sorted);
        assert(sorted.contains(reason) <==> sorted.to_multiset().count(reason) > 0);
        assert(u.contains(reason) <==> u.to_multiset().count(reason) > 0);
        if kept.contains(reason) {
            let q = choose|q: int| 0 <= q < kept.len() && kept[q] == reason;
            filter_map_from(picks, f, q);
            let k = choose|k: int| 0 <= k < picks.len() && f(#[trigger] picks[k]) == Some(kept[q]);
            assert(picks[k].0.id.pid == all[i].0.id.pid && picks[k].1 == reason);
        }
        if exists|k: int|
            0 <= k < picks.len() && (#[trigger] picks[k]).0.id.pid == all[i].0.id.pid && picks[k].1
                == reason {
            let k = choose|k: int|
                0 <= k < picks.len() && (#[trigger] picks[k]).0.id.pid == all[i].0.id.pid
                    && picks[k].1 == reason;
            filter_map_keeps(picks, f, k);
        }
    }
    if 0 <= i < j < all.len() {
        assert(by_pid()(order[i]) <= by_pid()(order[j]));
        assert(order[i] != order[j]);
        assert(all[i].0.id.pid == order[i] && all[j].0.id.pid == order[j]);
    }
    if exists|k: int| 0 <= k < picks.len() && (#[trigger] picks[k]).0.id.pid == pid {
        let k = choose|k: int| 0 <= k < picks.len() && (#[trigger] picks[k]).0.id.pid == pid;
        assert(pids(picks)[k] == pid);
        assert(pids(picks).contains(pid));
        assert(ids.contains(pid));
        assert(order.to_multiset().count(pid) > 0);
        assert(order.contains(pid));
        let m = choose|m: int| 0 <= m < order.len() && order[m] == pid;
        assert(all[m].0.id.pid == pid);
    }
    if exists|k: int| 0 <= k < all.len() && (#[trigger] all[k]).0.id.pid == pid {
        let k = choose|k: int| 0 <= k < all.len() && (#[trigger] all[k]).0.id.pid == pid;
        let m = choose|m: int| 0 <= m < picks.len() && (#[trigger] picks[m]).0 == all[k].0;
        assert(picks[m].0.id.pid == pid);
    }
}

/// The places whose programs are trusted.
pub open spec fn is_trusted_place(p: Seq<char>) -> bool {
    ||| p == "/System/"@
    ||| p == "/usr/bin/"@
    ||| p == "/usr/sbin/"@
    ||| p == "/usr/libexec/"@
    ||| p == "/sbin/"@
    ||| p == "/bin/"@
    ||| p == "/Applications/"@
    ||| p == "/Library/Apple/"@
    ||| p == "/opt/homebrew/"@
}

/// Those places are trusted, and no others.
pub proof fn trusted_places_are_those(p: Seq<char>)
    ensures
        trusted_paths().contains(p) <==> is_trusted_place(p),
{
    let t = trusted_paths();
    assert(t[0] == "/System/"@ && t[1] == "/usr/bin/"@ && t[2] == "/usr/sbin/"@ && t[3]
        == "/usr/libexec/"@ && t[4] == "/sbin/"@ && t[5] == "/bin/"@ && t[6] == "/Applications/"@
        && t[7] == "/Library/Apple/"@ && t[8] == "/opt/homebrew/"@);
}

/// A root process under an ordinary user raises a flag unless the user asked for
/// root by name, a program from an untrusted place raises one, and so does a
/// parent of many, as long as no more than six of a kind do.
pub proof fn stored_processes_raise_flags(
    s: StoreView,
    since: i64,
    trusted: Seq<Seq<char>>,
    threshold: u32,
    p: ProcessNodeView,
    n: u32,
)
    requires
        roots_under_users(s, since).filter_map(root_flag()).len() <= 6,
        uniques(untrusted(s, trusted, since).map_values(program())).len() <= 6,
        prolific_parents(s, threshold, since).len() <= 6,
    ensures
        ({
            let flags = store_flags(s, since, trusted, threshold);
            &&& roots_under_users(s, since).contains(p) && p.comm != Some("sudo"@) && p.comm != Some(
                "doas"@,
            ) ==> (root_flag()(p) matches Some(t) && flags.contains(t))
            &&& untrusted(s, trusted, since).contains(p) ==> flags.contains(
                crate::process_anomaly::path_flag()((p.comm, p.exec_path)),
            )
            &&& prolific_parents(s, threshold, since).contains((p, n)) ==> flags.contains(
                crate::process_anomaly::parent_flag()((p, n)),
            )
        }),
{
    let flags = store_flags(s, since, trusted, threshold);
    let roots = roots_under_users(s, since);
    let a = roots.filter_map(root_flag());
    let seen = untrusted(s, trusted, since).map_values(program());
    let u = uniques(seen);
    let b = u.map_values(crate::process_anomaly::path_flag());
    let parents = prolific_parents(s, threshold, since);
    let c = parents.map_values(crate::process_anomaly::parent_flag());
    assert(flags =~= a + b + c);
    if roots.contains(p) && p.comm != Some("sudo"@) && p.comm != Some("doas"@) {
        let i = choose|i: int| 0 <= i < roots.len() && roots[i] == p;
        filter_map_keeps(roots, root_flag(), i);
        let t = root_flag()(p)->0;
        let k = choose|k: int| 0 <= k < a.len() && a[k] == t;
        assert(flags[k] == t);
    }
    if untrusted(s, trusted, since).contains(p) {
        let i = choose|i: int|
            0 <= i < untrusted(s, trusted, since).len() && untrusted(s, trusted, since)[i] == p;
        assert(seen[i] == (p.comm, p.exec_path));
        uniques_are_distinct(seen);
        assert(seen.contains((p.comm, p.exec_path)));
        assert(u.contains((p.comm, p.exec_path)));
        let k = choose|k: int| 0 <= k < u.len() && u[k] == (p.comm, p.exec_path);
        assert(flags[a.len() + k] == b[k]);
    }
    if parents.contains((p, n)) {
        let i = choose|i: int| 0 <= i < parents.len() && parents[i] == (p, n);
        assert(flags[a.len() + b.len() + i] == c[i]);
    }
}

} // verus!
