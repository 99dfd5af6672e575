//! What holds of the summary of a window: how long it was, how many events of
//! each kind it had, which applications were in front, and which remote ends were
//! spoken to.

use vstd::prelude::*;

use crate::analytics::wrapped;
use crate::capture::{
    by_time, capture_summary, event_times, focused, greatest, kind_count, least,
    least_and_greatest_bound, of_kind, FocusMarkView,
};
use crate::events::{EventKind, EventView};
use crate::order::{first_n, sort_by_key, sort_by_key_sorts};
use crate::seqs::{
    count_kept, count_where, counted_is_there, filter_map_from, filter_map_keeps, keeps_where,
    sum_of, uniques, uniques_are_distinct,
};
use crate::store_trends::kinds_by_name;
use crate::summary_laws::{is_counted, same_count};
use crate::tally::{amount_of, keys_of, totals};
use crate::timeline::{
    completed, endpoint_fact, endpoints_of, if_open, leading_endpoints, most_bytes, opened,
    unless_in, EndpointFactView, FocusSegmentView,
};

verus! {

// ---------- counts and time --------------------------------------------------------

/// A kind is told with the number of its events exactly if there are any.
pub proof fn kinds_are_counted(events: Seq<EventView>, kind: EventKind, n: u32)
    requires
        events.len() <= u32::MAX,
    ensures
        capture_summary(events).kind_counts.contains((kind.spec_name(), n)) <==> n > 0
            && count_where(events, |e: EventView| e.kind == kind) == n,
{
    let p = |e: EventView| e.kind == kind;
    let f = kind_count(events);
    let kinds = kinds_by_name();
    let told = kinds.filter_map(f);
    assert forall|e: EventView| #[trigger] p(e) == of_kind(kind)(e) by {}
    same_count(events, p, of_kind(kind));
    let k0 = kinds;
    assert(k0[0] == EventKind::AppFocus && k0[1] == EventKind::ConnectionClosed && k0[2]
        == EventKind::ConnectionCompleted && k0[3] == EventKind::ConnectionOpened && k0[4]
        == EventKind::DnsQuery && k0[5] == EventKind::FileChanged && k0[6]
        == EventKind::ProcessBirth && k0[7] == EventKind::ProcessDeath);
    assert(kinds.contains(kind));
    let at = choose|at: int| 0 <= at < kinds.len() && kinds[at] == kind;
    if told.contains((kind.spec_name(), n)) {
        let k = choose|k: int| 0 <= k < told.len() && told[k] == (kind.spec_name(), n);
        filter_map_from(kinds, f, k);
        let i = choose|i: int| 0 <= i < kinds.len() && f(#[trigger] kinds[i]) == Some(told[k]);
        crate::events::kind_name_round_trip(kind);
        crate::events::kind_name_round_trip(kinds[i]);
        assert(kinds[i] == kind);
    }
    if n > 0 && count_where(events, p) == n {
        assert(f(kinds[at]) == Some((kind.spec_name(), n)));
        filter_map_keeps(kinds, f, at);
    }
    if events.len() == 0 {
        assert(count_where(events, p) == 0);
    }
}

/// A window lasts from its earliest event to its latest, in whole seconds, and
/// every event counts.
pub proof fn window_lasts(events: Seq<EventView>, i: int, j: int)
    requires
        0 <= i < events.len() <= usize::MAX,
        0 <= j < events.len(),
    ensures
        capture_summary(events).events_total == events.len(),
        events[j].timestamp.mono_ns - events[i].timestamp.mono_ns < (capture_summary(
            events,
        ).duration_secs + 1) * 1_000_000_000,
        exists|a: int, b: int|
            0 <= a < events.len() && 0 <= b < events.len() && (#[trigger] events[b]).timestamp.mono_ns
                - (#[trigger] events[a]).timestamp.mono_ns >= capture_summary(events).duration_secs
                * 1_000_000_000,
{
    let ts = event_times(events);
    least_and_greatest_bound(ts);
    assert(ts[i] == events[i].timestamp.mono_ns && ts[j] == events[j].timestamp.mono_ns);
    let a = choose|a: int| 0 <= a < ts.len() && ts[a] == least(ts);
    let b = choose|b: int| 0 <= b < ts.len() && ts[b] == greatest(ts);
    assert(events[a].timestamp.mono_ns == least(ts) && events[b].timestamp.mono_ns == greatest(ts));
}

// ---------- focus ------------------------------------------------------------------

/// Whether a mark is a change of focus that an event tells.
pub open spec fn is_mark_of(m: FocusMarkView, e: EventView) -> bool {
    &&& e.kind == EventKind::AppFocus
    &&& m.at == e.timestamp.mono_ns
    &&& m.bundle == e.payload.str_at("to_bundle_id"@)
    &&& match e.payload.str_at("to_name"@) {
        Some(n) => m.name == n,
        None => m.name == "(unknown)"@,
    }
}

/// Whether a span is that of a change of focus, up to a time: in whole seconds,
/// and none where the time is before it.
pub open spec fn spans(s: FocusSegmentView, m: FocusMarkView, to: u64) -> bool {
    &&& s.app_name == m.name
    &&& s.bundle_id == m.bundle
    &&& s.started_secs * 1_000_000_000 <= m.at < (s.started_secs + 1) * 1_000_000_000
    &&& m.at <= to ==> s.duration_secs * 1_000_000_000 <= to - m.at < (s.duration_secs + 1)
        * 1_000_000_000
    &&& m.at > to ==> s.duration_secs == 0
}

/// Whether no event of a window is later than one.
pub open spec fn is_latest(events: Seq<EventView>, last: int) -> bool {
    0 <= last < events.len() && forall|k: int|
        0 <= k < events.len() ==> (#[trigger] events[k]).timestamp.mono_ns
            <= events[last].timestamp.mono_ns
}

/// Every change of focus is told, in the order of time: each lasts up to the
/// next, and the last to the latest event of the window.
pub proof fn every_focus_lasts_to_the_next(events: Seq<EventView>, i: int)
    requires
        events.len() > 0,
    ensures
        ({
            let told = capture_summary(events).focus_segments;
            exists|marks: Seq<FocusMarkView>| #[trigger]
                are_marks(marks, events) && told.len() == marks.len() && (0 <= i && i + 1
                    < marks.len() ==> spans(told[i], marks[i], marks[i + 1].at)) && (0 <= i == marks.len()
                    - 1 ==> forall|last: int| #[trigger]
                    is_latest(events, last) ==> spans(
                        told[i],
                        marks[i],
                        events[last].timestamp.mono_ns,
                    ))
        }),
{
    broadcast use vstd::seq_lib::group_to_multiset_ensures;

    let f = focused();
    let found = events.filter_map(f);
    let marks = sort_by_key(found, by_time());
    let ts = event_times(events);
    let end = greatest(ts);
    sort_by_key_sorts(found, by_time());
    least_and_greatest_bound(ts);
    assert forall|last: int| #[trigger] is_latest(events, last) implies events[last].timestamp.mono_ns
        == end by {
        let b = choose|b: int| 0 <= b < ts.len() && ts[b] == greatest(ts);
        assert(events[b].timestamp.mono_ns == end);
        assert(ts[last] == events[last].timestamp.mono_ns);
    }
    assert forall|k: int| 0 <= k < marks.len() implies exists|n: int|
        0 <= n < events.len() && is_mark_of(#[trigger] marks[k], #[trigger] events[n]) by {
        assert(marks.to_multiset().count(marks[k]) > 0);
        assert(found.contains(marks[k]));
        let q = choose|q: int| 0 <= q < found.len() && found[q] == marks[k];
        filter_map_from(events, f, q);
        let n = choose|n: int| 0 <= n < events.len() && f(#[trigger] events[n]) == Some(found[q]);
        assert(is_mark_of(marks[k], events[n]));
    }
    assert forall|a: int, b: int| 0 <= a < b < marks.len() implies (#[trigger] marks[a]).at <= (
    #[trigger] marks[b]).at by {
        assert(by_time()(marks[a]) <= by_time()(marks[b]));
    }
    let any = |m: FocusMarkView| true;
    let kept = keeps_where(f, any);
    count_kept(events, f, any);
    assert forall|e: EventView| #[trigger] kept(e) == of_kind(EventKind::AppFocus)(e) by {}
    same_count(events, kept, of_kind(EventKind::AppFocus));
    all_count(found, any);
    assert(are_marks(marks, events));
    if 0 <= i < marks.len() {
        let to = if i + 1 < marks.len() {
            marks[i + 1].at
        } else {
            end
        };
        assert(spans(capture_summary(events).focus_segments[i], marks[i], to));
    }
}

/// What everything satisfies counts everything.
proof fn all_count<A>(s: Seq<A>, p: spec_fn(A) -> bool)
    requires
        forall|a: A| #[trigger] p(a),
    ensures
        count_where(s, p) == s.len(),
    decreases s.len(),
{
    if s.len() > 0 {
        all_count(s.drop_last(), p);
        assert(p(s.last()));
    }
}

/// Whether marks are the changes of focus of a window, in the order of time.
pub open spec fn are_marks(marks: Seq<FocusMarkView>, events: Seq<EventView>) -> bool {
    &&& marks.len() == count_where(events, of_kind(EventKind::AppFocus))
    &&& forall|k: int|
        0 <= k < marks.len() ==> exists|n: int|
            0 <= n < events.len() && is_mark_of(#[trigger] marks[k], #[trigger] events[n])
    &&& forall|a: int, b: int|
        0 <= a < b < marks.len() ==> (#[trigger] marks[a]).at <= (#[trigger] marks[b]).at
}

// ---------- remote ends ------------------------------------------------------------

/// Whether an event tells of a connection of a program to a remote end.
pub open spec fn speaks(kind: EventKind, addr: Seq<char>, name: Seq<char>) -> spec_fn(EventView) -> bool {
    |e: EventView|
        e.kind == kind && (match e.payload.str_at("foreign_addr"@) {
            Some(a) => a == addr,
            None => addr == "?"@,
        }) && (match e.payload.str_at("process_name"@) {
            Some(n) => n == name,
            None => name == "?"@,
        })
}

/// A counter, or zero.
pub open spec fn counter(e: EventView, key: Seq<char>) -> int {
    match e.payload.u64_at(key) {
        Some(n) => n as int,
        None => 0,
    }
}

/// The bytes of a connection of a program to a remote end, both ways.
pub open spec fn spoken(
    kind: EventKind,
    addr: Seq<char>,
    name: Seq<char>,
    rx: Seq<char>,
    tx: Seq<char>,
) -> spec_fn(EventView) -> int {
    |e: EventView|
        if speaks(kind, addr, name)(e) {
            counter(e, rx) + counter(e, tx)
        } else {
            0
        }
}

/// Whether a fact tells a remote end and a program: all the bytes of the
/// connections that were completed or, where none was, of those that were opened
/// and are open still.
pub open spec fn tells_speech(f: EndpointFactView, events: Seq<EventView>) -> bool {
    let (a, n) = (f.foreign_addr, f.process_name);
    let done = count_where(events, speaks(EventKind::ConnectionCompleted, a, n)) > 0;
    &&& f.still_open == !done
    &&& done ==> f.bytes_total == sum_of(
        events,
        spoken(EventKind::ConnectionCompleted, a, n, "bytes_rx"@, "bytes_tx"@),
    ) % 0x1_0000_0000_0000_0000
    &&& !done ==> count_where(events, speaks(EventKind::ConnectionOpened, a, n)) > 0
        && f.bytes_total == sum_of(
        events,
        spoken(EventKind::ConnectionOpened, a, n, "rxbytes"@, "txbytes"@),
    ) % 0x1_0000_0000_0000_0000
}

pub(crate) proof fn pair_totals_are_sums<K>(entries: Seq<(K, u64)>, e: (K, u64))
    ensures
        totals(entries).contains(e) <==> keys_of(entries).contains(e.0) && e.1 == wrapped(
            sum_of(entries, amount_of(e.0)),
        ),
{
    let keys = uniques(keys_of(entries));
    let all = totals(entries);
    uniques_are_distinct(keys_of(entries));
    if all.contains(e) {
        let i = choose|i: int| 0 <= i < all.len() && all[i] == e;
        assert(keys[i] == e.0);
        assert(keys.contains(e.0));
    }
    if keys_of(entries).contains(e.0) && e.1 == wrapped(sum_of(entries, amount_of(e.0))) {
        assert(keys.contains(e.0));
        let i = choose|i: int| 0 <= i < keys.len() && keys[i] == e.0;
        assert(all[i] == e);
    }
}

/// The amounts that are kept, each as far as a counter reaches, sum up to what
/// they are of, as far as it reaches.
proof fn kept_sums_wrap<A, K>(
    s: Seq<A>,
    f: spec_fn(A) -> Option<(K, u64)>,
    k: K,
    h: spec_fn(A) -> int,
)
    requires
        forall|a: A| #[trigger] h(a) % 0x1_0000_0000_0000_0000 == match f(a) {
            Some(x) => if x.0 == k {
                x.1 as int
            } else {
                0
            },
            None => 0,
        },
    ensures
        wrapped(sum_of(s.filter_map(f), amount_of(k))) == sum_of(s, h) % 0x1_0000_0000_0000_0000,
    decreases s.len(),
{
    if s.len() == 0 {
        crate::seqs::filter_map_start(s, f);
        crate::seqs::take_all(s);
    } else {
        let n = s.len() - 1;
        let t = s.take(n);
        assert(s.drop_last() =~= t);
        kept_sums_wrap(t, f, k, h);
        crate::seqs::filter_map_step(s, f, n);
        crate::seqs::take_all(s);
        let m = 0x1_0000_0000_0000_0000int;
        let (a, b) = (sum_of(t.filter_map(f), amount_of(k)), sum_of(t, h));
        let c = match f(s[n]) {
            Some(x) => if x.0 == k {
                x.1 as int
            } else {
                0
            },
            None => 0,
        };
        match f(s[n]) {
            Some(x) => {
                assert(s.filter_map(f).drop_last() =~= t.filter_map(f));
            },
            None => {},
        }
        assert(sum_of(s.filter_map(f), amount_of(k)) == a + c);
        assert(h(s[n]) % m == c);
        vstd::arithmetic::div_mod::lemma_add_mod_noop(a, c, m);
        vstd::arithmetic::div_mod::lemma_add_mod_noop(b, h(s[n]), m);
        vstd::arithmetic::div_mod::lemma_small_mod(c as nat, m as nat);
    }
}

proof fn pair_is_kept<A, K>(s: Seq<A>, f: spec_fn(A) -> Option<(K, u64)>, k: K, p: spec_fn(A) -> bool)
    requires
        forall|a: A| #[trigger] p(a) <==> (f(a) matches Some(x) && x.0 == k),
    ensures
        keys_of(s.filter_map(f)).contains(k) <==> count_where(s, p) > 0,
{
    let kept = s.filter_map(f);
    if keys_of(kept).contains(k) {
        let m = choose|m: int| 0 <= m < keys_of(kept).len() && keys_of(kept)[m] == k;
        filter_map_from(s, f, m);
        let i = choose|i: int| 0 <= i < s.len() && f(#[trigger] s[i]) == Some(kept[m]);
        assert(p(s[i]));
        is_counted(s, p, i);
    }
    if count_where(s, p) > 0 {
        counted_is_there(s, p);
        let i = choose|i: int| 0 <= i < s.len() && p(#[trigger] s[i]);
        filter_map_keeps(s, f, i);
        let x = f(s[i])->0;
        let m = choose|m: int| 0 <= m < kept.len() && kept[m] == x;
        assert(keys_of(kept)[m] == k);
    }
}

proof fn done_is_summed(events: Seq<EventView>, k: (Seq<char>, Seq<char>))
    ensures
        keys_of(events.filter_map(completed())).contains(k) <==> count_where(
            events,
            speaks(EventKind::ConnectionCompleted, k.0, k.1),
        ) > 0,
        wrapped(sum_of(events.filter_map(completed()), amount_of(k))) == sum_of(
            events,
            spoken(EventKind::ConnectionCompleted, k.0, k.1, "bytes_rx"@, "bytes_tx"@),
        ) % 0x1_0000_0000_0000_0000,
{
    let f = completed();
    let p = speaks(EventKind::ConnectionCompleted, k.0, k.1);
    let h = spoken(EventKind::ConnectionCompleted, k.0, k.1, "bytes_rx"@, "bytes_tx"@);
    assert forall|e: EventView| #[trigger] p(e) <==> (f(e) matches Some(x) && x.0 == k) by {}
    pair_is_kept(events, f, k, p);
    assert forall|e: EventView| #[trigger] h(e) % 0x1_0000_0000_0000_0000 == match f(e) {
        Some(x) => if x.0 == k {
            x.1 as int
        } else {
            0
        },
        None => 0,
    } by {
        assert(p(e) <==> (f(e) matches Some(x) && x.0 == k));
    }
    kept_sums_wrap(events, f, k, h);
}

/// The opened connections of those that none was completed of.
proof fn open_is_summed(events: Seq<EventView>, k: (Seq<char>, Seq<char>))
    ensures
        ({
            let done = keys_of(events.filter_map(completed()));
            let open = events.filter_map(opened()).filter_map(unless_in(done));
            &&& keys_of(open).contains(k) <==> !done.contains(k) && count_where(
                events,
                speaks(EventKind::ConnectionOpened, k.0, k.1),
            ) > 0
            &&& !done.contains(k) ==> wrapped(sum_of(open, amount_of(k))) == sum_of(
                events,
                spoken(EventKind::ConnectionOpened, k.0, k.1, "rxbytes"@, "txbytes"@),
            ) % 0x1_0000_0000_0000_0000
        }),
{
    let f = opened();
    let p = speaks(EventKind::ConnectionOpened, k.0, k.1);
    let h = spoken(EventKind::ConnectionOpened, k.0, k.1, "rxbytes"@, "txbytes"@);
    let done = keys_of(events.filter_map(completed()));
    let all = events.filter_map(f);
    let open = all.filter_map(unless_in(done));
    assert forall|e: EventView| #[trigger] p(e) <==> (f(e) matches Some(x) && x.0 == k) by {}
    pair_is_kept(events, f, k, p);
    assert forall|e: EventView| #[trigger] h(e) % 0x1_0000_0000_0000_0000 == match f(e) {
        Some(x) => if x.0 == k {
            x.1 as int
        } else {
            0
        },
        None => 0,
    } by {
        assert(p(e) <==> (f(e) matches Some(x) && x.0 == k));
    }
    kept_sums_wrap(events, f, k, h);
    if keys_of(open).contains(k) {
        let m = choose|m: int| 0 <= m < keys_of(open).len() && keys_of(open)[m] == k;
        filter_map_from(all, unless_in(done), m);
        let i = choose|i: int|
            0 <= i < all.len() && unless_in(done)(#[trigger] all[i]) == Some(open[m]);
        assert(keys_of(all)[i] == k);
    }
    if !done.contains(k) && keys_of(all).contains(k) {
        let i = choose|i: int| 0 <= i < keys_of(all).len() && keys_of(all)[i] == k;
        assert(unless_in(done)(all[i]) == Some(all[i]));
        filter_map_keeps(all, unless_in(done), i);
        let m = choose|m: int| 0 <= m < open.len() && open[m] == all[i];
        assert(keys_of(open)[m] == k);
    }
    if !done.contains(k) {
        assert forall|x: ((Seq<char>, Seq<char>), u64)| #[trigger] amount_of(k)(x) == match unless_in(
            done,
        )(x) {
            Some(y) => amount_of(k)(y),
            None => 0,
        } by {}
        sum_of_kept_entries(all, unless_in(done), amount_of(k));
    }
}

proof fn sum_of_kept_entries<A>(s: Seq<A>, f: spec_fn(A) -> Option<A>, g: spec_fn(A) -> int)
    requires
        forall|a: A| #[trigger] g(a) == match f(a) {
            Some(b) => g(b),
            None => 0,
        },
    ensures
        sum_of(s.filter_map(f), g) == sum_of(s, g),
    decreases s.len(),
{
    if s.len() == 0 {
        crate::seqs::filter_map_start(s, f);
        crate::seqs::take_all(s);
    } else {
        let n = s.len() - 1;
        let t = s.take(n);
        assert(s.drop_last() =~= t);
        sum_of_kept_entries(t, f, g);
        crate::seqs::filter_map_step(s, f, n);
        crate::seqs::take_all(s);
        match f(s[n]) {
            Some(b) => {
                assert(s.filter_map(f).drop_last() =~= t.filter_map(f));
            },
            None => {},
        }
        assert(g(s[n]) == match f(s[n]) {
            Some(b) => g(b),
            None => 0,
        });
    }
}

/// A fact is among the remote ends of a window exactly if it tells one, and each
/// program and remote end of a completed or opened connection has one.
pub proof fn remote_ends_are_told(events: Seq<EventView>, f: EndpointFactView)
    ensures
        endpoints_of(events).contains(f) <==> tells_speech(f, events),
{
    let k = (f.foreign_addr, f.process_name);
    let done = events.filter_map(completed());
    let open = events.filter_map(opened()).filter_map(unless_in(keys_of(done)));
    let (a, b) = (totals(done), totals(open));
    let (x, y) = (a.map_values(endpoint_fact(false)), b.map_values(endpoint_fact(true)));
    let all = endpoints_of(events);
    let e = (k, f.bytes_total);
    done_is_summed(events, k);
    open_is_summed(events, k);
    pair_totals_are_sums(done, e);
    pair_totals_are_sums(open, e);
    if all.contains(f) {
        let i = choose|i: int| 0 <= i < all.len() && all[i] == f;
        if i < x.len() {
            assert(x[i] == f);
            assert(a[i] == e);
            assert(a.contains(e));
        } else {
            assert(y[i - x.len()] == f);
            assert(b[i - x.len()] == e);
            assert(b.contains(e));
        }
    }
    if tells_speech(f, events) {
        if f.still_open {
            assert(b.contains(e));
            let i = choose|i: int| 0 <= i < b.len() && b[i] == e;
            assert(y[i] == f);
            assert(all[x.len() + i] == f);
        } else {
            assert(a.contains(e));
            let i = choose|i: int| 0 <= i < a.len() && a[i] == e;
            assert(x[i] == f);
            assert(all[i] == f);
        }
    }
}

/// The remote ends with the most bytes are named, the most first: the first
/// eight, and up to two more that are open still. One that is not named has no
/// more bytes than any of the eight, and if it is open, two more are named.
pub proof fn busiest_ends_are_named(events: Seq<EventView>, i: int, j: int, f: EndpointFactView)
    ensures
        ({
            let named = leading_endpoints(endpoints_of(events));
            &&& named.len() <= 10
            &&& 0 <= i < named.len() ==> tells_speech(named[i], events)
            &&& 0 <= i < j < named.len() && i < 8 ==> named[i].bytes_total >= named[j].bytes_total
            &&& 8 <= i < named.len() ==> named[i].still_open
            &&& tells_speech(f, events) && !named.contains(f) ==> named.len() >= 8 && (0 <= i < 8
                ==> named[i].bytes_total >= f.bytes_total) && (f.still_open ==> named.len() == 10)
        }),
{
    broadcast use vstd::seq_lib::group_to_multiset_ensures;

    let all = endpoints_of(events);
    let order = sort_by_key(all, most_bytes());
    let named = leading_endpoints(all);
    sort_by_key_sorts(all, most_bytes());
    assert forall|x: EndpointFactView| #[trigger] order.contains(x) <==> all.contains(x) by {
        assert(order.contains(x) <==> order.to_multiset().count(x) > 0);
        assert(all.contains(x) <==> all.to_multiset().count(x) > 0);
    }
    remote_ends_are_told(events, f);
    if order.len() > 8 {
        let tail = order.skip(8);
        let open = tail.filter_map(if_open());
        let more = first_n(open, 2);
        assert(named =~= order.take(8) + more);
        assert forall|m: int| 0 <= m < open.len() implies (#[trigger] open[m]).still_open && exists|
            q: int,
        | 8 <= q < order.len() && #[trigger] order[q] == open[m] by {
            filter_map_from(tail, if_open(), m);
            let q = choose|q: int| 0 <= q < tail.len() && if_open()(#[trigger] tail[q]) == Some(open[m]);
            assert(order[q + 8] == open[m]);
        }
        if 0 <= i < named.len() {
            if i < 8 {
                assert(named[i] == order[i]);
                assert(order.contains(order[i]));
            } else {
                assert(named[i] == open[i - 8]);
                let q = choose|q: int| 8 <= q < order.len() && #[trigger] order[q] == open[i - 8];
                assert(order.contains(order[q]));
            }
            remote_ends_are_told(events, named[i]);
        }
        if 0 <= i < j < named.len() && i < 8 {
            if j < 8 {
                assert(most_bytes()(order[i]) <= most_bytes()(order[j]));
            } else {
                let q = choose|q: int| 8 <= q < order.len() && #[trigger] order[q] == open[j - 8];
                assert(most_bytes()(order[i]) <= most_bytes()(order[q]));
                assert(named[j] == open[j - 8]);
            }
        }
        if tells_speech(f, events) && !named.contains(f) {
            assert(order.contains(f));
            let m = choose|m: int| 0 <= m < order.len() && order[m] == f;
            if m < 8 {
                assert(named[m] == f);
            }
            if 0 <= i < 8 {
                assert(most_bytes()(order[i]) <= most_bytes()(order[m]));
            }
            if f.still_open {
                assert(tail[m - 8] == f);
                filter_map_keeps(tail, if_open(), m - 8);
                let q = choose|q: int| 0 <= q < open.len() && open[q] == f;
                if open.len() <= 2 {
                    assert(named[8 + q] == f);
                }
            }
        }
    } else {
        if 0 <= i < named.len() {
            assert(order.contains(order[i]));
            remote_ends_are_told(events, named[i]);
        }
        if 0 <= i < j < named.len() {
            assert(most_bytes()(order[i]) <= most_bytes()(order[j]));
        }
        if tells_speech(f, events) {
            assert(order.contains(f));
        }
    }
}

} // verus!
