//! What holds of the summary of a graph: how long it spans, how much it holds,
//! and which programs, directories, remote ends and applications it names.

use vstd::prelude::*;

use crate::alarm_laws::joined_has_each;
use crate::anomaly_laws::chain_holds;
use crate::capture::{
    app_segments, app_times, by_start, file_times, graph_summary, graph_times, greatest,
    interval_segment, interval_times, least, least_and_greatest_bound, nonzero, process_times, ran,
    socket_bytes, socket_times, things, touches,
};
use crate::capture_laws::pair_totals_are_sums;
use crate::graph::{AppNodeView, FileNodeView, GraphView, Interval, ProcessNodeView, SocketNodeView};
use crate::observation::Timestamp;
use crate::order::{sort_by_key, sort_by_key_sorts};
use crate::seqs::{chain, count_where, filter_map_from, filter_map_keeps, sum_of};
use crate::summary_laws::{
    background, background_is_noisy, key_is_kept, sum_is_count, tells_largest, top_tells_largest,
};
use crate::tally::{amount_of, keys_of, totals};
use crate::timeline::{
    bucket, endpoint_fact, most_bytes, top_texts, DirectoryFactView, EndpointFactView,
    FocusSegmentView, ProcessFactView,
};

verus! {

// ---------- time -------------------------------------------------------------------

/// Whether something began or ended at a time.
pub open spec fn bounds_at(a: Timestamp, b: Option<Timestamp>, t: u64) -> bool {
    a.mono_ns == t || (b is Some && b->0.mono_ns == t)
}

/// Whether a graph tells a time: a birth or a death, an opening or a closing, the
/// first or last sight of a file, or a change of focus. A time that was never
/// set does not count.
pub open spec fn is_told_at(g: GraphView, t: u64) -> bool {
    &&& t != 0
    &&& {
        ||| exists|i: int|
            0 <= i < g.processes.len() && bounds_at(
                (#[trigger] g.processes[i]).birth,
                g.processes[i].death,
                t,
            )
        ||| exists|i: int|
            0 <= i < g.sockets.len() && bounds_at(
                (#[trigger] g.sockets[i]).opened,
                g.sockets[i].closed,
                t,
            )
        ||| exists|i: int|
            0 <= i < g.files.len() && ((#[trigger] g.files[i]).first_seen.mono_ns == t
                || g.files[i].last_seen.mono_ns == t)
        ||| exists|i: int, j: int|
            0 <= i < g.apps.len() && 0 <= j < g.apps[i].intervals.len() && bounds_at(
                (#[trigger] g.apps[i].intervals[j]).from,
                g.apps[i].intervals[j].to,
                t,
            )
    }
}

proof fn bounds_are_listed(a: Timestamp, b: Option<Timestamp>, t: u64)
    ensures
        crate::capture::one_or_two(a, b).contains(t) <==> bounds_at(a, b, t),
{
    let s = crate::capture::one_or_two(a, b);
    if bounds_at(a, b, t) {
        if a.mono_ns == t {
            assert(s[0] == t);
        } else {
            assert(s[1] == t);
        }
    }
}

proof fn processes_tell(s: Seq<ProcessNodeView>, t: u64)
    ensures
        chain(s, process_times()).contains(t) <==> exists|i: int|
            0 <= i < s.len() && bounds_at((#[trigger] s[i]).birth, s[i].death, t),
{
    chain_holds(s, process_times(), t);
    assert forall|i: int| 0 <= i < s.len() implies (process_times()(#[trigger] s[i]).contains(t)
        <==> bounds_at(s[i].birth, s[i].death, t)) by {
        bounds_are_listed(s[i].birth, s[i].death, t);
    }
}

proof fn sockets_tell(s: Seq<SocketNodeView>, t: u64)
    ensures
        chain(s, socket_times()).contains(t) <==> exists|i: int|
            0 <= i < s.len() && bounds_at((#[trigger] s[i]).opened, s[i].closed, t),
{
    chain_holds(s, socket_times(), t);
    assert forall|i: int| 0 <= i < s.len() implies (socket_times()(#[trigger] s[i]).contains(t)
        <==> bounds_at(s[i].opened, s[i].closed, t)) by {
        bounds_are_listed(s[i].opened, s[i].closed, t);
    }
}

proof fn files_tell(s: Seq<FileNodeView>, t: u64)
    ensures
        chain(s, file_times()).contains(t) <==> exists|i: int|
            0 <= i < s.len() && ((#[trigger] s[i]).first_seen.mono_ns == t || s[i].last_seen.mono_ns
                == t),
{
    chain_holds(s, file_times(), t);
    assert forall|i: int| 0 <= i < s.len() implies (file_times()(#[trigger] s[i]).contains(t) <==> (
    s[i].first_seen.mono_ns == t || s[i].last_seen.mono_ns == t)) by {
        let l = file_times()(s[i]);
        assert(l[0] == s[i].first_seen.mono_ns && l[1] == s[i].last_seen.mono_ns);
    }
}

proof fn apps_tell(s: Seq<AppNodeView>, t: u64)
    ensures
        chain(s, app_times()).contains(t) <==> exists|i: int, j: int|
            0 <= i < s.len() && 0 <= j < s[i].intervals.len() && bounds_at(
                (#[trigger] s[i].intervals[j]).from,
                s[i].intervals[j].to,
                t,
            ),
{
    chain_holds(s, app_times(), t);
    assert forall|i: int| 0 <= i < s.len() implies (app_times()(#[trigger] s[i]).contains(t)
        <==> exists|j: int|
        0 <= j < s[i].intervals.len() && bounds_at(
            (#[trigger] s[i].intervals[j]).from,
            s[i].intervals[j].to,
            t,
        )) by {
        let l = s[i].intervals;
        chain_holds(l, interval_times(), t);
        assert forall|j: int| 0 <= j < l.len() implies (interval_times()(
            #[trigger] l[j],
        ).contains(t) <==> bounds_at(l[j].from, l[j].to, t)) by {
            bounds_are_listed(l[j].from, l[j].to, t);
        }
    }
    if exists|i: int, j: int|
        0 <= i < s.len() && 0 <= j < s[i].intervals.len() && bounds_at(
            (#[trigger] s[i].intervals[j]).from,
            s[i].intervals[j].to,
            t,
        ) {
        let (i, j) = choose|i: int, j: int|
            0 <= i < s.len() && 0 <= j < s[i].intervals.len() && bounds_at(
                (#[trigger] s[i].intervals[j]).from,
                s[i].intervals[j].to,
                t,
            );
        assert(app_times()(s[i]).contains(t));
    }
}

proof fn times_are_told(g: GraphView, t: u64)
    ensures
        graph_times(g).contains(t) <==> is_told_at(g, t),
{
    let a = chain(g.processes, process_times());
    let b = chain(g.apps, app_times());
    let c = chain(g.sockets, socket_times());
    let d = chain(g.files, file_times());
    let all = a + b + c + d;
    processes_tell(g.processes, t);
    apps_tell(g.apps, t);
    sockets_tell(g.sockets, t);
    files_tell(g.files, t);
    joined_has_each(a + b + c, d, t);
    joined_has_each(a + b, c, t);
    joined_has_each(a, b, t);
    let kept = all.filter_map(nonzero());
    if kept.contains(t) {
        let k = choose|k: int| 0 <= k < kept.len() && kept[k] == t;
        filter_map_from(all, nonzero(), k);
        let i = choose|i: int| 0 <= i < all.len() && nonzero()(#[trigger] all[i]) == Some(kept[k]);
        assert(all[i] == t);
        assert(all.contains(t));
    }
    if t != 0 && all.contains(t) {
        let i = choose|i: int| 0 <= i < all.len() && all[i] == t;
        assert(nonzero()(all[i]) == Some(t));
        filter_map_keeps(all, nonzero(), i);
    }
}

/// A graph spans from the earliest time that it tells to the latest, in whole
/// seconds.
pub proof fn graph_lasts(g: GraphView, a: u64, b: u64)
    requires
        is_told_at(g, a),
        is_told_at(g, b),
    ensures
        b - a < (graph_summary(g).duration_secs + 1) * 1_000_000_000,
        exists|x: u64, y: u64| #[trigger]
            is_told_at(g, x) && #[trigger] is_told_at(g, y) && y - x >= graph_summary(
                g,
            ).duration_secs * 1_000_000_000,
{
    let ts = graph_times(g);
    times_are_told(g, a);
    times_are_told(g, b);
    assert(things(g) > 0);
    let i = choose|i: int| 0 <= i < ts.len() && ts[i] == a;
    let j = choose|j: int| 0 <= j < ts.len() && ts[j] == b;
    least_and_greatest_bound(ts);
    let x = least(ts);
    let y = greatest(ts);
    assert(ts.contains(x) && ts.contains(y));
    times_are_told(g, x);
    times_are_told(g, y);
    assert(is_told_at(g, x) && is_told_at(g, y) && y - x >= graph_summary(g).duration_secs
        * 1_000_000_000);
}

// ---------- counts -----------------------------------------------------------------

/// A summary tells how many things of each kind the graph holds.
pub proof fn things_are_counted(g: GraphView)
    requires
        g.processes.len() + g.apps.len() + g.sockets.len() + g.files.len() <= u32::MAX,
        g.domains.len() <= u32::MAX,
    ensures
        ({
            let s = graph_summary(g);
            let n = g.processes.len() + g.apps.len() + g.sockets.len() + g.files.len();
            &&& s.events_total == n
            &&& n > 0 ==> {
                &&& s.kind_counts.len() == 5
                &&& s.kind_counts[0] == ("processes"@, g.processes.len() as u32)
                &&& s.kind_counts[1] == ("apps"@, g.apps.len() as u32)
                &&& s.kind_counts[2] == ("sockets"@, g.sockets.len() as u32)
                &&& s.kind_counts[3] == ("files"@, g.files.len() as u32)
                &&& s.kind_counts[4] == ("domains"@, g.domains.len() as u32)
            }
        }),
{
}

// ---------- programs ---------------------------------------------------------------

/// Whether a process is one of a program that does not always run.
pub open spec fn runs(comm: Seq<char>) -> spec_fn(ProcessNodeView) -> bool {
    |p: ProcessNodeView| p.comm == Some(comm) && !background().contains(comm)
}

/// How many processes of a program there were.
pub open spec fn run_count(s: Seq<ProcessNodeView>) -> spec_fn(Seq<char>) -> nat {
    |c: Seq<char>| count_where(s, runs(c))
}

/// The programs with the most processes are named, up to eight, with how many
/// there were; those that always run are not.
pub proof fn programs_of_a_graph_are_counted(g: GraphView)
    requires
        0 < g.processes.len() <= u32::MAX,
    ensures
        exists|listed: Seq<(Seq<char>, u64)>| #[trigger]
            tells_largest(listed, 8, run_count(g.processes)) && graph_summary(
                g,
            ).top_processes.len() == listed.len() && forall|i: int|
                0 <= i < listed.len() ==> graph_summary(g).top_processes[i] == (ProcessFactView {
                    comm: (#[trigger] listed[i]).0,
                    spawns: listed[i].1 as u32,
                }) && listed[i].1 <= u32::MAX,
{
    let f = ran();
    let s = g.processes;
    let entries = s.filter_map(f);
    let count = run_count(s);
    assert forall|k: Seq<char>| #[trigger]
        count(k) == sum_of(entries, amount_of(k)) && count(k) <= s.len() && (count(k) > 0
            <==> keys_of(entries).contains(k)) by {
        assert forall|p: ProcessNodeView| #[trigger] runs(k)(p) <==> (f(p) matches Some(x) && x.0
            == k) by {
            background_is_noisy(k);
        }
        sum_is_count(s, f, k, runs(k));
        key_is_kept(s, f, k, runs(k));
    }
    top_tells_largest(entries, 8, count);
    let listed = top_texts(entries, 8);
    assert forall|i: int| 0 <= i < listed.len() implies graph_summary(g).top_processes[i] == (
    ProcessFactView { comm: (#[trigger] listed[i]).0, spawns: listed[i].1 as u32 }) && listed[i].1
        <= u32::MAX by {
        assert(listed[i].1 == count(listed[i].0));
    }
    assert(tells_largest(listed, 8, count));
}

// ---------- directories ------------------------------------------------------------

/// The touches of a file that count for a directory.
pub open spec fn touches_in(dir: Seq<char>) -> spec_fn(FileNodeView) -> int {
    |f: FileNodeView|
        if bucket(f.path) != dir {
            0
        } else if f.touch_count > u32::MAX {
            u32::MAX as int
        } else {
            f.touch_count as int
        }
}

/// How often the files of a directory were touched.
pub open spec fn touch_total(s: Seq<FileNodeView>) -> spec_fn(Seq<char>) -> nat {
    |d: Seq<char>| sum_of(s, touches_in(d)) as nat
}

proof fn touches_add_up(s: Seq<FileNodeView>, d: Seq<char>)
    requires
        forall|i: int| 0 <= i < s.len() ==> (#[trigger] s[i]).touch_count > 0,
    ensures
        sum_of(s.map_values(touches()), amount_of(d)) == sum_of(s, touches_in(d)),
        sum_of(s, touches_in(d)) >= 0,
        sum_of(s, touches_in(d)) > 0 <==> keys_of(s.map_values(touches())).contains(d),
    decreases s.len(),
{
    let e = s.map_values(touches());
    if s.len() > 0 {
        let t = s.drop_last();
        assert forall|i: int| 0 <= i < t.len() implies (#[trigger] t[i]).touch_count > 0 by {
            assert(t[i] == s[i]);
        }
        touches_add_up(t, d);
        assert(e.drop_last() =~= t.map_values(touches()));
        let k = keys_of(e);
        let l = keys_of(t.map_values(touches()));
        assert(k =~= l.push(bucket(s.last().path)));
        assert(s[s.len() - 1].touch_count > 0);
        if l.contains(d) {
            let i = choose|i: int| 0 <= i < l.len() && l[i] == d;
            assert(k[i] == d);
        }
        if bucket(s.last().path) == d {
            assert(k[k.len() - 1] == d);
        }
        if k.contains(d) {
            let i = choose|i: int| 0 <= i < k.len() && k[i] == d;
            if i < l.len() {
                assert(l[i] == d);
            }
        }
    }
}

/// The directories whose files were touched most are named, up to six, with how
/// often.
pub proof fn directories_of_a_graph_are_counted(g: GraphView)
    requires
        g.files.len() > 0,
        forall|i: int| 0 <= i < g.files.len() ==> (#[trigger] g.files[i]).touch_count > 0,
        forall|d: Seq<char>| #[trigger] sum_of(g.files, touches_in(d)) <= u32::MAX,
    ensures
        exists|listed: Seq<(Seq<char>, u64)>| #[trigger]
            tells_largest(listed, 6, touch_total(g.files)) && graph_summary(
                g,
            ).top_directories.len() == listed.len() && forall|i: int|
                0 <= i < listed.len() ==> graph_summary(g).top_directories[i] == (
                DirectoryFactView {
                    directory: (#[trigger] listed[i]).0,
                    file_changes: listed[i].1 as u32,
                }) && listed[i].1 <= u32::MAX,
{
    let s = g.files;
    let entries = s.map_values(touches());
    let count = touch_total(s);
    assert forall|k: Seq<char>| #[trigger]
        count(k) == sum_of(entries, amount_of(k)) && count(k) <= u32::MAX && (count(k) > 0
            <==> keys_of(entries).contains(k)) by {
        touches_add_up(s, k);
        assert(sum_of(s, touches_in(k)) <= u32::MAX);
    }
    top_tells_largest(entries, 6, count);
    let listed = top_texts(entries, 6);
    assert forall|i: int| 0 <= i < listed.len() implies graph_summary(g).top_directories[i] == (
    DirectoryFactView { directory: (#[trigger] listed[i]).0, file_changes: listed[i].1 as u32 })
        && listed[i].1 <= u32::MAX by {
        assert(listed[i].1 == count(listed[i].0));
    }
    assert(tells_largest(listed, 6, count));
}

// ---------- remote ends ------------------------------------------------------------

/// Whether a connection is one of a program with a remote end.
pub open spec fn is_between(s: SocketNodeView, addr: Seq<char>, program: Seq<char>) -> bool {
    &&& s.id.foreign_addr == addr
    &&& match s.process_name {
        Some(n) => n == program,
        None => program == "?"@,
    }
}

/// The bytes that a connection of a program with a remote end carried.
pub open spec fn carried(addr: Seq<char>, program: Seq<char>) -> spec_fn(SocketNodeView) -> int {
    |s: SocketNodeView|
        if is_between(s, addr, program) {
            let rx = if s.rxbytes_last is Some {
                s.rxbytes_last->0 as int
            } else {
                0
            };
            let tx = if s.txbytes_last is Some {
                s.txbytes_last->0 as int
            } else {
                0
            };
            if rx + tx > u64::MAX {
                u64::MAX as int
            } else {
                rx + tx
            }
        } else {
            0
        }
}

proof fn carried_adds_up(s: Seq<SocketNodeView>, k: (Seq<char>, Seq<char>))
    ensures
        sum_of(s.map_values(socket_bytes()), amount_of(k)) == sum_of(s, carried(k.0, k.1)),
    decreases s.len(),
{
    if s.len() > 0 {
        let e = s.map_values(socket_bytes());
        assert(e.drop_last() =~= s.drop_last().map_values(socket_bytes()));
        carried_adds_up(s.drop_last(), k);
    }
}

proof fn end_is_summed(s: Seq<SocketNodeView>, f: EndpointFactView)
    ensures
        totals(s.map_values(socket_bytes())).map_values(endpoint_fact(false)).contains(f) <==> {
            &&& !f.still_open
            &&& exists|i: int|
                0 <= i < s.len() && is_between(#[trigger] s[i], f.foreign_addr, f.process_name)
            &&& f.bytes_total == sum_of(s, carried(f.foreign_addr, f.process_name))
                % 0x1_0000_0000_0000_0000
        },
{
    let entries = s.map_values(socket_bytes());
    let k = (f.foreign_addr, f.process_name);
    let e = (k, f.bytes_total);
    let all = totals(entries);
    let facts = all.map_values(endpoint_fact(false));
    carried_adds_up(s, k);
    pair_totals_are_sums(entries, e);
    let keys = keys_of(entries);
    if facts.contains(f) {
        let i = choose|i: int| 0 <= i < facts.len() && facts[i] == f;
        assert(all[i] == e);
        assert(all.contains(e));
        let m = choose|m: int| 0 <= m < keys.len() && keys[m] == k;
        assert(is_between(s[m], k.0, k.1));
    }
    if !f.still_open && (exists|i: int|
        0 <= i < s.len() && is_between(#[trigger] s[i], f.foreign_addr, f.process_name))
        && f.bytes_total == sum_of(s, carried(f.foreign_addr, f.process_name))
        % 0x1_0000_0000_0000_0000 {
        let i = choose|i: int|
            0 <= i < s.len() && is_between(#[trigger] s[i], f.foreign_addr, f.process_name);
        assert(keys[i] == k);
        assert(keys.contains(k));
        assert(all.contains(e));
        let m = choose|m: int| 0 <= m < all.len() && all[m] == e;
        assert(facts[m] == f);
    }
}

/// The remote ends with the most bytes are named, up to eight, the most first,
/// each with what all its connections of one program carried. A connection whose
/// end is not named finds eight that carried no less.
pub proof fn ends_of_a_graph_are_told(g: GraphView, i: int, j: int, k: int)
    requires
        g.sockets.len() > 0,
    ensures
        ({
            let named = graph_summary(g).top_endpoints;
            let s = g.sockets;
            &&& named.len() <= 8
            &&& 0 <= i < named.len() ==> !named[i].still_open && named[i].bytes_total == sum_of(
                s,
                carried(named[i].foreign_addr, named[i].process_name),
            ) % 0x1_0000_0000_0000_0000
            &&& 0 <= i < j < named.len() ==> named[i].bytes_total >= named[j].bytes_total
            &&& 0 <= k < s.len() ==> (exists|m: int|
                0 <= m < named.len() && is_between(
                    s[k],
                    (#[trigger] named[m]).foreign_addr,
                    named[m].process_name,
                )) || (named.len() == 8 && (0 <= i < 8 ==> named[i].bytes_total >= sum_of(
                s,
                carried(
                    s[k].id.foreign_addr,
                    if s[k].process_name is Some {
                        s[k].process_name->0
                    } else {
                        "?"@
                    },
                ),
            ) % 0x1_0000_0000_0000_0000))
        }),
{
    broadcast use vstd::seq_lib::group_to_multiset_ensures;

    let s = g.sockets;
    let all = totals(s.map_values(socket_bytes())).map_values(endpoint_fact(false));
    let order = sort_by_key(all, most_bytes());
    let named = graph_summary(g).top_endpoints;
    sort_by_key_sorts(all, most_bytes());
    assert forall|x: EndpointFactView| #[trigger] order.contains(x) <==> all.contains(x) by {
        assert(order.contains(x) <==> order.to_multiset().count(x) > 0);
        assert(all.contains(x) <==> all.to_multiset().count(x) > 0);
    }
    if 0 <= i < named.len() {
        assert(named[i] == order[i]);
        assert(order.contains(order[i]));
        end_is_summed(s, named[i]);
    }
    if 0 <= i < j < named.len() {
        assert(most_bytes()(order[i]) <= most_bytes()(order[j]));
    }
    if 0 <= k < s.len() {
        let name = if s[k].process_name is Some {
            s[k].process_name->0
        } else {
            "?"@
        };
        let f = EndpointFactView {
            foreign_addr: s[k].id.foreign_addr,
            process_name: name,
            bytes_total: (sum_of(s, carried(s[k].id.foreign_addr, name)) % 0x1_0000_0000_0000_0000)
                as u64,
            still_open: false,
        };
        assert(is_between(s[k], f.foreign_addr, f.process_name));
        end_is_summed(s, f);
        assert(order.contains(f));
        let m = choose|m: int| 0 <= m < order.len() && order[m] == f;
        if m < named.len() {
            assert(named[m] == f);
        } else if 0 <= i < 8 {
            assert(most_bytes()(order[i]) <= most_bytes()(order[m]));
        }
    }
}

// ---------- focus ------------------------------------------------------------------

/// Whether a span tells of an application that it was in front: from when, and
/// for how many whole seconds, none while it is there still.
pub open spec fn tells_front(f: FocusSegmentView, a: AppNodeView, iv: Interval) -> bool {
    &&& f.app_name == if a.name is Some {
        a.name->0
    } else {
        a.id
    }
    &&& f.bundle_id == Some(a.id)
    &&& f.started_secs * 1_000_000_000 <= iv.from.mono_ns < (f.started_secs + 1) * 1_000_000_000
    &&& iv.to is None ==> f.duration_secs == 0
    &&& iv.to is Some && iv.to->0.mono_ns >= iv.from.mono_ns ==> f.duration_secs * 1_000_000_000
        <= iv.to->0.mono_ns - iv.from.mono_ns < (f.duration_secs + 1) * 1_000_000_000
    &&& iv.to is Some && iv.to->0.mono_ns < iv.from.mono_ns ==> f.duration_secs == 0
}

/// Every span in which an application was in front is told, and no other, the
/// earliest first.
pub proof fn focus_of_a_graph_is_told(g: GraphView, f: FocusSegmentView, i: int, j: int)
    requires
        g.apps.len() > 0,
    ensures
        graph_summary(g).focus_segments.contains(f) <==> exists|x: int, y: int|
            0 <= x < g.apps.len() && 0 <= y < g.apps[x].intervals.len() && tells_front(
                f,
                g.apps[x],
                #[trigger] g.apps[x].intervals[y],
            ),
        0 <= i < j < graph_summary(g).focus_segments.len() ==> graph_summary(
            g,
        ).focus_segments[i].started_secs <= graph_summary(g).focus_segments[j].started_secs,
{
    broadcast use vstd::seq_lib::group_to_multiset_ensures;

    let all = chain(g.apps, app_segments());
    let order = sort_by_key(all, by_start());
    sort_by_key_sorts(all, by_start());
    chain_holds(g.apps, app_segments(), f);
    assert(order.contains(f) <==> order.to_multiset().count(f) > 0);
    assert(all.contains(f) <==> all.to_multiset().count(f) > 0);
    if 0 <= i < j < order.len() {
        assert(by_start()(order[i]) <= by_start()(order[j]));
    }
    if all.contains(f) {
        let x = choose|x: int|
            0 <= x < g.apps.len() && app_segments()(#[trigger] g.apps[x]).contains(f);
        let l = app_segments()(g.apps[x]);
        let y = choose|y: int| 0 <= y < l.len() && l[y] == f;
        assert(f == interval_segment(g.apps[x])(g.apps[x].intervals[y]));
        assert(tells_front(f, g.apps[x], g.apps[x].intervals[y]));
    }
    if exists|x: int, y: int|
        0 <= x < g.apps.len() && 0 <= y < g.apps[x].intervals.len() && tells_front(
            f,
            g.apps[x],
            #[trigger] g.apps[x].intervals[y],
        ) {
        let (x, y) = choose|x: int, y: int|
            0 <= x < g.apps.len() && 0 <= y < g.apps[x].intervals.len() && tells_front(
                f,
                g.apps[x],
                #[trigger] g.apps[x].intervals[y],
            );
        let l = app_segments()(g.apps[x]);
        assert(interval_segment(g.apps[x])(g.apps[x].intervals[y]) == f);
        assert(l[y] == f);
        assert(app_segments()(g.apps[x]).contains(f));
    }
}

} // verus!
