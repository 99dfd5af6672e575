//! What holds of every graph that is built from events: which nodes and edges
//! it has, and how often.

use vstd::prelude::*;

use crate::events::{EventKind, EventView};
use crate::fsevents_coalesce::{texts_at, union_texts};
use crate::graph::{
    AppNodeView, EdgeView, FileNodeView, Interval, ProcessId, ProcessNodeView, SocketIdView,
    SocketNodeView,
};
use crate::graph_builder::{
    app_edges, close_app, count_of, focus_edges, focus_id, has_process, is_app, is_file,
    is_process, is_socket, know_app, last_with_pid, last_with_pid_is_there, later, lived_at,
    open_app, opener, opener_edge, opener_lived_then, overlap_edge, parent_edge, process_of,
    socket_of, wrapping_sum, BuilderView,
};
use crate::observation::Timestamp;
use crate::seqs::{
    chain, count_kept, count_where, count_where_joins, count_where_none, count_where_one,
    counted_is_there, distinct_by, filter_map_from, first_where, first_where_is_first, keeps_where,
    sum_of, uniques,
};

verus! {

// ---------- nodes ------------------------------------------------------------------

/// A process's identity, as a function.
pub open spec fn process_key() -> spec_fn(ProcessNodeView) -> ProcessId {
    |p: ProcessNodeView| p.id
}

/// A process's raw id, as a function.
pub open spec fn process_pid() -> spec_fn(ProcessNodeView) -> u32 {
    |p: ProcessNodeView| p.id.pid
}

/// An application's identity, as a function.
pub open spec fn app_key() -> spec_fn(AppNodeView) -> Seq<char> {
    |a: AppNodeView| a.id
}

/// A connection's identity, as a function.
pub open spec fn socket_key() -> spec_fn(SocketNodeView) -> SocketIdView {
    |s: SocketNodeView| s.id
}

/// A file's path, as a function.
pub open spec fn file_key() -> spec_fn(FileNodeView) -> Seq<char> {
    |f: FileNodeView| f.path
}

/// Whether every node of a builder is of another thing.
pub open spec fn distinct_nodes(b: BuilderView) -> bool {
    &&& distinct_by(b.processes, process_key())
    &&& distinct_by(b.apps, app_key())
    &&& distinct_by(b.sockets, socket_key())
    &&& distinct_by(b.files, file_key())
}

/// A builder that was fed some events.
pub open spec fn fed(evs: Seq<EventView>) -> BuilderView
    decreases evs.len(),
{
    if evs.len() == 0 {
        BuilderView {
            processes: Seq::empty(),
            apps: Seq::empty(),
            sockets: Seq::empty(),
            files: Seq::empty(),
            current_frontmost: None,
            last_ts: None,
        }
    } else {
        fed(evs.drop_last()).after(evs.last())
    }
}

/// An element put in the place of the first that satisfies a predicate, or at
/// the end.
spec fn put<A>(s: Seq<A>, p: spec_fn(A) -> bool, x: A) -> Seq<A> {
    match first_where(s, p) {
        Some(i) => s.update(i, x),
        None => s.push(x),
    }
}

/// Putting an element in the place of the one with its key keeps keys apart.
proof fn put_keeps_distinct<A, K>(s: Seq<A>, key: spec_fn(A) -> K, p: spec_fn(A) -> bool, x: A)
    requires
        distinct_by(s, key),
        forall|a: A| #[trigger] p(a) <==> key(a) == key(x),
    ensures
        distinct_by(put(s, p, x), key),
{
    first_where_is_first(s, p);
    let after = put(s, p, x);
    let at = match first_where(s, p) {
        Some(i) => i,
        None => s.len() as int,
    };
    assert forall|i: int, j: int| 0 <= i < j < after.len() implies key(#[trigger] after[i]) != key(
        #[trigger] after[j],
    ) by {
        if i != at && j != at {
            assert(key(s[i]) != key(s[j]));
        } else if j < s.len() {
            assert(key(s[i]) != key(s[j]));
            assert(p(s[at]));
        } else {
            assert(!p(s[i]));
        }
    }
}

/// An element whose key stays keeps keys apart.
proof fn update_keeps_distinct<A, K>(s: Seq<A>, key: spec_fn(A) -> K, i: int, x: A)
    requires
        distinct_by(s, key),
        0 <= i < s.len(),
        key(x) == key(s[i]),
    ensures
        distinct_by(s.update(i, x), key),
{
    let after = s.update(i, x);
    assert forall|a: int, b: int| 0 <= a < b < after.len() implies key(#[trigger] after[a]) != key(
        #[trigger] after[b],
    ) by {
        assert(key(s[a]) != key(s[b]));
    }
}

/// What was put in is found by its predicate; what another predicate finds is
/// as before.
proof fn put_reads_back<A>(s: Seq<A>, p: spec_fn(A) -> bool, q: spec_fn(A) -> bool, x: A)
    requires
        p(x),
        forall|a: A| #[trigger] p(a) ==> !q(a),
    ensures
        first_where(put(s, p, x), p) matches Some(i) && put(s, p, x)[i] == x,
        match first_where(s, q) {
            Some(m) => first_where(put(s, p, x), q) == Some(m) && put(s, p, x)[m] == s[m],
            None => first_where(put(s, p, x), q) is None,
        },
{
    let after = put(s, p, x);
    let at = match first_where(s, p) {
        Some(i) => i,
        None => s.len() as int,
    };
    first_where_is_first(s, p);
    first_where_is_first(s, q);
    first_where_is_first(after, p);
    first_where_is_first(after, q);
    assert(after[at] == x);
    assert forall|j: int| 0 <= j < at implies !p(#[trigger] after[j]) by {
        assert(after[j] == s[j]);
    }
    assert(p(after[at]) && !q(after[at]));
    match first_where(s, q) {
        Some(m) => {
            assert(m != at);
            assert(after[m] == s[m]);
            assert forall|j: int| 0 <= j < m implies !q(#[trigger] after[j]) by {
                if j != at {
                    assert(after[j] == s[j]);
                }
            }
        },
        None => {
            assert forall|j: int| 0 <= j < after.len() implies !q(#[trigger] after[j]) by {
                if j != at {
                    assert(after[j] == s[j]);
                }
            }
        },
    }
}

proof fn close_keeps_distinct(apps: Seq<AppNodeView>, id: Seq<char>, at: Option<Timestamp>)
    requires
        distinct_by(apps, app_key()),
    ensures
        distinct_by(close_app(apps, id, at), app_key()),
{
    first_where_is_first(apps, is_app(id));
    match first_where(apps, is_app(id)) {
        Some(i) => {
            update_keeps_distinct(apps, app_key(), i, close_app(apps, id, at)[i]);
        },
        None => {},
    }
}

proof fn open_keeps_distinct(apps: Seq<AppNodeView>, id: Seq<char>, from: Timestamp)
    requires
        distinct_by(apps, app_key()),
    ensures
        distinct_by(open_app(apps, id, from), app_key()),
{
    first_where_is_first(apps, is_app(id));
    match first_where(apps, is_app(id)) {
        Some(i) => {
            update_keeps_distinct(apps, app_key(), i, open_app(apps, id, from)[i]);
        },
        None => {},
    }
}

proof fn know_keeps_distinct(
    apps: Seq<AppNodeView>,
    id: Seq<char>,
    name: Option<Seq<char>>,
    exec_path: Option<Seq<char>>,
)
    requires
        distinct_by(apps, app_key()),
    ensures
        distinct_by(know_app(apps, id, name, exec_path), app_key()),
{
    let after = know_app(apps, id, name, exec_path);
    first_where_is_first(apps, is_app(id));
    match first_where(apps, is_app(id)) {
        Some(i) => {
            update_keeps_distinct(apps, app_key(), i, after[i]);
        },
        None => {
            put_keeps_distinct(apps, app_key(), is_app(id), after.last());
        },
    }
}

/// An event keeps every node of another thing.
pub proof fn event_keeps_nodes_distinct(b: BuilderView, ev: EventView)
    requires
        distinct_nodes(b),
    ensures
        distinct_nodes(b.after(ev)),
{
    let after = b.after(ev);
    match ev.kind {
        EventKind::ProcessBirth | EventKind::ProcessDeath => {
            match process_of(ev) {
                Some(id) => {
                    first_where_is_first(b.processes, is_process(id));
                    match first_where(b.processes, is_process(id)) {
                        Some(i) => {
                            update_keeps_distinct(
                                b.processes,
                                process_key(),
                                i,
                                after.processes[i],
                            );
                        },
                        None => {
                            put_keeps_distinct(
                                b.processes,
                                process_key(),
                                is_process(id),
                                after.processes.last(),
                            );
                        },
                    }
                },
                None => {},
            }
        },
        EventKind::AppFocus => {
            match focus_id(ev) {
                Some(id) => {
                    let closed = match b.current_frontmost {
                        Some((prev, from)) => close_app(b.apps, prev, Some(ev.timestamp)),
                        None => b.apps,
                    };
                    match b.current_frontmost {
                        Some((prev, from)) => {
                            close_keeps_distinct(b.apps, prev, Some(ev.timestamp));
                            open_keeps_distinct(closed, prev, from);
                        },
                        None => {},
                    }
                    let name = ev.payload.str_at("to_name"@);
                    let path = ev.payload.str_at("to_exec_path"@);
                    know_keeps_distinct(closed, id, name, path);
                    open_keeps_distinct(know_app(closed, id, name, path), id, ev.timestamp);
                },
                None => {},
            }
        },
        EventKind::ConnectionOpened | EventKind::ConnectionClosed => {
            match socket_of(ev) {
                Some(id) => {
                    first_where_is_first(b.sockets, is_socket(id));
                    match first_where(b.sockets, is_socket(id)) {
                        Some(i) => {
                            update_keeps_distinct(b.sockets, socket_key(), i, after.sockets[i]);
                        },
                        None => {
                            put_keeps_distinct(
                                b.sockets,
                                socket_key(),
                                is_socket(id),
                                after.sockets.last(),
                            );
                        },
                    }
                },
                None => {},
            }
        },
        EventKind::FileChanged => {
            match ev.payload.str_at("path"@) {
                Some(path) => {
                    first_where_is_first(b.files, is_file(path));
                    match first_where(b.files, is_file(path)) {
                        Some(i) => {
                            update_keeps_distinct(b.files, file_key(), i, after.files[i]);
                        },
                        None => {
                            put_keeps_distinct(
                                b.files,
                                file_key(),
                                is_file(path),
                                after.files.last(),
                            );
                        },
                    }
                },
                None => {},
            }
        },
        EventKind::ConnectionCompleted | EventKind::DnsQuery => {},
    }
}

/// Whatever events a builder was fed, every node is of another thing.
pub proof fn fed_nodes_are_distinct(evs: Seq<EventView>)
    ensures
        distinct_nodes(fed(evs)),
    decreases evs.len(),
{
    if evs.len() > 0 {
        fed_nodes_are_distinct(evs.drop_last());
        event_keeps_nodes_distinct(fed(evs.drop_last()), evs.last());
    }
}

// ---------- edges ------------------------------------------------------------------

/// Whether an edge is a given one.
pub open spec fn is_edge(e: EdgeView) -> spec_fn(EdgeView) -> bool {
    |x: EdgeView| x == e
}

/// What a measure of edges counts in a graph, by the three kinds of edges.
proof fn edges_count(b: BuilderView, q: spec_fn(EdgeView) -> bool)
    ensures
        count_where(b.graph().edges, q) == count_where(
            b.processes,
            keeps_where(parent_edge(b.processes), q),
        ) + count_where(focus_edges(b.final_apps(), b.processes), q) + count_where(
            b.sockets,
            keeps_where(opener_edge(b.processes), q),
        ),
{
    let ps = b.processes;
    let p = ps.filter_map(parent_edge(ps));
    let f = focus_edges(b.final_apps(), ps);
    let o = b.sockets.filter_map(opener_edge(ps));
    count_where_joins(p + f, o, q);
    count_where_joins(p, f, q);
    count_kept(ps, parent_edge(ps), q);
    count_kept(b.sockets, opener_edge(ps), q);
}

/// Where some edge counts, and only there, it stands in the graph.
proof fn counted_edge_is_there(edges: Seq<EdgeView>, e: EdgeView)
    ensures
        edges.contains(e) <==> count_where(edges, is_edge(e)) > 0,
{
    if count_where(edges, is_edge(e)) > 0 {
        counted_is_there(edges, is_edge(e));
    }
    if edges.contains(e) && count_where(edges, is_edge(e)) == 0 {
        let i = choose|i: int| 0 <= i < edges.len() && edges[i] == e;
        let (a, z) = (edges.take(i), edges.skip(i));
        assert(a + z =~= edges);
        count_where_joins(a, z, is_edge(e));
        let (one, rest) = (z.take(1), z.skip(1));
        assert(one + rest =~= z);
        count_where_joins(one, rest, is_edge(e));
        assert(one[0] == e);
        count_where_one(one, is_edge(e), 0);
    }
}

/// How often an application's intervals and the lifetimes of processes give an
/// edge that counts, for one interval.
pub open spec fn interval_told(
    app: Seq<char>,
    ps: Seq<ProcessNodeView>,
    q: spec_fn(EdgeView) -> bool,
) -> spec_fn(Interval) -> int {
    |i: Interval| count_where(ps, keeps_where(overlap_edge(app, i), q)) as int
}

/// How often an application's intervals and the lifetimes of processes give an
/// edge that counts.
pub open spec fn app_told(ps: Seq<ProcessNodeView>, q: spec_fn(EdgeView) -> bool) -> spec_fn(
    AppNodeView,
) -> int {
    |a: AppNodeView| sum_of(a.intervals, interval_told(a.id, ps, q))
}

proof fn app_edges_count(
    app: Seq<char>,
    intervals: Seq<Interval>,
    ps: Seq<ProcessNodeView>,
    q: spec_fn(EdgeView) -> bool,
)
    ensures
        count_where(app_edges(app, intervals, ps), q) == sum_of(
            intervals,
            interval_told(app, ps, q),
        ),
    decreases intervals.len(),
{
    if intervals.len() > 0 {
        let t = intervals.drop_last();
        let f = overlap_edge(app, intervals.last());
        app_edges_count(app, t, ps, q);
        count_where_joins(app_edges(app, t, ps), ps.filter_map(f), q);
        count_kept(ps, f, q);
    }
}

proof fn focus_edges_count(
    apps: Seq<AppNodeView>,
    ps: Seq<ProcessNodeView>,
    q: spec_fn(EdgeView) -> bool,
)
    ensures
        count_where(focus_edges(apps, ps), q) == sum_of(apps, app_told(ps, q)),
    decreases apps.len(),
{
    if apps.len() > 0 {
        let t = apps.drop_last();
        let a = apps.last();
        focus_edges_count(t, ps, q);
        app_edges_count(a.id, a.intervals, ps, q);
        count_where_joins(focus_edges(t, ps), app_edges(a.id, a.intervals, ps), q);
    }
}

/// What no edge from an application is counts nothing among them.
proof fn focus_edges_count_none(
    apps: Seq<AppNodeView>,
    ps: Seq<ProcessNodeView>,
    q: spec_fn(EdgeView) -> bool,
)
    requires
        forall|e: EdgeView| #[trigger] q(e) ==> !(e is FrontmostDuring),
    ensures
        count_where(focus_edges(apps, ps), q) == 0,
    decreases apps.len(),
{
    if apps.len() > 0 {
        let t = apps.drop_last();
        let a = apps.last();
        focus_edges_count_none(t, ps, q);
        count_where_joins(focus_edges(t, ps), app_edges(a.id, a.intervals, ps), q);
        app_edges_count_none(a.id, a.intervals, ps, q);
    }
}

proof fn app_edges_count_none(
    app: Seq<char>,
    intervals: Seq<Interval>,
    ps: Seq<ProcessNodeView>,
    q: spec_fn(EdgeView) -> bool,
)
    requires
        forall|e: EdgeView| #[trigger] q(e) ==> !(e is FrontmostDuring),
    ensures
        count_where(app_edges(app, intervals, ps), q) == 0,
    decreases intervals.len(),
{
    if intervals.len() > 0 {
        let t = intervals.drop_last();
        let f = overlap_edge(app, intervals.last());
        app_edges_count_none(app, t, ps, q);
        count_where_joins(app_edges(app, t, ps), ps.filter_map(f), q);
        count_kept(ps, f, q);
        count_where_none(ps, keeps_where(f, q));
    }
}

/// Whether two processes are among some, and the one names the raw id of the
/// other as its parent's.
pub open spec fn names_parent(
    ps: Seq<ProcessNodeView>,
    parent: ProcessId,
    child: ProcessId,
) -> bool {
    &&& parent != child
    &&& has_process(ps, parent)
    &&& exists|j: int|
        0 <= j < ps.len() && (#[trigger] ps[j]).id == child && ps[j].ppid == Some(parent.pid)
}

/// The last process with a raw id is the only one, where raw ids differ.
proof fn last_with_pid_is_only(ps: Seq<ProcessNodeView>, i: int)
    requires
        distinct_by(ps, process_pid()),
        0 <= i < ps.len(),
    ensures
        last_with_pid(ps, ps[i].id.pid) == Some(ps[i]),
    decreases ps.len(),
{
    let t = ps.drop_last();
    let n = ps.len() - 1;
    if i < n {
        assert(process_pid()(ps[i]) != process_pid()(ps[n]));
        assert forall|a: int, b: int| 0 <= a < b < t.len() implies process_pid()(#[trigger] t[a])
            != process_pid()(#[trigger] t[b]) by {
            assert(process_pid()(ps[a]) != process_pid()(ps[b]));
        }
        assert(t[i] == ps[i]);
        last_with_pid_is_only(t, i);
    }
}

/// Where no two processes share a raw id, there is an edge from a parent to a
/// child exactly if both are nodes, the child names the parent's raw id and
/// they are not the same. It is there once. A raw id of no node gives no edge.
pub proof fn parents_are_those_named(b: BuilderView, parent: ProcessId, child: ProcessId)
    requires
        distinct_by(b.processes, process_pid()),
    ensures
        b.graph().edges.contains(EdgeView::ParentOf { parent, child }) <==> names_parent(
            b.graph().processes,
            parent,
            child,
        ),
        count_where(b.graph().edges, is_edge(EdgeView::ParentOf { parent, child }))
            == if names_parent(b.graph().processes, parent, child) {
            1nat
        } else {
            0nat
        },
{
    let ps = b.processes;
    let e = EdgeView::ParentOf { parent, child };
    let q = is_edge(e);
    let f = parent_edge(ps);
    let k = keeps_where(f, q);
    counted_edge_is_there(b.graph().edges, e);
    edges_count(b, q);
    focus_edges_count_none(b.final_apps(), ps, q);
    count_where_none(b.sockets, keeps_where(opener_edge(ps), q));
    if names_parent(ps, parent, child) {
        let i = choose|i: int| 0 <= i < ps.len() && (#[trigger] ps[i]).id == parent;
        let j = choose|j: int|
            0 <= j < ps.len() && (#[trigger] ps[j]).id == child && ps[j].ppid == Some(parent.pid);
        last_with_pid_is_only(ps, i);
        assert(k(ps[j]));
        assert forall|m: int| 0 <= m < ps.len() && m != j implies !k(#[trigger] ps[m]) by {
            if m < j {
                assert(process_pid()(ps[m]) != process_pid()(ps[j]));
            } else {
                assert(process_pid()(ps[j]) != process_pid()(ps[m]));
            }
        }
        count_where_one(ps, k, j);
    } else {
        assert forall|m: int| 0 <= m < ps.len() implies !k(#[trigger] ps[m]) by {
            if k(ps[m]) {
                last_with_pid_is_there(ps, ps[m].ppid->0);
            }
        }
        count_where_none(ps, k);
    }
}

/// The earlier of two ends, where none means that there is no end.
pub open spec fn first_end(a: Option<Timestamp>, b: Option<Timestamp>) -> Option<Timestamp> {
    match (a, b) {
        (Some(x), Some(y)) => Some(
            if x.mono_ns <= y.mono_ns {
                x
            } else {
                y
            },
        ),
        (Some(x), None) => Some(x),
        (None, other) => other,
    }
}

/// Whether a time is before an end.
pub open spec fn is_before_end(t: Timestamp, end: Option<Timestamp>) -> bool {
    end matches Some(e) ==> t.mono_ns < e.mono_ns
}

/// Whether a time is not the last that the clock can tell.
pub open spec fn is_told(t: Option<Timestamp>) -> bool {
    t matches Some(x) ==> x.mono_ns < u64::MAX
}

/// An application's interval gives an edge to a process exactly if the interval
/// and the lifetime overlap, and its overlap is from the later beginning to the
/// earlier end. It has no end exactly if neither has one.
pub proof fn overlap_is_exact(app: Seq<char>, i: Interval, p: ProcessNodeView)
    requires
        is_told(Some(i.from)),
        is_told(Some(p.birth)),
        is_told(i.to),
        is_told(p.death),
    ensures
        overlap_edge(app, i)(p) == if is_before_end(
            later(i.from, p.birth),
            first_end(i.to, p.death),
        ) {
            Some(
                EdgeView::FrontmostDuring {
                    app,
                    process: p.id,
                    overlap: Interval {
                        from: later(i.from, p.birth),
                        to: first_end(i.to, p.death),
                    },
                },
            )
        } else {
            None
        },
{
}

/// An edge from an application to a process stands in the graph as often as an
/// interval of an application and the lifetime of a process give it, and there
/// is no other such edge.
pub proof fn overlaps_are_told(b: BuilderView, e: EdgeView)
    requires
        e is FrontmostDuring,
    ensures
        count_where(b.graph().edges, is_edge(e)) == sum_of(
            b.graph().apps,
            app_told(b.graph().processes, is_edge(e)),
        ),
        b.graph().edges.contains(e) <==> sum_of(
            b.graph().apps,
            app_told(b.graph().processes, is_edge(e)),
        ) > 0,
{
    let ps = b.processes;
    let q = is_edge(e);
    edges_count(b, q);
    counted_edge_is_there(b.graph().edges, e);
    focus_edges_count(b.final_apps(), ps, q);
    count_where_none(ps, keeps_where(parent_edge(ps), q));
    count_where_none(b.sockets, keeps_where(opener_edge(ps), q));
}

/// Whether an edge is to a connection.
pub open spec fn opens(id: SocketIdView) -> spec_fn(EdgeView) -> bool {
    |e: EdgeView|
        match e {
            EdgeView::OpenedSocket { process, socket } => socket == id,
            _ => false,
        }
}

/// Whether some process had the raw id that a connection was opened with, when
/// it was opened.
pub open spec fn some_lived_then(ps: Seq<ProcessNodeView>, s: SocketNodeView) -> bool {
    s.pid_at_open matches Some(pid) && exists|i: int|
        0 <= i < ps.len() && lived_at(#[trigger] ps[i], pid, s.opened)
}

/// Whether a process had the raw id that a connection was opened with, when it
/// was opened, and no process that did was born later.
pub open spec fn latest_then(ps: Seq<ProcessNodeView>, s: SocketNodeView, id: ProcessId) -> bool {
    s.pid_at_open matches Some(pid) && exists|k: int|
        0 <= k < ps.len() && (#[trigger] ps[k]).id == id && lived_at(ps[k], pid, s.opened)
            && forall|i: int|
            0 <= i < ps.len() && lived_at(#[trigger] ps[i], pid, s.opened)
                ==> ps[i].birth.mono_ns <= ps[k].birth.mono_ns
}

/// The opener of a connection is one of the processes.
proof fn opener_is_there(ps: Seq<ProcessNodeView>, pid: u32, opened: Timestamp)
    ensures
        opener(ps, pid, opened) matches Some(p) ==> ps.contains(p),
    decreases ps.len(),
{
    if ps.len() > 0 {
        let t = ps.drop_last();
        opener_is_there(t, pid, opened);
        match opener(ps, pid, opened) {
            Some(p) => {
                if p != ps.last() {
                    let i = choose|i: int| 0 <= i < t.len() && t[i] == p;
                    assert(ps[i] == p);
                } else {
                    assert(ps[ps.len() - 1] == p);
                }
            },
            None => {},
        }
    }
}

/// A connection has an edge from a process exactly if some process had the raw
/// id when it was opened. It has exactly one, from the process that was born
/// last of those.
pub proof fn connection_has_its_opener(b: BuilderView, n: int)
    requires
        distinct_nodes(b),
        0 <= n < b.sockets.len(),
    ensures
        count_where(b.graph().edges, opens(b.graph().sockets[n].id)) == if some_lived_then(
            b.graph().processes,
            b.graph().sockets[n],
        ) {
            1nat
        } else {
            0nat
        },
        forall|i: int|
            0 <= i < b.graph().edges.len() && opens(b.graph().sockets[n].id)(
                #[trigger] b.graph().edges[i],
            ) ==> latest_then(
                b.graph().processes,
                b.graph().sockets[n],
                b.graph().edges[i]->OpenedSocket_process,
            ),
{
    let ps = b.processes;
    let s = b.sockets[n];
    let q = opens(s.id);
    let f = opener_edge(ps);
    let k = keeps_where(f, q);
    edges_count(b, q);
    focus_edges_count_none(b.final_apps(), ps, q);
    count_where_none(ps, keeps_where(parent_edge(ps), q));
    assert forall|m: int| 0 <= m < b.sockets.len() && m != n implies !k(
        #[trigger] b.sockets[m],
    ) by {
        if m < n {
            assert(socket_key()(b.sockets[m]) != socket_key()(b.sockets[n]));
        } else {
            assert(socket_key()(b.sockets[n]) != socket_key()(b.sockets[m]));
        }
    }
    match s.pid_at_open {
        Some(pid) => {
            opener_lived_then(ps, pid, s.opened);
            opener_is_there(ps, pid, s.opened);
            match opener(ps, pid, s.opened) {
                Some(p) => {
                    let i = choose|i: int| 0 <= i < ps.len() && ps[i] == p;
                    assert(lived_at(ps[i], pid, s.opened));
                    assert(k(b.sockets[n]));
                    count_where_one(b.sockets, k, n);
                    assert(latest_then(ps, s, p.id)) by {
                        assert(ps[i].id == p.id);
                    }
                },
                None => {
                    count_where_none(b.sockets, k);
                },
            }
        },
        None => {
            count_where_none(b.sockets, k);
        },
    }
    let edges = b.graph().edges;
    let parents = ps.filter_map(parent_edge(ps));
    let focus = focus_edges(b.final_apps(), ps);
    let opened = b.sockets.filter_map(f);
    assert forall|i: int| 0 <= i < edges.len() && q(#[trigger] edges[i]) implies latest_then(
        ps,
        s,
        edges[i]->OpenedSocket_process,
    ) by {
        if i < parents.len() {
            assert(edges[i] == parents[i]);
            filter_map_from(ps, parent_edge(ps), i);
        } else if i < parents.len() + focus.len() {
            let j = i - parents.len();
            assert(edges[i] == focus[j]);
            crate::graph_builder::built_edges_have_both_ends(b, i);
            let (x, z) = (focus.take(j), focus.skip(j));
            assert(x + z =~= focus);
            count_where_joins(x, z, q);
            let (one, rest) = (z.take(1), z.skip(1));
            assert(one + rest =~= z);
            count_where_joins(one, rest, q);
            assert(one[0] == focus[j]);
            count_where_one(one, q, 0);
            assert(false);
        } else {
            let j = i - parents.len() - focus.len();
            assert(edges[i] == opened[j]);
            filter_map_from(b.sockets, f, j);
            let m = choose|m: int|
                0 <= m < b.sockets.len() && f(#[trigger] b.sockets[m]) == Some(opened[j]);
            assert(k(b.sockets[m]));
            assert(m == n);
        }
    }
}

// ---------- files ------------------------------------------------------------------

/// Whether an event is a change of a path.
pub open spec fn touches(path: Seq<char>, ev: EventView) -> bool {
    ev.kind == EventKind::FileChanged && ev.payload.str_at("path"@) == Some(path)
}

/// How often an event says that a path was touched.
pub open spec fn touches_of(path: Seq<char>) -> spec_fn(EventView) -> int {
    |ev: EventView|
        if touches(path, ev) {
            count_of(ev) as int
        } else {
            0
        }
}

/// The flags that an event tells of a path.
pub open spec fn flags_of(path: Seq<char>) -> spec_fn(EventView) -> Seq<Seq<char>> {
    |ev: EventView|
        if touches(path, ev) {
            texts_at(ev.payload, "flags"@)
        } else {
            Seq::empty()
        }
}

/// Whether an event is the first change of a path.
pub open spec fn is_first_touch(evs: Seq<EventView>, path: Seq<char>, k: int) -> bool {
    &&& 0 <= k < evs.len()
    &&& touches(path, evs[k])
    &&& forall|j: int| 0 <= j < k ==> !touches(path, #[trigger] evs[j])
}

/// Whether an event is the last change of a path.
pub open spec fn is_last_touch(evs: Seq<EventView>, path: Seq<char>, k: int) -> bool {
    &&& 0 <= k < evs.len()
    &&& touches(path, evs[k])
    &&& forall|j: int| k < j < evs.len() ==> !touches(path, #[trigger] evs[j])
}

/// Texts that join others one by one stand in the order of their first
/// appearance.
proof fn union_is_uniques(a: Seq<Seq<char>>, b: Seq<Seq<char>>)
    ensures
        union_texts(uniques(a), b) == uniques(a + b),
    decreases b.len(),
{
    if b.len() == 0 {
        assert(a + b =~= a);
    } else {
        union_is_uniques(a, b.drop_last());
        assert((a + b).drop_last() =~= a + b.drop_last());
    }
}

/// What holds of the node of a path after some events that changed it.
pub open spec fn tells_changes(f: FileNodeView, evs: Seq<EventView>, path: Seq<char>) -> bool {
    &&& f.path == path
    &&& f.touch_count == sum_of(evs, touches_of(path)) % 0x1_0000_0000_0000_0000
    &&& f.flags == uniques(chain(evs, flags_of(path)))
    &&& exists|k: int| #[trigger] is_first_touch(evs, path, k) && f.first_seen == evs[k].timestamp
    &&& exists|k: int| #[trigger] is_last_touch(evs, path, k) && f.last_seen == evs[k].timestamp
}

/// The node of a path tells the same after an event that did not change it.
proof fn other_event_changes_nothing(f: FileNodeView, evs: Seq<EventView>, path: Seq<char>)
    requires
        evs.len() > 0,
        !touches(path, evs.last()),
        tells_changes(f, evs.drop_last(), path),
    ensures
        tells_changes(f, evs, path),
{
    let t = evs.drop_last();
    let n = evs.len() - 1;
    assert forall|j: int| 0 <= j < n implies #[trigger] evs[j] == t[j] by {}
    let a = choose|k: int| #[trigger] is_first_touch(t, path, k) && f.first_seen == t[k].timestamp;
    let b = choose|k: int| #[trigger] is_last_touch(t, path, k) && f.last_seen == t[k].timestamp;
    assert forall|j: int| 0 <= j < a implies !touches(path, #[trigger] evs[j]) by {
        assert(!touches(path, t[j]));
    }
    assert forall|j: int| b < j < evs.len() implies !touches(path, #[trigger] evs[j]) by {
        if j < n {
            assert(!touches(path, t[j]));
        }
    }
    assert(is_first_touch(evs, path, a));
    assert(is_last_touch(evs, path, b));
    assert(chain(evs, flags_of(path)) =~= chain(t, flags_of(path)));
}

/// After any events there is a node of a path exactly if one of them was a
/// change of it, and then it is the only one. Its touches are those of all its
/// changes together, as far as the counter reaches. Its flags are theirs, each
/// once, in the order of their first appearance. It was first seen with the
/// first of them, and last seen with the last.
pub proof fn changes_add_up(evs: Seq<EventView>, path: Seq<char>)
    ensures
        match first_where(fed(evs).files, is_file(path)) {
            Some(i) => tells_changes(fed(evs).files[i], evs, path) && count_where(
                fed(evs).files,
                is_file(path),
            ) == 1,
            None => {
                &&& forall|k: int| 0 <= k < evs.len() ==> !touches(path, #[trigger] evs[k])
                &&& sum_of(evs, touches_of(path)) == 0
                &&& chain(evs, flags_of(path)).len() == 0
            },
        },
    decreases evs.len(),
{
    let p = is_file(path);
    let after = fed(evs).files;
    first_where_is_first(after, p);
    fed_nodes_are_distinct(evs);
    match first_where(after, p) {
        Some(i) => {
            assert forall|j: int| 0 <= j < after.len() && j != i implies !p(#[trigger] after[j]) by {
                if j < i {
                    assert(file_key()(after[j]) != file_key()(after[i]));
                } else {
                    assert(file_key()(after[i]) != file_key()(after[j]));
                }
            }
            count_where_one(after, p, i);
        },
        None => {},
    }
    if evs.len() > 0 {
        let t = evs.drop_last();
        let n = evs.len() - 1;
        let ev = evs.last();
        let before = fed(t).files;
        changes_add_up(t, path);
        first_where_is_first(before, p);
        assert forall|k: int| 0 <= k < n implies #[trigger] evs[k] == t[k] by {}
        assert(evs[n] == ev);
        let flags = texts_at(ev.payload, "flags"@);
        let told = chain(t, flags_of(path));
        if touches(path, ev) {
            let x = match first_where(before, p) {
                Some(i) => after[i],
                None => after.last(),
            };
            assert(after == put(before, p, x));
            put_reads_back(before, p, |f: FileNodeView| false, x);
            assert(is_last_touch(evs, path, n));
            assert(chain(evs, flags_of(path)) == told + flags);
            union_is_uniques(told, flags);
            let s = sum_of(t, touches_of(path));
            let c = count_of(ev) as int;
            match first_where(before, p) {
                Some(i) => {
                    let old = before[i];
                    assert(tells_changes(old, t, path));
                    let k = choose|k: int| #[trigger]
                        is_first_touch(t, path, k) && old.first_seen == t[k].timestamp;
                    assert forall|j: int| 0 <= j < k implies !touches(path, #[trigger] evs[j]) by {
                        assert(!touches(path, t[j]));
                    }
                    assert(is_first_touch(evs, path, k));
                    assert(x.touch_count == wrapping_sum(old.touch_count, count_of(ev)));
                    vstd::arithmetic::div_mod::lemma_add_mod_noop(s, c, 0x1_0000_0000_0000_0000);
                },
                None => {
                    assert(told =~= Seq::<Seq<char>>::empty());
                    assert(uniques(told) =~= Seq::<Seq<char>>::empty());
                    assert forall|j: int| 0 <= j < n implies !touches(path, #[trigger] evs[j]) by {
                        assert(!touches(path, t[j]));
                    }
                    assert(is_first_touch(evs, path, n));
                },
            }
            assert(tells_changes(x, evs, path));
        } else {
            match ev.payload.str_at("path"@) {
                Some(other) if ev.kind == EventKind::FileChanged => {
                    let q = is_file(other);
                    let x = match first_where(before, q) {
                        Some(i) => after[i],
                        None => after.last(),
                    };
                    first_where_is_first(before, q);
                    assert(after == put(before, q, x));
                    put_reads_back(before, q, p, x);
                },
                _ => {
                    assert(after == before);
                },
            }
            match first_where(after, p) {
                Some(i) => {
                    other_event_changes_nothing(after[i], evs, path);
                },
                None => {
                    assert forall|k: int| 0 <= k < evs.len() implies !touches(
                        path,
                        #[trigger] evs[k],
                    ) by {
                        if k < n {
                            assert(!touches(path, t[k]));
                        }
                    }
                    assert(chain(evs, flags_of(path)) =~= told);
                },
            }
        }
    }
}

} // verus!
