//! What holds of the stretches of focus that the store tells.

use vstd::prelude::*;

use crate::graph::{EdgeView, Interval, ProcessId};
use crate::json::JsonView;
use crate::observation::Timestamp;
use crate::order::{ascending, sort_by_key, sort_by_key_sorts};
use crate::seqs::{distinct_by, filter_map_from, filter_map_keeps, first_where, first_where_is_first};
use crate::store::{process_id_round_trip, EdgeKind, EdgeRowView, NodeKind, NodeRowView};
use crate::store_history::{by_start, focus_of, focus_segments, FocusSegmentView};
use crate::store_laws::{entry_is, interval_keys_differ};
use crate::store_merge::{edge_row, is_node, node_key};

verus! {

/// Whether a sorted list has exactly what a function keeps of some rows.
pub proof fn sorted_list_is_complete<A, B>(
    s: Seq<A>,
    f: spec_fn(A) -> Option<B>,
    key: spec_fn(B) -> int,
    b: B,
)
    ensures
        ascending(sort_by_key(s.filter_map(f), key), key),
        sort_by_key(s.filter_map(f), key).len() == s.filter_map(f).len(),
        sort_by_key(s.filter_map(f), key).contains(b) <==> exists|i: int|
            0 <= i < s.len() && f(#[trigger] s[i]) == Some(b),
{
    broadcast use vstd::seq_lib::group_to_multiset_ensures;

    let kept = s.filter_map(f);
    let sorted = sort_by_key(kept, key);
    sort_by_key_sorts(kept, key);
    assert(sorted.contains(b) <==> sorted.to_multiset().count(b) > 0);
    assert(kept.contains(b) <==> kept.to_multiset().count(b) > 0);
    if kept.contains(b) {
        let k = choose|k: int| 0 <= k < kept.len() && kept[k] == b;
        filter_map_from(s, f, k);
    }
    if exists|i: int| 0 <= i < s.len() && f(#[trigger] s[i]) == Some(b) {
        let i = choose|i: int| 0 <= i < s.len() && f(#[trigger] s[i]) == Some(b);
        filter_map_keeps(s, f, i);
    }
}

/// A time in unix nanoseconds: the anchor and what passed since, or what passed
/// alone without an anchor.
pub open spec fn instant(t: Timestamp) -> int {
    t.wall_anchor_ns + t.mono_ns
}

/// Whether a time is one that the tables can hold.
pub open spec fn is_storable(t: Timestamp) -> bool {
    t.wall_anchor_ns <= i64::MAX && t.mono_ns <= i64::MAX && instant(t) <= i64::MAX
}

/// Whether an instant is in an interval, its ends included.
pub open spec fn is_within(i: Interval, t: int) -> bool {
    instant(i.from) <= t && (i.to matches Some(end) ==> t <= instant(end))
}

proof fn time_keys_differ()
    ensures
        "mono_ns"@ != "wall_anchor_ns"@,
{
    reveal_strlit("mono_ns");
    reveal_strlit("wall_anchor_ns");
    assert("mono_ns"@.len() == 7);
    assert("wall_anchor_ns"@.len() == 14);
}

proof fn overlap_is_read(nodes: Seq<NodeRowView>, app: Seq<char>, process: ProcessId, i: Interval)
    ensures
        ({
            let attrs = edge_row(
                nodes,
                EdgeView::FrontmostDuring { app, process, overlap: i },
            ).attrs;
            &&& attrs.get("overlap"@) matches Some(j) && {
                &&& j.get("from"@) matches Some(t) && t.get("mono_ns"@) == Some(
                    JsonView::Int(i.from.mono_ns as int),
                ) && t.get("wall_anchor_ns"@) == Some(JsonView::Int(i.from.wall_anchor_ns as int))
                &&& j.get("to"@) matches Some(t) && match i.to {
                    Some(end) => t.get("mono_ns"@) == Some(JsonView::Int(end.mono_ns as int))
                        && t.get("wall_anchor_ns"@) == Some(
                        JsonView::Int(end.wall_anchor_ns as int),
                    ),
                    None => t.get("mono_ns"@) is None && t.get("wall_anchor_ns"@) is None,
                }
            }
        }),
{
    interval_keys_differ();
    time_keys_differ();
    let attrs = edge_row(nodes, EdgeView::FrontmostDuring { app, process, overlap: i }).attrs;
    entry_is(attrs->Object_0, "overlap"@, 0);
    let f = attrs->Object_0[0].1->Object_0;
    entry_is(f, "from"@, 0);
    entry_is(f, "to"@, 1);
    let a = f[0].1->Object_0;
    entry_is(a, "mono_ns"@, 0);
    entry_is(a, "wall_anchor_ns"@, 1);
    if i.to is Some {
        let b = f[1].1->Object_0;
        entry_is(b, "mono_ns"@, 0);
        entry_is(b, "wall_anchor_ns"@, 1);
    }
}

/// A stretch in which a process was in front is listed for a window exactly if
/// some instant is in both, and what is listed is what they have in common: the
/// instants from its start to its end are those of the stretch that lie in the
/// window. So a stretch inside the window is listed as it is, and one that has
/// no end lasts to the window's. The seconds are the whole ones between the
/// start and the end.
pub proof fn listed_focus_is_what_both_have(
    nodes: Seq<NodeRowView>,
    from: i64,
    to: i64,
    app: Seq<char>,
    process: ProcessId,
    i: Interval,
    row: EdgeRowView,
)
    requires
        from <= to,
        is_storable(i.from),
        i.to matches Some(end) ==> is_storable(end) && instant(i.from) <= instant(end),
        row.kind == EdgeKind::FrontmostDuring,
        row.from_id == app,
        row.to_id == edge_row(
            nodes,
            EdgeView::FrontmostDuring { app, process, overlap: i },
        ).to_id,
        row.attrs == edge_row(
            nodes,
            EdgeView::FrontmostDuring { app, process, overlap: i },
        ).attrs,
    ensures
        match focus_of(nodes, from, to)(row) {
            Some(s) => {
                &&& s.app_id == app
                &&& s.process_pid == process.pid
                &&& s.from_unix_ns <= s.to_unix_ns
                &&& forall|t: int|
                    s.from_unix_ns <= t <= s.to_unix_ns <==> from <= t <= to && #[trigger]
                        is_within(i, t)
                &&& s.duration_secs * 1_000_000_000 <= s.to_unix_ns - s.from_unix_ns < (
                s.duration_secs + 1) * 1_000_000_000
            },
            None => forall|t: int| from <= t <= to ==> !#[trigger] is_within(i, t),
        },
{
    overlap_is_read(nodes, app, process, i);
    process_id_round_trip(process);
    match focus_of(nodes, from, to)(row) {
        Some(s) => {
            let start = instant(i.from);
            assert(s.from_unix_ns == if start >= from {
                start
            } else {
                from as int
            });
            assert(s.to_unix_ns == match i.to {
                Some(end) => if instant(end) <= to {
                    instant(end)
                } else {
                    to as int
                },
                None => to as int,
            });
        },
        None => {},
    }
}

/// A listed stretch goes by the application's name, where its node has one, and
/// else by its id.
pub proof fn listed_focus_is_named(
    nodes: Seq<NodeRowView>,
    from: i64,
    to: i64,
    row: EdgeRowView,
    n: int,
)
    requires
        focus_of(nodes, from, to)(row) is Some,
        distinct_by(nodes, node_key()),
    ensures
        0 <= n < nodes.len() && nodes[n].kind == NodeKind::App && nodes[n].id == row.from_id
            ==> focus_of(nodes, from, to)(row)->0.app_name == match nodes[n].attrs.str_at("name"@) {
            Some(name) => name,
            None => row.from_id,
        },
        (forall|k: int|
            0 <= k < nodes.len() ==> (#[trigger] nodes[k]).kind != NodeKind::App || nodes[k].id
                != row.from_id) ==> focus_of(nodes, from, to)(row)->0.app_name == row.from_id,
        row.kind == EdgeKind::FrontmostDuring,
{
    let p = is_node(NodeKind::App, row.from_id);
    first_where_is_first(nodes, p);
    match first_where(nodes, p) {
        Some(k) => {
            if 0 <= n < nodes.len() && p(nodes[n]) && k != n {
                if k < n {
                    assert(node_key()(nodes[k]) != node_key()(nodes[n]));
                } else {
                    assert(node_key()(nodes[n]) != node_key()(nodes[k]));
                }
            }
        },
        None => {
            if 0 <= n < nodes.len() {
                assert(!p(nodes[n]));
            }
        },
    }
}

/// The stretches that are listed are those of the edges, and they stand in the
/// order of their starts.
pub proof fn focus_list_is_complete(
    nodes: Seq<NodeRowView>,
    edges: Seq<EdgeRowView>,
    from: i64,
    to: i64,
    s: FocusSegmentView,
    i: int,
    j: int,
)
    ensures
        ({
            let listed = focus_segments(nodes, edges, from, to);
            &&& listed.contains(s) <==> exists|k: int|
                0 <= k < edges.len() && focus_of(nodes, from, to)(#[trigger] edges[k]) == Some(s)
            &&& 0 <= i < j < listed.len() ==> listed[i].from_unix_ns <= listed[j].from_unix_ns
        }),
{
    sorted_list_is_complete(edges, focus_of(nodes, from, to), by_start(), s);
    let listed = focus_segments(nodes, edges, from, to);
    if 0 <= i < j < listed.len() {
        assert(by_start()(listed[i]) <= by_start()(listed[j]));
    }
}

} // verus!
