//! The candidates of a graph and of the store that it was merged into.

use vstd::prelude::*;

use crate::graph::{EdgeView, GraphView, ProcessId, ProcessNodeView};
use crate::order::{sort_by_key, sort_by_key_sorts};
use crate::process_anomaly::{
    children_of, from_parent, from_user, has_identity, is_escalated, is_of_user, is_untrusted,
    pick_if, picked, picked_parent, picks_of, prolific_parents, roots_under_users, store_picks, untrusted, CandidateReason,
};
use crate::seqs::{
    chain, count_where, count_where_step, distinct_by, filter_map_from, filter_map_is_no_longer, filter_map_keeps, filter_map_start,
    filter_map_step, first_where, first_where_is_first, take_all, uniques, uniques_are_distinct,
};
use crate::store::{process_id_round_trip, process_id_text, EdgeKind, NodeKind};
use crate::store_admin::new_store;
use crate::store_laws::{
    entry_is, new_edges_stand, new_rows_stand, process_keys_differ, process_row_reads_back,
};
use crate::store_lineage::{by_children, live_parent, prolific, same_text};
use crate::store_merge::{
    edge_key, edge_row, edge_rows, is_node, merged, node_at, node_key, node_rows,
};
use crate::store_query::{escalated, int_at, outside};
use crate::store_rows::{process_attrs, process_of_row, process_row};
use crate::tally::wrapped32;

verus! {

/// Whether picks have a process picked for a reason.
pub open spec fn has_pick(
    picks: Seq<(ProcessNodeView, CandidateReason)>,
    id: ProcessId,
    reason: CandidateReason,
) -> bool {
    exists|i: int| 0 <= i < picks.len() && (#[trigger] picks[i]).0.id == id && picks[i].1 == reason
}

/// Whether a graph has a process.
pub open spec fn has_process(g: GraphView, k: int) -> bool {
    0 <= k < g.processes.len()
}

/// Whether a graph can be stored as it is: each node and each edge once, few
/// enough to count, and no process last seen before the epoch.
pub open spec fn storable(g: GraphView) -> bool {
    &&& distinct_by(node_rows(g), node_key())
    &&& distinct_by(edge_rows(node_rows(g), g), edge_key())
    &&& g.edges.len() <= u32::MAX
    &&& forall|k: int| has_process(g, k) ==> process_row(#[trigger] g.processes[k]).last_seen >= 0
}

/// The row of a process is the one under its id.
proof fn row_of_process(g: GraphView, k: int)
    requires
        storable(g),
        has_process(g, k),
    ensures
        node_at(node_rows(g), NodeKind::Process, process_id_text(g.processes[k].id)) == Some(
            process_row(g.processes[k]),
        ),
{
    let rows = node_rows(g);
    let key = node_key();
    let id = process_id_text(g.processes[k].id);
    let p = is_node(NodeKind::Process, id);
    assert(rows[k] == process_row(g.processes[k]));
    assert(p(rows[k]));
    first_where_is_first(rows, p);
    let f = first_where(rows, p)->0;
    if f < k {
        assert(key(rows[f]) != key(rows[k]));
    }
    if k < f {
        assert(!p(rows[k]));
    }
}

/// Different processes have different ids as text.
proof fn id_texts_differ(a: ProcessId, b: ProcessId)
    ensures
        process_id_text(a) == process_id_text(b) ==> a == b,
{
    process_id_round_trip(a);
    process_id_round_trip(b);
}

/// The user of a process in its row.
proof fn uid_in_row(p: ProcessNodeView)
    ensures
        int_at(process_row(p).attrs, "uid"@) == match p.uid {
            Some(u) => Some(u as int),
            None => None,
        },
{
    process_keys_differ();
    entry_is(process_attrs(p)->Object_0, "uid"@, 4);
}

/// The table has the row of a process exactly if the graph has the process.
proof fn row_is_known(g: GraphView, id: ProcessId)
    requires
        storable(g),
    ensures
        node_at(node_rows(g), NodeKind::Process, process_id_text(id)) is Some <==> has_identity(
            g,
            id,
        ),
{
    let rows = node_rows(g);
    let p = is_node(NodeKind::Process, process_id_text(id));
    first_where_is_first(rows, p);
    match first_where(rows, p) {
        Some(f) => {
            assert(f < g.processes.len());
            assert(rows[f] == process_row(g.processes[f]));
            id_texts_differ(g.processes[f].id, id);
        },
        None => {
            if has_identity(g, id) {
                let k = choose|k: int|
                    0 <= k < g.processes.len() && (#[trigger] g.processes[k]).id == id;
                row_of_process(g, k);
            }
        },
    }
}
/// What a chain holds comes from one of its elements, and the other way round.
pub(crate) proof fn chain_holds<A, B>(s: Seq<A>, f: spec_fn(A) -> Seq<B>, x: B)
    ensures
        chain(s, f).contains(x) <==> exists|i: int| 0 <= i < s.len() && f(#[trigger] s[i]).contains(x),
    decreases s.len(),
{
    if s.len() > 0 {
        let t = s.drop_last();
        chain_holds(t, f, x);
        let c = chain(t, f);
        let l = f(s.last());
        if (c + l).contains(x) {
            let k = choose|k: int| 0 <= k < (c + l).len() && (c + l)[k] == x;
            if k < c.len() {
                assert(c[k] == x);
                let i = choose|i: int| 0 <= i < t.len() && f(#[trigger] t[i]).contains(x);
                assert(s[i] == t[i]);
            } else {
                assert(l[k - c.len()] == x);
                assert(f(s[s.len() - 1]).contains(x));
            }
        }
        if exists|i: int| 0 <= i < s.len() && f(#[trigger] s[i]).contains(x) {
            let i = choose|i: int| 0 <= i < s.len() && f(#[trigger] s[i]).contains(x);
            if i < t.len() {
                assert(t[i] == s[i]);
                let k = choose|k: int| 0 <= k < c.len() && c[k] == x;
                assert((c + l)[k] == x);
            } else {
                let k = choose|k: int| 0 <= k < l.len() && l[k] == x;
                assert((c + l)[c.len() + k] == x);
            }
        }
    }
}

/// What a graph picks is picked for one of the three reasons.
proof fn graph_pick(
    g: GraphView,
    trusted: Seq<Seq<char>>,
    threshold: u32,
    id: ProcessId,
    reason: CandidateReason,
)
    ensures
        has_pick(chain(g.processes, picks_of(g, trusted, threshold)), id, reason) <==> exists|k: int|
            has_process(g, k) && (#[trigger] g.processes[k]).id == id && picks_of(
                g,
                trusted,
                threshold,
            )(g.processes[k]).contains((g.processes[k], reason)),
{
    let f = picks_of(g, trusted, threshold);
    let c = chain(g.processes, f);
    if has_pick(c, id, reason) {
        let i = choose|i: int|
            0 <= i < c.len() && (#[trigger] c[i]).0.id == id && c[i].1 == reason;
        chain_holds(g.processes, f, c[i]);
        assert(c.contains(c[i]));
        let k = choose|k: int|
            0 <= k < g.processes.len() && f(#[trigger] g.processes[k]).contains(c[i]);
        let p = g.processes[k];
        assert(c[i].0 == p);
        assert(f(p).contains((p, reason)));
        assert(has_process(g, k));
    }
    if exists|k: int|
        has_process(g, k) && (#[trigger] g.processes[k]).id == id && f(g.processes[k]).contains(
            (g.processes[k], reason),
        ) {
        let k = choose|k: int|
            has_process(g, k) && (#[trigger] g.processes[k]).id == id && f(
                g.processes[k],
            ).contains((g.processes[k], reason));
        let x = (g.processes[k], reason);
        chain_holds(g.processes, f, x);
        assert(f(g.processes[k]).contains(x));
        let i = choose|i: int| 0 <= i < c.len() && c[i] == x;
        assert(c[i].0.id == id);
    }
}

/// What a process is picked for.
proof fn process_pick(
    g: GraphView,
    trusted: Seq<Seq<char>>,
    threshold: u32,
    p: ProcessNodeView,
    reason: CandidateReason,
)
    ensures
        picks_of(g, trusted, threshold)(p).contains((p, reason)) == match reason {
            CandidateReason::RootUnderUserParent => is_escalated(g, p),
            CandidateReason::PathOutsideTrusted => is_untrusted(p, trusted),
            CandidateReason::ProlificParent(n) => {
                let c = children_of(g, p.id);
                c > 0 && n == wrapped32(c as int) && n >= threshold
            },
        },
{
    let c = children_of(g, p.id);
    let n = wrapped32(c as int);
    let a = pick_if(is_escalated(g, p), p, CandidateReason::RootUnderUserParent);
    let b = pick_if(is_untrusted(p, trusted), p, CandidateReason::PathOutsideTrusted);
    let d = pick_if(c > 0 && n >= threshold, p, CandidateReason::ProlificParent(n));
    let all = a + b + d;
    assert(all == picks_of(g, trusted, threshold)(p));
    if is_escalated(g, p) {
        assert(all[0] == (p, CandidateReason::RootUnderUserParent));
    }
    if is_untrusted(p, trusted) {
        assert(all[a.len() as int] == (p, CandidateReason::PathOutsideTrusted));
    }
    if c > 0 && n >= threshold {
        assert(all[a.len() + b.len() as int] == (p, CandidateReason::ProlificParent(n)));
    }
}

/// An edge from a parent stands in the table under the ids of both ends.
proof fn parent_edge_row(g: GraphView, i: int)
    requires
        storable(g),
        0 <= i < g.edges.len(),
    ensures
        edge_rows(node_rows(g), g)[i].kind == EdgeKind::ParentOf <==> g.edges[i] is ParentOf,
        g.edges[i] matches EdgeView::ParentOf { parent, child } ==> {
            let e = edge_rows(node_rows(g), g)[i];
            e.from_id == process_id_text(parent) && e.to_id == process_id_text(child)
        },
{
    let e = edge_rows(node_rows(g), g)[i];
    assert(e == edge_row(node_rows(g), g.edges[i]));
}

/// The roots that the store finds are those of the graph.
proof fn same_roots(g: GraphView, id: ProcessId)
    requires
        storable(g),
    ensures
        ({
            let s = merged(new_store(), g);
            has_pick(
                roots_under_users(s, 0).map_values(picked(CandidateReason::RootUnderUserParent)),
                id,
                CandidateReason::RootUnderUserParent,
            ) <==> exists|k: int|
                has_process(g, k) && (#[trigger] g.processes[k]).id == id && is_escalated(
                    g,
                    g.processes[k],
                )
        }),
{
    let rows = node_rows(g);
    let es = edge_rows(rows, g);
    let s = merged(new_store(), g);
    new_rows_stand(rows);
    new_edges_stand(es);
    assert(s.nodes == rows && s.edges == es);
    let f = escalated(rows, 0);
    let found = es.filter_map(f);
    let picks = found.map_values(picked(CandidateReason::RootUnderUserParent));
    if has_pick(picks, id, CandidateReason::RootUnderUserParent) {
        let q = choose|q: int|
            0 <= q < picks.len() && (#[trigger] picks[q]).0.id == id && picks[q].1
                == CandidateReason::RootUnderUserParent;
        filter_map_from(es, f, q);
        let i = choose|i: int| 0 <= i < es.len() && f(#[trigger] es[i]) == Some(found[q]);
        parent_edge_row(g, i);
        let (parent, child) = (g.edges[i]->ParentOf_parent, g.edges[i]->ParentOf_child);
        row_is_known(g, parent);
        row_is_known(g, child);
        let a = choose|a: int| 0 <= a < g.processes.len() && (#[trigger] g.processes[a]).id == parent;
        let b = choose|b: int| 0 <= b < g.processes.len() && (#[trigger] g.processes[b]).id == child;
        row_of_process(g, a);
        row_of_process(g, b);
        uid_in_row(g.processes[a]);
        uid_in_row(g.processes[b]);
        process_row_reads_back(g.processes[b]);
        assert(is_of_user(g, parent));
        assert(from_user(g, child)(g.edges[i]));
        assert(is_escalated(g, g.processes[b]));
        assert(has_process(g, b) && g.processes[b].id == id);
    }
    if exists|k: int|
        has_process(g, k) && (#[trigger] g.processes[k]).id == id && is_escalated(
            g,
            g.processes[k],
        ) {
        let b = choose|k: int|
            has_process(g, k) && (#[trigger] g.processes[k]).id == id && is_escalated(
                g,
                g.processes[k],
            );
        let p = g.processes[b];
        let i = choose|i: int|
            0 <= i < g.edges.len() && from_user(g, p.id)(#[trigger] g.edges[i]);
        let parent = g.edges[i]->ParentOf_parent;
        let a = choose|k: int|
            0 <= k < g.processes.len() && (#[trigger] g.processes[k]).id == parent
                && g.processes[k].uid is Some && g.processes[k].uid->0 > 0;
        assert(has_process(g, a));
        parent_edge_row(g, i);
        row_of_process(g, a);
        row_of_process(g, b);
        uid_in_row(g.processes[a]);
        uid_in_row(g.processes[b]);
        process_row_reads_back(p);
        assert(process_row(g.processes[b]).last_seen >= 0);
        assert(f(es[i]) == Some(process_of_row(process_row(p))));
        filter_map_keeps(es, f, i);
        let q = choose|q: int| 0 <= q < found.len() && found[q] == process_of_row(process_row(p));
        assert(picks[q].0.id == id);
    }
}

/// The programs from outside the trusted paths that the store finds are those
/// of the graph.
proof fn same_untrusted(g: GraphView, trusted: Seq<Seq<char>>, id: ProcessId)
    requires
        storable(g),
    ensures
        ({
            let s = merged(new_store(), g);
            has_pick(
                untrusted(s, trusted, 0).map_values(picked(CandidateReason::PathOutsideTrusted)),
                id,
                CandidateReason::PathOutsideTrusted,
            ) <==> exists|k: int|
                has_process(g, k) && (#[trigger] g.processes[k]).id == id && is_untrusted(
                    g.processes[k],
                    trusted,
                )
        }),
{
    let rows = node_rows(g);
    let s = merged(new_store(), g);
    new_rows_stand(rows);
    assert(s.nodes == rows);
    let f = outside(trusted, 0);
    let found = rows.filter_map(f);
    let picks = found.map_values(picked(CandidateReason::PathOutsideTrusted));
    if has_pick(picks, id, CandidateReason::PathOutsideTrusted) {
        let q = choose|q: int|
            0 <= q < picks.len() && (#[trigger] picks[q]).0.id == id && picks[q].1
                == CandidateReason::PathOutsideTrusted;
        filter_map_from(rows, f, q);
        let k = choose|k: int| 0 <= k < rows.len() && f(#[trigger] rows[k]) == Some(found[q]);
        assert(k < g.processes.len());
        assert(has_process(g, k));
        assert(rows[k] == process_row(g.processes[k]));
        process_row_reads_back(g.processes[k]);
        assert(is_untrusted(g.processes[k], trusted));
        assert(g.processes[k].id == id);
    }
    if exists|k: int|
        has_process(g, k) && (#[trigger] g.processes[k]).id == id && is_untrusted(
            g.processes[k],
            trusted,
        ) {
        let k = choose|k: int|
            has_process(g, k) && (#[trigger] g.processes[k]).id == id && is_untrusted(
                g.processes[k],
                trusted,
            );
        let p = g.processes[k];
        assert(rows[k] == process_row(p));
        process_row_reads_back(p);
        assert(process_row(g.processes[k]).last_seen >= 0);
        assert(f(rows[k]) == Some(process_of_row(process_row(p))));
        filter_map_keeps(rows, f, k);
        let q = choose|q: int| 0 <= q < found.len() && found[q] == process_of_row(process_row(p));
        assert(picks[q].0.id == id);
    }
}

/// The children that the table counts under a parent's id are those that the
/// graph counts.
proof fn same_children(g: GraphView, a: int, n: int)
    requires
        storable(g),
        has_process(g, a),
        0 <= n <= g.edges.len(),
    ensures
        count_where(
            edge_rows(node_rows(g), g).take(n).filter_map(live_parent(node_rows(g), 0)),
            same_text(process_id_text(g.processes[a].id)),
        ) == count_where(g.edges.take(n), from_parent(g, g.processes[a].id)),
    decreases n,
{
    let rows = node_rows(g);
    let es = edge_rows(rows, g);
    let f = live_parent(rows, 0);
    let id = g.processes[a].id;
    let same = same_text(process_id_text(id));
    let from = from_parent(g, id);
    if n == 0 {
        filter_map_start(es, f);
        assert(g.edges.take(0) =~= Seq::empty());
    } else {
        same_children(g, a, n - 1);
        filter_map_step(es, f, n - 1);
        count_where_step(g.edges, from, n - 1);
        parent_edge_row(g, n - 1);
        let before = es.take(n - 1).filter_map(f);
        if g.edges[n - 1] is ParentOf {
            let (parent, child) = (g.edges[n - 1]->ParentOf_parent, g.edges[n - 1]->ParentOf_child);
            row_is_known(g, parent);
            row_is_known(g, child);
            id_texts_differ(parent, id);
            let t = process_id_text(parent);
            if parent == id {
                row_of_process(g, a);
            }
            if has_identity(g, child) {
                let y = choose|y: int|
                    0 <= y < g.processes.len() && (#[trigger] g.processes[y]).id == child;
                assert(has_process(g, y));
                row_of_process(g, y);
                assert(process_row(g.processes[y]).last_seen >= 0);
            }
            assert(before.push(t).drop_last() =~= before);
        } else {
            assert(f(es[n - 1]) is None);
        }
    }
}

/// A count that is not zero has something behind it.
proof fn counted_is_there(s: Seq<Seq<char>>, x: Seq<char>)
    ensures
        count_where(s, same_text(x)) > 0 <==> s.contains(x),
        count_where(s, same_text(x)) <= s.len(),
    decreases s.len(),
{
    if s.len() > 0 {
        let t = s.drop_last();
        counted_is_there(t, x);
        if s.contains(x) {
            let k = choose|k: int| 0 <= k < s.len() && s[k] == x;
            if k < t.len() {
                assert(t[k] == x);
            }
        }
        if t.contains(x) {
            let k = choose|k: int| 0 <= k < t.len() && t[k] == x;
            assert(s[k] == x);
        }
        if s.last() == x {
            assert(s[s.len() - 1] == x);
        }
    }
}

/// What rearranging holds is what there was.
proof fn sorted_holds(s: Seq<Seq<char>>, key: spec_fn(Seq<char>) -> int, x: Seq<char>)
    ensures
        sort_by_key(s, key).contains(x) <==> s.contains(x),
{
    broadcast use vstd::seq_lib::group_to_multiset_ensures;

    sort_by_key_sorts(s, key);
    let t = sort_by_key(s, key);
    assert(t.contains(x) <==> t.to_multiset().count(x) > 0);
    assert(s.contains(x) <==> s.to_multiset().count(x) > 0);
}

/// The prolific parents that the store finds are those of the graph.
#[verifier::rlimit(30)]
proof fn same_parents(g: GraphView, threshold: u32, id: ProcessId, n: u32)
    requires
        storable(g),
    ensures
        ({
            let s = merged(new_store(), g);
            has_pick(
                prolific_parents(s, threshold, 0).map_values(picked_parent()),
                id,
                CandidateReason::ProlificParent(n),
            ) <==> exists|k: int|
                has_process(g, k) && (#[trigger] g.processes[k]).id == id && ({
                    let c = children_of(g, id);
                    c > 0 && n == wrapped32(c as int) && n >= threshold
                })
        }),
{
    let rows = node_rows(g);
    let es = edge_rows(rows, g);
    let s = merged(new_store(), g);
    new_rows_stand(rows);
    new_edges_stand(es);
    assert(s.nodes == rows && s.edges == es);
    let f = live_parent(rows, 0);
    let name = process_id_text(id);
    let parents = es.filter_map(f);
    let order = sort_by_key(uniques(parents), by_children(parents));
    let h = prolific(rows, parents, threshold);
    let found = order.filter_map(h);
    let picks = found.map_values(picked_parent());
    take_all(es);
    take_all(g.edges);
    uniques_are_distinct(parents);
    if has_pick(picks, id, CandidateReason::ProlificParent(n)) {
        let q = choose|q: int|
            0 <= q < picks.len() && (#[trigger] picks[q]).0.id == id && picks[q].1
                == CandidateReason::ProlificParent(n);
        filter_map_from(order, h, q);
        let m = choose|m: int| 0 <= m < order.len() && h(#[trigger] order[m]) == Some(found[q]);
        let t = order[m];
        assert(order.contains(t));
        sorted_holds(uniques(parents), by_children(parents), t);
        assert(parents.contains(t));
        let w = choose|w: int| 0 <= w < parents.len() && parents[w] == t;
        filter_map_from(es, f, w);
        let i = choose|i: int| 0 <= i < es.len() && f(#[trigger] es[i]) == Some(parents[w]);
        parent_edge_row(g, i);
        let parent = g.edges[i]->ParentOf_parent;
        assert(t == process_id_text(parent));
        row_is_known(g, parent);
        let a = choose|a: int| 0 <= a < g.processes.len() && (#[trigger] g.processes[a]).id == parent;
        assert(has_process(g, a));
        row_of_process(g, a);
        process_row_reads_back(g.processes[a]);
        same_children(g, a, g.edges.len() as int);
        counted_is_there(parents, t);
        filter_map_is_no_longer(es, f);
        assert(g.processes[a].id == id);
    }
    if exists|k: int|
        has_process(g, k) && (#[trigger] g.processes[k]).id == id && ({
            let c = children_of(g, id);
            c > 0 && n == wrapped32(c as int) && n >= threshold
        }) {
        let a = choose|k: int|
            has_process(g, k) && (#[trigger] g.processes[k]).id == id && ({
                let c = children_of(g, id);
                c > 0 && n == wrapped32(c as int) && n >= threshold
            });
        row_of_process(g, a);
        process_row_reads_back(g.processes[a]);
        same_children(g, a, g.edges.len() as int);
        counted_is_there(parents, name);
        filter_map_is_no_longer(es, f);
        assert(parents.contains(name));
        assert(uniques(parents).contains(name));
        sorted_holds(uniques(parents), by_children(parents), name);
        let m = choose|m: int| 0 <= m < order.len() && order[m] == name;
        let row = (process_of_row(process_row(g.processes[a])), n);
        assert(h(order[m]) == Some(row));
        filter_map_keeps(order, h, m);
        let q = choose|q: int| 0 <= q < found.len() && found[q] == row;
        assert(picks[q].0.id == id);
    }
}

/// A graph and the store that it was merged into have the same processes picked
/// for the same reasons.
pub proof fn graph_and_store_agree(
    g: GraphView,
    trusted: Seq<Seq<char>>,
    threshold: u32,
    id: ProcessId,
    reason: CandidateReason,
)
    requires
        storable(g),
    ensures
        has_pick(store_picks(merged(new_store(), g), trusted, threshold), id, reason) <==> has_pick(
            chain(g.processes, picks_of(g, trusted, threshold)),
            id,
            reason,
        ),
{
    let s = merged(new_store(), g);
    let a = roots_under_users(s, 0).map_values(picked(CandidateReason::RootUnderUserParent));
    let b = untrusted(s, trusted, 0).map_values(picked(CandidateReason::PathOutsideTrusted));
    let c = prolific_parents(s, threshold, 0).map_values(picked_parent());
    let all = a + b + c;
    graph_pick(g, trusted, threshold, id, reason);
    assert forall|k: int| has_process(g, k) implies picks_of(g, trusted, threshold)(
        #[trigger] g.processes[k],
    ).contains((g.processes[k], reason)) == match reason {
        CandidateReason::RootUnderUserParent => is_escalated(g, g.processes[k]),
        CandidateReason::PathOutsideTrusted => is_untrusted(g.processes[k], trusted),
        CandidateReason::ProlificParent(n) => {
            let c = children_of(g, g.processes[k].id);
            c > 0 && n == wrapped32(c as int) && n >= threshold
        },
    } by {
        process_pick(g, trusted, threshold, g.processes[k], reason);
    }
    has_pick_of_three(a, b, c, id, reason);
    match reason {
        CandidateReason::RootUnderUserParent => {
            same_roots(g, id);
        },
        CandidateReason::PathOutsideTrusted => {
            same_untrusted(g, trusted, id);
        },
        CandidateReason::ProlificParent(n) => {
            same_parents(g, threshold, id, n);
        },
    }
}

/// A pick of three lists is a pick of one of them.
proof fn has_pick_of_three(
    a: Seq<(ProcessNodeView, CandidateReason)>,
    b: Seq<(ProcessNodeView, CandidateReason)>,
    c: Seq<(ProcessNodeView, CandidateReason)>,
    id: ProcessId,
    reason: CandidateReason,
)
    ensures
        has_pick(a + b + c, id, reason) <==> has_pick(a, id, reason) || has_pick(b, id, reason)
            || has_pick(c, id, reason),
{
    let all = a + b + c;
    if has_pick(all, id, reason) {
        let i = choose|i: int|
            0 <= i < all.len() && (#[trigger] all[i]).0.id == id && all[i].1 == reason;
        if i < a.len() {
            assert(a[i] == all[i]);
        } else if i < a.len() + b.len() {
            assert(b[i - a.len()] == all[i]);
        } else {
            assert(c[i - a.len() - b.len()] == all[i]);
        }
    }
    if has_pick(a, id, reason) {
        let i = choose|i: int|
            0 <= i < a.len() && (#[trigger] a[i]).0.id == id && a[i].1 == reason;
        assert(all[i] == a[i]);
    }
    if has_pick(b, id, reason) {
        let i = choose|i: int|
            0 <= i < b.len() && (#[trigger] b[i]).0.id == id && b[i].1 == reason;
        assert(all[a.len() + i] == b[i]);
    }
    if has_pick(c, id, reason) {
        let i = choose|i: int|
            0 <= i < c.len() && (#[trigger] c[i]).0.id == id && c[i].1 == reason;
        assert(all[a.len() + b.len() + i] == c[i]);
    }
}

} // verus!
