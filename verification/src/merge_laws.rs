//! What merging a graph into the store a second time does: nothing but count
//! its edges.

use vstd::prelude::*;

use crate::graph::GraphView;
use crate::json::JsonView;
use crate::seqs::{
    filter_map_start, filter_map_step, first_where, first_where_is_first, take_all,
};
use crate::store::{EdgeRowView, MergeReport, NodeKind, NodeRowView, StoreView};
use crate::store_laws::{
    edge_at, merged_edges_are_there, merged_rows_are_there, merging_again_adds_nothing,
    upsert_edge_reads_back, upsert_node_reads_back,
};
use crate::store_load::{edge_of_row, loaded, pick_edge};
use crate::store_merge::{
    edge_again, edge_rows, is_edge, is_node, key_of, merge_report, merged, node_again, node_at,
    node_rows, upsert_edges, upsert_nodes, EdgeKey,
};

verus! {

/// The attributes of the last of some rows that is of a node.
spec fn last_node_attrs(rows: Seq<NodeRowView>, kind: NodeKind, id: Seq<char>) -> Option<JsonView>
    decreases rows.len(),
{
    if rows.len() == 0 {
        None
    } else if rows.last().kind == kind && rows.last().id == id {
        Some(rows.last().attrs)
    } else {
        last_node_attrs(rows.drop_last(), kind, id)
    }
}

/// A node that was put in has the attributes of the last row of it.
proof fn last_node_attrs_stay(
    nodes: Seq<NodeRowView>,
    rows: Seq<NodeRowView>,
    kind: NodeKind,
    id: Seq<char>,
)
    ensures
        last_node_attrs(rows, kind, id) matches Some(a) ==> (node_at(
            upsert_nodes(nodes, rows),
            kind,
            id,
        ) matches Some(r) && r.attrs == a),
    decreases rows.len(),
{
    if rows.len() > 0 {
        let t = rows.drop_last();
        last_node_attrs_stay(nodes, t, kind, id);
        upsert_node_reads_back(upsert_nodes(nodes, t), rows.last(), kind, id);
    }
}

/// Tables whose rows have the same keys have a node at the same place.
proof fn same_place(a: Seq<NodeRowView>, b: Seq<NodeRowView>, kind: NodeKind, id: Seq<char>)
    requires
        a.len() == b.len(),
        forall|i: int|
            0 <= i < a.len() ==> (#[trigger] a[i]).kind == b[i].kind && a[i].id == b[i].id,
    ensures
        first_where(a, is_node(kind, id)) == first_where(b, is_node(kind, id)),
{
    let p = is_node(kind, id);
    first_where_is_first(a, p);
    first_where_is_first(b, p);
    assert forall|i: int| 0 <= i < a.len() implies p(#[trigger] a[i]) == p(b[i]) by {}
    match (first_where(a, p), first_where(b, p)) {
        (Some(i), Some(j)) => {
            if i < j {
                assert(!p(b[i]));
                assert(p(a[i]) == p(b[i]));
            }
            if j < i {
                assert(!p(a[j]));
            }
        },
        (Some(i), None) => {
            assert(p(a[i]) == p(b[i]));
        },
        (None, Some(j)) => {
            assert(p(a[j]) == p(b[j]));
        },
        (None, None) => {},
    }
}

/// A row after rows of known nodes, over lifetimes that the table covers, were
/// put in: it has the attributes of the last row of it.
spec fn put_again(nodes: Seq<NodeRowView>, rows: Seq<NodeRowView>, i: int) -> NodeRowView {
    let r = nodes[i];
    if first_where(nodes, is_node(r.kind, r.id)) == Some(i) {
        match last_node_attrs(rows, r.kind, r.id) {
            Some(attrs) => NodeRowView { attrs, ..r },
            None => r,
        }
    } else {
        r
    }
}

/// Whether a table has a node over at least the lifetime of a row of it.
spec fn covers(nodes: Seq<NodeRowView>, row: NodeRowView) -> bool {
    node_at(nodes, row.kind, row.id) matches Some(r) && r.first_seen <= row.first_seen
        && r.last_seen >= row.last_seen
}

proof fn known_rows_change_attrs(nodes: Seq<NodeRowView>, rows: Seq<NodeRowView>)
    requires
        forall|j: int| 0 <= j < rows.len() ==> covers(nodes, #[trigger] rows[j]),
    ensures
        upsert_nodes(nodes, rows).len() == nodes.len(),
        forall|i: int|
            0 <= i < nodes.len() ==> #[trigger] upsert_nodes(nodes, rows)[i] == put_again(
                nodes,
                rows,
                i,
            ),
    decreases rows.len(),
{
    if rows.len() > 0 {
        let t = rows.drop_last();
        let row = rows.last();
        let before = upsert_nodes(nodes, t);
        let after = upsert_nodes(nodes, rows);
        assert forall|j: int| 0 <= j < t.len() implies covers(nodes, #[trigger] t[j]) by {
            assert(t[j] == rows[j]);
        }
        known_rows_change_attrs(nodes, t);
        assert(covers(nodes, rows[rows.len() - 1]));
        let p = is_node(row.kind, row.id);
        assert forall|i: int| 0 <= i < before.len() implies (#[trigger] before[i]).kind
            == nodes[i].kind && before[i].id == nodes[i].id by {
            assert(before[i] == put_again(nodes, t, i));
        }
        same_place(before, nodes, row.kind, row.id);
        first_where_is_first(nodes, p);
        let k = first_where(nodes, p)->0;
        assert(before[k] == put_again(nodes, t, k));
        assert(after == before.update(k, node_again(before[k], row)));
        assert forall|i: int| 0 <= i < nodes.len() implies #[trigger] after[i] == put_again(
            nodes,
            rows,
            i,
        ) by {
            assert(before[i] == put_again(nodes, t, i));
            if i != k && p(nodes[i]) {
                assert(first_where(nodes, is_node(nodes[i].kind, nodes[i].id)) == Some(k));
            }
        }
    }
}

/// Putting the same rows in again leaves the table of nodes as it is.
proof fn rows_again_change_nothing(nodes: Seq<NodeRowView>, rows: Seq<NodeRowView>)
    ensures
        upsert_nodes(upsert_nodes(nodes, rows), rows) == upsert_nodes(nodes, rows),
{
    let once = upsert_nodes(nodes, rows);
    let twice = upsert_nodes(once, rows);
    assert forall|j: int| 0 <= j < rows.len() implies covers(once, #[trigger] rows[j]) by {
        merged_rows_are_there(nodes, rows, j);
    }
    known_rows_change_attrs(once, rows);
    assert forall|i: int| 0 <= i < once.len() implies twice[i] == once[i] by {
        last_node_attrs_stay(nodes, rows, once[i].kind, once[i].id);
        assert(twice[i] == put_again(once, rows, i));
    }
    assert(twice =~= once);
}

/// The attributes of the last of some rows with a key.
spec fn last_edge_attrs(rows: Seq<EdgeRowView>, key: EdgeKey) -> Option<JsonView>
    decreases rows.len(),
{
    if rows.len() == 0 {
        None
    } else if key_of(rows.last()) == key {
        Some(rows.last().attrs)
    } else {
        last_edge_attrs(rows.drop_last(), key)
    }
}

/// An edge that was put in has the attributes of the last row of it.
proof fn last_edge_attrs_stay(edges: Seq<EdgeRowView>, rows: Seq<EdgeRowView>, key: EdgeKey)
    ensures
        last_edge_attrs(rows, key) matches Some(a) ==> (edge_at(
            upsert_edges(edges, rows),
            key,
        ) matches Some(r) && r.attrs == a),
    decreases rows.len(),
{
    if rows.len() > 0 {
        let t = rows.drop_last();
        last_edge_attrs_stay(edges, t, key);
        upsert_edge_reads_back(upsert_edges(edges, t), rows.last(), key);
    }
}

/// Tables whose rows have the same keys have an edge at the same place.
proof fn same_edge_place(a: Seq<EdgeRowView>, b: Seq<EdgeRowView>, key: EdgeKey)
    requires
        a.len() == b.len(),
        forall|i: int| 0 <= i < a.len() ==> key_of(#[trigger] a[i]) == key_of(b[i]),
    ensures
        first_where(a, is_edge(key)) == first_where(b, is_edge(key)),
{
    let p = is_edge(key);
    first_where_is_first(a, p);
    first_where_is_first(b, p);
    assert forall|i: int| 0 <= i < a.len() implies p(#[trigger] a[i]) == p(b[i]) by {}
    match (first_where(a, p), first_where(b, p)) {
        (Some(i), Some(j)) => {
            if i < j {
                assert(!p(b[i]));
                assert(p(a[i]) == p(b[i]));
            }
            if j < i {
                assert(!p(a[j]));
            }
        },
        (Some(i), None) => {
            assert(p(a[i]) == p(b[i]));
        },
        (None, Some(j)) => {
            assert(p(a[j]) == p(b[j]));
        },
        (None, None) => {},
    }
}

/// The attributes of a row after rows of known edges were put in.
spec fn attrs_again(edges: Seq<EdgeRowView>, rows: Seq<EdgeRowView>, i: int) -> JsonView {
    let r = edges[i];
    if first_where(edges, is_edge(key_of(r))) == Some(i) {
        match last_edge_attrs(rows, key_of(r)) {
            Some(attrs) => attrs,
            None => r.attrs,
        }
    } else {
        r.attrs
    }
}

proof fn known_edges_change_attrs(edges: Seq<EdgeRowView>, rows: Seq<EdgeRowView>)
    requires
        forall|j: int|
            0 <= j < rows.len() ==> edge_at(edges, key_of(#[trigger] rows[j])) is Some,
    ensures
        upsert_edges(edges, rows).len() == edges.len(),
        forall|i: int|
            0 <= i < edges.len() ==> key_of(#[trigger] upsert_edges(edges, rows)[i]) == key_of(
                edges[i],
            ) && upsert_edges(edges, rows)[i].attrs == attrs_again(edges, rows, i),
    decreases rows.len(),
{
    if rows.len() > 0 {
        let t = rows.drop_last();
        let row = rows.last();
        let before = upsert_edges(edges, t);
        let after = upsert_edges(edges, rows);
        assert forall|j: int| 0 <= j < t.len() implies edge_at(
            edges,
            key_of(#[trigger] t[j]),
        ) is Some by {
            assert(t[j] == rows[j]);
        }
        known_edges_change_attrs(edges, t);
        assert(edge_at(edges, key_of(rows[rows.len() - 1])) is Some);
        let p = is_edge(key_of(row));
        same_edge_place(before, edges, key_of(row));
        first_where_is_first(edges, p);
        let k = first_where(edges, p)->0;
        assert(key_of(before[k]) == key_of(edges[k]));
        assert(after == before.update(k, edge_again(before[k], row)));
        assert forall|i: int| 0 <= i < edges.len() implies key_of(#[trigger] after[i]) == key_of(
            edges[i],
        ) && after[i].attrs == attrs_again(edges, rows, i) by {
            assert(key_of(before[i]) == key_of(edges[i]));
            if i != k && p(edges[i]) {
                assert(first_where(edges, is_edge(key_of(edges[i]))) == Some(k));
            }
        }
    }
}

/// Sequences of whose elements the function makes the same keep the same.
proof fn kept_alike<A, B>(a: Seq<A>, b: Seq<A>, f: spec_fn(A) -> Option<B>)
    requires
        a.len() == b.len(),
        forall|i: int| 0 <= i < a.len() ==> f(#[trigger] a[i]) == f(b[i]),
    ensures
        a.filter_map(f) == b.filter_map(f),
    decreases a.len(),
{
    take_all(a);
    take_all(b);
    if a.len() == 0 {
        filter_map_start(a, f);
        filter_map_start(b, f);
    } else {
        let n = a.len() - 1;
        let (s, t) = (a.take(n), b.take(n));
        assert forall|i: int| 0 <= i < s.len() implies f(#[trigger] s[i]) == f(t[i]) by {
            assert(s[i] == a[i]);
        }
        kept_alike(s, t, f);
        filter_map_step(a, f, n);
        filter_map_step(b, f, n);
        assert(f(a[n]) == f(b[n]));
    }
}

/// Merging a graph again leaves the table of nodes, and the graph that the
/// store holds, as they are.
pub proof fn merging_again_changes_nothing_loaded(s: StoreView, g: GraphView)
    ensures
        merged(merged(s, g), g).nodes == merged(s, g).nodes,
        loaded(merged(merged(s, g), g)) == loaded(merged(s, g)),
{
    let once = merged(s, g);
    let twice = merged(once, g);
    rows_again_change_nothing(s.nodes, node_rows(g));
    let rows = edge_rows(once.nodes, g);
    assert(twice.edges == upsert_edges(once.edges, rows));
    assert forall|j: int| 0 <= j < rows.len() implies edge_at(
        once.edges,
        key_of(#[trigger] rows[j]),
    ) is Some by {
        merged_edges_are_there(s.edges, rows, j);
    }
    known_edges_change_attrs(once.edges, rows);
    let f = pick_edge();
    assert forall|i: int| 0 <= i < twice.edges.len() implies f(#[trigger] twice.edges[i]) == f(
        once.edges[i],
    ) by {
        last_edge_attrs_stay(s.edges, rows, key_of(once.edges[i]));
        assert(key_of(twice.edges[i]) == key_of(once.edges[i]));
        assert(twice.edges[i].attrs == once.edges[i].attrs);
        assert(edge_of_row(twice.edges[i]) == edge_of_row(once.edges[i]));
    }
    kept_alike(twice.edges, once.edges, f);
}

/// Merging a graph again reports every node and every edge of it as updated,
/// and none as inserted.
pub proof fn merging_again_reports_updates(s: StoreView, g: GraphView, r: MergeReport)
    requires
        merge_report(merged(s, g), g, r),
    ensures
        r.nodes_inserted == 0,
        r.nodes_updated == node_rows(g).len(),
        r.edges_inserted == 0,
        r.edges_updated == g.edges.len(),
{
    merging_again_adds_nothing(s, g);
}

} // verus!
