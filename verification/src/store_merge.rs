//! Merging a graph into the store's tables.

use vstd::prelude::*;
use vstd::string::*;

use crate::graph::{Edge, EdgeView, Graph, GraphView};
use crate::json::{put, Json, JsonView};
use crate::seqs::{push_item, first_where, first_where_from, first_where_is_first};
use crate::store::{
    column, process_id_text, process_id_to_string, socket_id_text, socket_id_to_string, to_column,
    EdgeKind, EdgeRow, EdgeRowView, MergeReport, NodeKind, NodeRow, NodeRowView, Store, StoreError,
    StoreView,
};
use crate::store_rows::{
    app_row, domain_row, file_row, interval_json, interval_to_json, process_row, row_of_app,
    row_of_domain, row_of_file, row_of_process, row_of_socket, socket_row,
};
use crate::text::str_eq;

verus! {

// ---------- the node table ---------------------------------------------------

/// Whether a row is the node of a kind with an id.
pub open spec fn is_node(kind: NodeKind, id: Seq<char>) -> spec_fn(NodeRowView) -> bool {
    |r: NodeRowView| r.kind == kind && r.id == id
}

/// A node row's key.
pub open spec fn node_key() -> spec_fn(NodeRowView) -> (NodeKind, Seq<char>) {
    |r: NodeRowView| (r.kind, r.id)
}

/// The row of a node, if the table has one.
pub open spec fn node_at(nodes: Seq<NodeRowView>, kind: NodeKind, id: Seq<char>) -> Option<
    NodeRowView,
> {
    match first_where(nodes, is_node(kind, id)) {
        Some(i) => Some(nodes[i]),
        None => None,
    }
}

/// The smaller of two times.
pub open spec fn min_time(a: i64, b: i64) -> i64 {
    if a <= b {
        a
    } else {
        b
    }
}

/// The larger of two times.
pub open spec fn max_time(a: i64, b: i64) -> i64 {
    if a >= b {
        a
    } else {
        b
    }
}

/// A node that is seen again: the new attributes, over the union of both
/// lifetimes.
pub open spec fn node_again(old: NodeRowView, new: NodeRowView) -> NodeRowView {
    NodeRowView {
        first_seen: min_time(new.first_seen, old.first_seen),
        last_seen: max_time(new.last_seen, old.last_seen),
        ..new
    }
}

/// The node table after one row was put in: a known node is updated in place,
/// an unknown one is added.
pub open spec fn upsert_node(nodes: Seq<NodeRowView>, row: NodeRowView) -> Seq<NodeRowView> {
    match first_where(nodes, is_node(row.kind, row.id)) {
        Some(i) => nodes.update(i, node_again(nodes[i], row)),
        None => nodes.push(row),
    }
}

/// The node table after rows were put in, one after the other.
pub open spec fn upsert_nodes(nodes: Seq<NodeRowView>, rows: Seq<NodeRowView>) -> Seq<NodeRowView>
    decreases rows.len(),
{
    if rows.len() == 0 {
        nodes
    } else {
        upsert_node(upsert_nodes(nodes, rows.drop_last()), rows.last())
    }
}

/// The rows of a graph's nodes: processes, applications, connections, files,
/// names.
pub open spec fn node_rows(g: GraphView) -> Seq<NodeRowView> {
    Seq::new(g.processes.len(), |i: int| process_row(g.processes[i])) + Seq::new(
        g.apps.len(),
        |i: int| app_row(g.apps[i]),
    ) + Seq::new(g.sockets.len(), |i: int| socket_row(g.sockets[i])) + Seq::new(
        g.files.len(),
        |i: int| file_row(g.files[i]),
    ) + Seq::new(g.domains.len(), |i: int| domain_row(g.domains[i]))
}

/// The position of a node in the table.
pub(crate) fn find_node(nodes: &Vec<NodeRow>, kind: NodeKind, id: &str) -> (r: Option<usize>)
    ensures
        match r {
            Some(i) => first_where(nodes.deep_view(), is_node(kind, id@)) == Some(i as int) && i
                < nodes@.len(),
            None => first_where(nodes.deep_view(), is_node(kind, id@)) is None,
        },
{
    let ghost all = nodes.deep_view();
    let mut i: usize = 0;
    while i < nodes.len()
        invariant
            all == nodes.deep_view(),
            i <= nodes@.len(),
            first_where(all, is_node(kind, id@)) == first_where_from(all, is_node(kind, id@), i as int),
        decreases nodes@.len() - i,
    {
        assert(all[i as int] == nodes@[i as int].deep_view());
        if nodes[i].kind == kind && str_eq(nodes[i].id.as_str(), id) {
            return Some(i);
        }
        i = i + 1;
    }
    None
}

/// Puts a row into the node table; tells whether the node was known.
fn put_node(nodes: &mut Vec<NodeRow>, row: NodeRow) -> (known: bool)
    ensures
        final(nodes).deep_view() == upsert_node(old(nodes).deep_view(), row.deep_view()),
        known == (final(nodes)@.len() == old(nodes)@.len()),
        !known ==> final(nodes)@.len() == old(nodes)@.len() + 1,
{
    let ghost before = nodes.deep_view();
    let ghost new = row.deep_view();
    match find_node(nodes, row.kind, row.id.as_str()) {
        Some(i) => {
            let first: i64 = nodes[i].first_seen;
            let last: i64 = nodes[i].last_seen;
            nodes[i] = NodeRow {
                kind: row.kind,
                id: row.id,
                attrs: row.attrs,
                first_seen: if row.first_seen <= first {
                    row.first_seen
                } else {
                    first
                },
                last_seen: if row.last_seen >= last {
                    row.last_seen
                } else {
                    last
                },
            };
            assert(nodes.deep_view() =~= upsert_node(before, new));
            true
        },
        None => {
            nodes.push(row);
            assert(nodes.deep_view() =~= upsert_node(before, new));
            false
        },
    }
}

/// The rows of a graph's nodes.
fn rows_of_nodes(g: &Graph) -> (r: Vec<NodeRow>)
    ensures
        r.deep_view() == node_rows(g.deep_view()),
{
    let ghost gv = g.deep_view();
    let ghost ps = Seq::new(gv.processes.len(), |i: int| process_row(gv.processes[i]));
    let ghost aps = Seq::new(gv.apps.len(), |i: int| app_row(gv.apps[i]));
    let ghost ss = Seq::new(gv.sockets.len(), |i: int| socket_row(gv.sockets[i]));
    let ghost fs = Seq::new(gv.files.len(), |i: int| file_row(gv.files[i]));
    let ghost ds = Seq::new(gv.domains.len(), |i: int| domain_row(gv.domains[i]));
    let mut out: Vec<NodeRow> = Vec::new();
    let mut i: usize = 0;
    while i < g.processes.len()
        invariant
            i <= g.processes@.len(),
            gv == g.deep_view(),
            ps == Seq::new(gv.processes.len(), |i: int| process_row(gv.processes[i])),
            out.deep_view() == ps.take(i as int),
        decreases g.processes@.len() - i,
    {
        push_item(&mut out, row_of_process(&g.processes[i]));
        assert(ps.take(i as int).push(ps[i as int]) =~= ps.take(i + 1));
        i = i + 1;
        assert(out.deep_view() =~= ps.take(i as int));
    }
    let ghost done = ps;
    assert(out.deep_view() =~= done + aps.take(0));
    i = 0;
    while i < g.apps.len()
        invariant
            i <= g.apps@.len(),
            gv == g.deep_view(),
            aps == Seq::new(gv.apps.len(), |i: int| app_row(gv.apps[i])),
            out.deep_view() == done + aps.take(i as int),
        decreases g.apps@.len() - i,
    {
        push_item(&mut out, row_of_app(&g.apps[i]));
        assert(aps.take(i as int).push(aps[i as int]) =~= aps.take(i + 1));
        i = i + 1;
        assert(out.deep_view() =~= done + aps.take(i as int));
    }
    let ghost done = ps + aps;
    assert(out.deep_view() =~= done + ss.take(0));
    i = 0;
    while i < g.sockets.len()
        invariant
            i <= g.sockets@.len(),
            gv == g.deep_view(),
            ss == Seq::new(gv.sockets.len(), |i: int| socket_row(gv.sockets[i])),
            out.deep_view() == done + ss.take(i as int),
        decreases g.sockets@.len() - i,
    {
        push_item(&mut out, row_of_socket(&g.sockets[i]));
        assert(ss.take(i as int).push(ss[i as int]) =~= ss.take(i + 1));
        i = i + 1;
        assert(out.deep_view() =~= done + ss.take(i as int));
    }
    let ghost done = ps + aps + ss;
    assert(out.deep_view() =~= done + fs.take(0));
    i = 0;
    while i < g.files.len()
        invariant
            i <= g.files@.len(),
            gv == g.deep_view(),
            fs == Seq::new(gv.files.len(), |i: int| file_row(gv.files[i])),
            out.deep_view() == done + fs.take(i as int),
        decreases g.files@.len() - i,
    {
        push_item(&mut out, row_of_file(&g.files[i]));
        assert(fs.take(i as int).push(fs[i as int]) =~= fs.take(i + 1));
        i = i + 1;
        assert(out.deep_view() =~= done + fs.take(i as int));
    }
    let ghost done = ps + aps + ss + fs;
    assert(out.deep_view() =~= done + ds.take(0));
    i = 0;
    while i < g.domains.len()
        invariant
            i <= g.domains@.len(),
            gv == g.deep_view(),
            ds == Seq::new(gv.domains.len(), |i: int| domain_row(gv.domains[i])),
            out.deep_view() == done + ds.take(i as int),
        decreases g.domains@.len() - i,
    {
        push_item(&mut out, row_of_domain(&g.domains[i]));
        assert(ds.take(i as int).push(ds[i as int]) =~= ds.take(i + 1));
        i = i + 1;
        assert(out.deep_view() =~= done + ds.take(i as int));
    }
    assert(out.deep_view() =~= node_rows(gv));
    out
}

// ---------- the edge table ---------------------------------------------------

/// When a node was last seen; zero if the table does not have it.
pub open spec fn last_seen_of(nodes: Seq<NodeRowView>, kind: NodeKind, id: Seq<char>) -> i64 {
    match node_at(nodes, kind, id) {
        Some(r) => r.last_seen,
        None => 0,
    }
}

/// An edge as a row that was seen once. An edge without a time of its own was
/// seen when the node it points to was last seen.
pub open spec fn edge_row(nodes: Seq<NodeRowView>, e: EdgeView) -> EdgeRowView {
    match e {
        EdgeView::ParentOf { parent, child } => {
            let seen = last_seen_of(nodes, NodeKind::Process, process_id_text(child));
            EdgeRowView {
                kind: EdgeKind::ParentOf,
                from_kind: NodeKind::Process,
                from_id: process_id_text(parent),
                to_kind: NodeKind::Process,
                to_id: process_id_text(child),
                count: 1,
                first_seen: seen,
                last_seen: seen,
                attrs: JsonView::Object(Seq::empty()),
            }
        },
        EdgeView::FrontmostDuring { app, process, overlap } => {
            let seen = column(
                match overlap.to {
                    Some(t) => t,
                    None => overlap.from,
                },
            );
            EdgeRowView {
                kind: EdgeKind::FrontmostDuring,
                from_kind: NodeKind::App,
                from_id: app,
                to_kind: NodeKind::Process,
                to_id: process_id_text(process),
                count: 1,
                first_seen: seen,
                last_seen: seen,
                attrs: JsonView::Object(seq![("overlap"@, interval_json(overlap))]),
            }
        },
        EdgeView::OpenedSocket { process, socket } => {
            let seen = last_seen_of(nodes, NodeKind::Socket, socket_id_text(socket));
            EdgeRowView {
                kind: EdgeKind::OpenedSocket,
                from_kind: NodeKind::Process,
                from_id: process_id_text(process),
                to_kind: NodeKind::Socket,
                to_id: socket_id_text(socket),
                count: 1,
                first_seen: seen,
                last_seen: seen,
                attrs: JsonView::Object(Seq::empty()),
            }
        },
        EdgeView::QueriedDomain { process, domain, count } => {
            let seen = last_seen_of(nodes, NodeKind::Domain, domain);
            EdgeRowView {
                kind: EdgeKind::QueriedDomain,
                from_kind: NodeKind::Process,
                from_id: process_id_text(process),
                to_kind: NodeKind::Domain,
                to_id: domain,
                count: 1,
                first_seen: seen,
                last_seen: seen,
                attrs: JsonView::Object(seq![("queries"@, JsonView::Int(count as int))]),
            }
        },
    }
}

/// The key of an edge.
pub struct EdgeKey {
    pub kind: EdgeKind,
    pub from_kind: NodeKind,
    pub from_id: Seq<char>,
    pub to_kind: NodeKind,
    pub to_id: Seq<char>,
}

/// An edge row's key.
pub open spec fn key_of(r: EdgeRowView) -> EdgeKey {
    EdgeKey {
        kind: r.kind,
        from_kind: r.from_kind,
        from_id: r.from_id,
        to_kind: r.to_kind,
        to_id: r.to_id,
    }
}

/// An edge row's key, as a function.
pub open spec fn edge_key() -> spec_fn(EdgeRowView) -> EdgeKey {
    |r: EdgeRowView| key_of(r)
}

/// Whether a row is the edge with a key.
pub open spec fn is_edge(key: EdgeKey) -> spec_fn(EdgeRowView) -> bool {
    |r: EdgeRowView| key_of(r) == key
}

/// One more than a count, held at the largest one.
pub open spec fn bump(n: u64) -> u64 {
    if n < u64::MAX {
        (n + 1) as u64
    } else {
        n
    }
}

/// An edge that is seen again: counted once more, with the new attributes,
/// last seen at the later of both times.
pub open spec fn edge_again(old: EdgeRowView, new: EdgeRowView) -> EdgeRowView {
    EdgeRowView {
        count: bump(old.count),
        last_seen: max_time(old.last_seen, new.last_seen),
        attrs: new.attrs,
        ..old
    }
}

/// The edge table after one row was put in.
pub open spec fn upsert_edge(edges: Seq<EdgeRowView>, row: EdgeRowView) -> Seq<EdgeRowView> {
    match first_where(edges, is_edge(key_of(row))) {
        Some(i) => edges.update(i, edge_again(edges[i], row)),
        None => edges.push(row),
    }
}

/// The edge table after rows were put in, one after the other.
pub open spec fn upsert_edges(edges: Seq<EdgeRowView>, rows: Seq<EdgeRowView>) -> Seq<EdgeRowView>
    decreases rows.len(),
{
    if rows.len() == 0 {
        edges
    } else {
        upsert_edge(upsert_edges(edges, rows.drop_last()), rows.last())
    }
}

/// The rows of a graph's edges, over a node table.
pub open spec fn edge_rows(nodes: Seq<NodeRowView>, g: GraphView) -> Seq<EdgeRowView> {
    Seq::new(g.edges.len(), |i: int| edge_row(nodes, g.edges[i]))
}

/// The position of an edge in the table.
fn find_edge(edges: &Vec<EdgeRow>, row: &EdgeRow) -> (r: Option<usize>)
    ensures
        match r {
            Some(i) => first_where(edges.deep_view(), is_edge(key_of(row.deep_view()))) == Some(
                i as int,
            ) && i < edges@.len(),
            None => first_where(edges.deep_view(), is_edge(key_of(row.deep_view()))) is None,
        },
{
    let ghost all = edges.deep_view();
    let ghost p = is_edge(key_of(row.deep_view()));
    let mut i: usize = 0;
    while i < edges.len()
        invariant
            all == edges.deep_view(),
            p == is_edge(key_of(row.deep_view())),
            i <= edges@.len(),
            first_where(all, p) == first_where_from(all, p, i as int),
        decreases edges@.len() - i,
    {
        assert(all[i as int] == edges@[i as int].deep_view());
        let e: &EdgeRow = &edges[i];
        if e.kind == row.kind && e.from_kind == row.from_kind && e.to_kind == row.to_kind && str_eq(
            e.from_id.as_str(),
            row.from_id.as_str(),
        ) && str_eq(e.to_id.as_str(), row.to_id.as_str()) {
            return Some(i);
        }
        i = i + 1;
    }
    None
}

/// Puts a row into the edge table; tells whether the edge was known.
fn put_edge(edges: &mut Vec<EdgeRow>, row: EdgeRow) -> (known: bool)
    ensures
        final(edges).deep_view() == upsert_edge(old(edges).deep_view(), row.deep_view()),
        known == (final(edges)@.len() == old(edges)@.len()),
        !known ==> final(edges)@.len() == old(edges)@.len() + 1,
{
    let ghost before = edges.deep_view();
    let ghost new = row.deep_view();
    match find_edge(edges, &row) {
        Some(i) => {
            proof {
                first_where_is_first(before, is_edge(key_of(new)));
            }
            let count: u64 = edges[i].count;
            let first: i64 = edges[i].first_seen;
            let last: i64 = edges[i].last_seen;
            edges[i] = EdgeRow {
                kind: row.kind,
                from_kind: row.from_kind,
                from_id: row.from_id,
                to_kind: row.to_kind,
                to_id: row.to_id,
                count: if count < u64::MAX {
                    count + 1
                } else {
                    count
                },
                first_seen: first,
                last_seen: if last >= row.last_seen {
                    last
                } else {
                    row.last_seen
                },
                attrs: row.attrs,
            };
            assert(edges.deep_view() =~= upsert_edge(before, new));
            true
        },
        None => {
            edges.push(row);
            assert(edges.deep_view() =~= upsert_edge(before, new));
            false
        },
    }
}

/// When a node was last seen.
fn node_last_seen(nodes: &Vec<NodeRow>, kind: NodeKind, id: &str) -> (r: i64)
    ensures
        r == last_seen_of(nodes.deep_view(), kind, id@),
{
    match find_node(nodes, kind, id) {
        Some(i) => nodes[i].last_seen,
        None => 0,
    }
}

/// An edge as a row.
fn row_of_edge(nodes: &Vec<NodeRow>, e: &Edge) -> (r: EdgeRow)
    ensures
        r.deep_view() == edge_row(nodes.deep_view(), e.deep_view()),
{
    let mut f: Vec<(String, Json)> = Vec::new();
    assert(f.deep_view() =~= Seq::empty());
    match e {
        Edge::ParentOf { parent, child } => {
            let to_id = process_id_to_string(child);
            let seen: i64 = node_last_seen(nodes, NodeKind::Process, to_id.as_str());
            EdgeRow {
                kind: EdgeKind::ParentOf,
                from_kind: NodeKind::Process,
                from_id: process_id_to_string(parent),
                to_kind: NodeKind::Process,
                to_id,
                count: 1,
                first_seen: seen,
                last_seen: seen,
                attrs: Json::object(f),
            }
        },
        Edge::FrontmostDuring { app, process, overlap } => {
            put(&mut f, "overlap", interval_to_json(overlap));
            assert(f.deep_view() =~= seq![("overlap"@, interval_json(*overlap))]);
            let seen: i64 = to_column(
                match overlap.to {
                    Some(t) => t,
                    None => overlap.from,
                },
            );
            EdgeRow {
                kind: EdgeKind::FrontmostDuring,
                from_kind: NodeKind::App,
                from_id: app.clone(),
                to_kind: NodeKind::Process,
                to_id: process_id_to_string(process),
                count: 1,
                first_seen: seen,
                last_seen: seen,
                attrs: Json::object(f),
            }
        },
        Edge::OpenedSocket { process, socket } => {
            let to_id = socket_id_to_string(socket);
            let seen: i64 = node_last_seen(nodes, NodeKind::Socket, to_id.as_str());
            EdgeRow {
                kind: EdgeKind::OpenedSocket,
                from_kind: NodeKind::Process,
                from_id: process_id_to_string(process),
                to_kind: NodeKind::Socket,
                to_id,
                count: 1,
                first_seen: seen,
                last_seen: seen,
                attrs: Json::object(f),
            }
        },
        Edge::QueriedDomain { process, domain, count } => {
            put(&mut f, "queries", Json::U64(*count));
            assert(f.deep_view() =~= seq![("queries"@, JsonView::Int(*count as int))]);
            let seen: i64 = node_last_seen(nodes, NodeKind::Domain, domain.as_str());
            EdgeRow {
                kind: EdgeKind::QueriedDomain,
                from_kind: NodeKind::Process,
                from_id: process_id_to_string(process),
                to_kind: NodeKind::Domain,
                to_id: domain.clone(),
                count: 1,
                first_seen: seen,
                last_seen: seen,
                attrs: Json::object(f),
            }
        },
    }
}

// ---------- merge ------------------------------------------------------------

/// The tables after a graph was merged: every node and then every edge is put
/// in; the event history and the metadata stay.
pub open spec fn merged(s: StoreView, g: GraphView) -> StoreView {
    let nodes = upsert_nodes(s.nodes, node_rows(g));
    StoreView { nodes, edges: upsert_edges(s.edges, edge_rows(nodes, g)), ..s }
}

/// What merging a graph is reported to have done: the rows that were added,
/// and those that were there.
pub open spec fn merge_report(s: StoreView, g: GraphView, r: MergeReport) -> bool {
    let after = merged(s, g);
    &&& r.nodes_inserted == after.nodes.len() - s.nodes.len()
    &&& r.nodes_updated == node_rows(g).len() - (after.nodes.len() - s.nodes.len())
    &&& r.edges_inserted == after.edges.len() - s.edges.len()
    &&& r.edges_updated == g.edges.len() - (after.edges.len() - s.edges.len())
}

impl Store {
    /// Merges a graph. Merging the same graph again adds no row: it counts
    /// each edge once more and extends lifetimes.
    pub fn merge_graph(&mut self, g: &Graph) -> (r: Result<MergeReport, StoreError>)
        ensures
            final(self)@ == merged(old(self)@, g.deep_view()),
            r is Ok,
            merge_report(old(self)@, g.deep_view(), r->Ok_0),
    {
        let ghost gv = g.deep_view();
        let ghost start = self@;
        let rows = rows_of_nodes(g);
        let n: usize = rows.len();
        let ghost all = rows.deep_view();
        let mut report = MergeReport::default();
        for row in it: rows
            invariant
                it.seq() == rows@,
                n == rows@.len(),
                all == rows.deep_view(),
                self@ == (StoreView {
                    nodes: upsert_nodes(start.nodes, all.take(it.index() as int)),
                    ..start
                }),
                report.nodes_inserted == self@.nodes.len() - start.nodes.len(),
                report.nodes_inserted + report.nodes_updated == it.index(),
                report.edges_inserted == 0 && report.edges_updated == 0,
        {
            let ghost i = it.index() as int;
            assert(all[i] == row.deep_view());
            assert(all.take(i + 1).drop_last() =~= all.take(i));
            if put_node(&mut self.nodes, row) {
                report.nodes_updated = report.nodes_updated + 1;
            } else {
                report.nodes_inserted = report.nodes_inserted + 1;
            }
        }
        assert(all.take(all.len() as int) =~= all);
        let ghost nodes = self@.nodes;
        let ghost erows = edge_rows(nodes, gv);
        let mut i: usize = 0;
        while i < g.edges.len()
            invariant
                i <= g.edges@.len(),
                gv == g.deep_view(),
                erows == edge_rows(nodes, gv),
                self@ == (StoreView {
                    nodes,
                    edges: upsert_edges(start.edges, erows.take(i as int)),
                    ..start
                }),
                report.nodes_inserted == nodes.len() - start.nodes.len(),
                report.nodes_inserted + report.nodes_updated == all.len(),
                report.edges_inserted == self@.edges.len() - start.edges.len(),
                report.edges_inserted + report.edges_updated == i,
            decreases g.edges@.len() - i,
        {
            let row = row_of_edge(&self.nodes, &g.edges[i]);
            assert(row.deep_view() == erows[i as int]);
            assert(erows.take(i + 1).drop_last() =~= erows.take(i as int));
            if put_edge(&mut self.edges, row) {
                report.edges_updated = report.edges_updated + 1;
            } else {
                report.edges_inserted = report.edges_inserted + 1;
            }
            i = i + 1;
        }
        assert(erows.take(erows.len() as int) =~= erows);
        Ok(report)
    }
}

} // verus!
