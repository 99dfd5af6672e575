//! What holds of the shape of a graph: who is whose neighbour, and which changes of
//! shape are told.

use vstd::prelude::*;

use crate::analytics::{
    adjacency, all_ends, degree, ends, has_entry, neighbors_of, node_label, node_refs, nodes_of,
    NodeRefView,
};
use crate::graph::{EdgeView, GraphView, SocketIdView};
use crate::graph_builder::{is_app, is_process};
use crate::name_laws::is_free;
use crate::seqs::{
    filter_map_from, filter_map_keeps, first_where, first_where_is_first, uniques,
    uniques_are_distinct,
};
use crate::text::{decimal, occurs_at, rfind_is_last};
use crate::topology::{
    changes, degree_in, links_of, merged_cluster, most_linked, new_cluster, spike, ShapeScoreView,
};

verus! {

// ---------- neighbours -------------------------------------------------------------

/// Whether an edge leads from one node to another, with a weight: a lookup weighs
/// as much as it was repeated, anything else one.
pub open spec fn leads(e: EdgeView, a: NodeRefView, b: NodeRefView, w: u64) -> bool {
    match e {
        EdgeView::ParentOf { parent, child } => a == NodeRefView::Process(parent) && b
            == NodeRefView::Process(child) && w == 1,
        EdgeView::FrontmostDuring { app, process, overlap } => a == NodeRefView::App(app) && b
            == NodeRefView::Process(process) && w == 1,
        EdgeView::OpenedSocket { process, socket } => a == NodeRefView::Process(process) && b
            == NodeRefView::Socket(socket) && w == 1,
        EdgeView::QueriedDomain { process, domain, count } => a == NodeRefView::Process(process)
            && b == NodeRefView::Domain(domain) && w == count,
    }
}

/// Whether an edge joins two nodes, whichever way it leads.
pub open spec fn joins(e: EdgeView, a: NodeRefView, b: NodeRefView, w: u64) -> bool {
    leads(e, a, b, w) || leads(e, b, a, w)
}

/// A node is listed as a neighbour of another, with a weight, exactly if an edge
/// joins them.
pub proof fn neighbors_are_joined(edges: Seq<EdgeView>, a: NodeRefView, b: NodeRefView, w: u64)
    ensures
        neighbors_of(edges, a).contains((b, w)) <==> exists|i: int|
            0 <= i < edges.len() && joins(#[trigger] edges[i], a, b, w),
    decreases edges.len(),
{
    if edges.len() > 0 {
        let t = edges.drop_last();
        let e = edges.last();
        let n = edges.len() - 1;
        neighbors_are_joined(t, a, b, w);
        let rest = neighbors_of(t, a);
        let all = neighbors_of(edges, a);
        let (x, y, v) = ends(e);
        assert(leads(e, x, y, v));
        assert(joins(e, a, b, w) <==> (x == a && y == b && v == w) || (y == a && x == b && v == w));
        if rest.contains((b, w)) {
            let k = choose|k: int| 0 <= k < rest.len() && rest[k] == (b, w);
            assert(all[k] == (b, w));
            let i = choose|i: int| 0 <= i < t.len() && joins(#[trigger] t[i], a, b, w);
            assert(edges[i] == t[i]);
        }
        if joins(e, a, b, w) {
            assert(edges[n] == e);
            if x == a && y == b {
                assert(all[rest.len() as int] == (b, w));
            } else {
                assert(all[all.len() - 1] == (b, w));
            }
        }
        if all.contains((b, w)) && !rest.contains((b, w)) {
            let k = choose|k: int| 0 <= k < all.len() && all[k] == (b, w);
            if k < rest.len() {
                assert(rest[k] == (b, w));
            }
            assert(joins(edges[n], a, b, w));
        }
        if exists|i: int| 0 <= i < edges.len() && joins(#[trigger] edges[i], a, b, w) {
            let i = choose|i: int| 0 <= i < edges.len() && joins(#[trigger] edges[i], a, b, w);
            if i < n {
                assert(t[i] == edges[i]);
                assert(joins(t[i], a, b, w));
            }
        }
    }
}

/// Whether nodes are the neighbours of a node, each once.
pub open spec fn are_neighbors(ns: Seq<NodeRefView>, edges: Seq<EdgeView>, a: NodeRefView) -> bool {
    ns.no_duplicates() && forall|b: NodeRefView| #[trigger]
        ns.contains(b) <==> exists|i: int, w: u64|
            0 <= i < edges.len() && #[trigger] joins(edges[i], a, b, w)
}

/// A node's degree is the number of nodes that edges join it with, however often
/// they do.
pub proof fn degree_counts_neighbors(edges: Seq<EdgeView>, a: NodeRefView)
    ensures
        exists|ns: Seq<NodeRefView>| #[trigger]
            are_neighbors(ns, edges, a) && degree(neighbors_of(edges, a)) == ns.len(),
{
    let list = neighbors_of(edges, a);
    let names = nodes_of(list);
    let ns = uniques(names);
    uniques_are_distinct(names);
    assert forall|b: NodeRefView| #[trigger]
        ns.contains(b) <==> exists|i: int, w: u64|
            0 <= i < edges.len() && #[trigger] joins(edges[i], a, b, w) by {
        if ns.contains(b) {
            assert(names.contains(b));
            let k = choose|k: int| 0 <= k < names.len() && names[k] == b;
            let w = list[k].1;
            assert(list[k] == (b, w));
            assert(list.contains((b, w)));
            neighbors_are_joined(edges, a, b, w);
            let i = choose|i: int| 0 <= i < edges.len() && joins(#[trigger] edges[i], a, b, w);
            assert(joins(edges[i], a, b, w));
        }
        if exists|i: int, w: u64| 0 <= i < edges.len() && #[trigger] joins(edges[i], a, b, w) {
            let (i, w) = choose|i: int, w: u64|
                0 <= i < edges.len() && #[trigger] joins(edges[i], a, b, w);
            neighbors_are_joined(edges, a, b, w);
            let k = choose|k: int| 0 <= k < list.len() && list[k] == (b, w);
            assert(names[k] == b);
            assert(names.contains(b));
        }
    }
    assert(are_neighbors(ns, edges, a));
}

/// Every node of a graph has an entry, with its neighbours over the edges.
pub proof fn every_node_has_an_entry(g: GraphView, n: NodeRefView)
    ensures
        node_refs(g).contains(n) ==> has_entry(adjacency(g), n),
        forall|i: int|
            0 <= i < adjacency(g).len() ==> (#[trigger] adjacency(g)[i]).1 == neighbors_of(
                g.edges,
                adjacency(g)[i].0,
            ),
{
    let listed = node_refs(g) + all_ends(g.edges);
    let nodes = uniques(listed);
    uniques_are_distinct(listed);
    if node_refs(g).contains(n) {
        let k = choose|k: int| 0 <= k < node_refs(g).len() && node_refs(g)[k] == n;
        assert(listed[k] == n);
        assert(listed.contains(n));
        let i = choose|i: int| 0 <= i < nodes.len() && nodes[i] == n;
        assert(adjacency(g)[i].0 == n);
    }
}

// ---------- changes of shape -------------------------------------------------------

/// Whether a score tells that a node became more connected.
pub open spec fn tells_spike(s: ShapeScoreView, label: Seq<char>, then: u64, now: u64) -> bool {
    &&& s.metric == "degree_spike"@
    &&& s.entity == label
    &&& s.observed == now
    &&& s.baseline == then
    &&& s.score == now - then
}

/// A node is told to have become more connected whenever it has five neighbours
/// more than it had, and nothing is told of a node that has not.
pub proof fn spikes_are_told(
    prev: GraphView,
    curr: GraphView,
    pc: Seq<Seq<NodeRefView>>,
    cc: Seq<Seq<NodeRefView>>,
    i: int,
    s: ShapeScoreView,
)
    requires
        0 <= i < adjacency(curr).len(),
    ensures
        ({
            let (n, list) = adjacency(curr)[i];
            let now = degree(list) as u64;
            let then = degree_in(adjacency(prev), n);
            now - then >= 5 ==> exists|k: int|
                0 <= k < changes(prev, curr, pc, cc).len() && tells_spike(
                    #[trigger] changes(prev, curr, pc, cc)[k],
                    node_label(curr, n),
                    then,
                    now,
                )
        }),
        changes(prev, curr, pc, cc).contains(s) && s.metric == "degree_spike"@ ==> s.observed
            - s.baseline >= 5 && s.score == s.observed - s.baseline,
{
    reveal_strlit("new_component");
    reveal_strlit("component_merge");
    reveal_strlit("degree_spike");
    assert("new_component"@.len() == 13 && "component_merge"@.len() == 15 && "degree_spike"@.len()
        == 12);
    let adj = adjacency(curr);
    let f = spike(prev, curr);
    let a = cc.filter_map(new_cluster(prev, curr));
    let b = cc.filter_map(merged_cluster(prev, pc));
    let c = adj.filter_map(f);
    let all = changes(prev, curr, pc, cc);
    let (n, list) = adj[i];
    let now = degree(list) as u64;
    let then = degree_in(adjacency(prev), n);
    if now - then >= 5 {
        assert(f(adj[i]) is Some);
        filter_map_keeps(adj, f, i);
        let x = f(adj[i])->0;
        let k = choose|k: int| 0 <= k < c.len() && c[k] == x;
        assert(all[a.len() + b.len() + k] == x);
        assert(tells_spike(all[a.len() + b.len() + k], node_label(curr, n), then, now));
    }
    if all.contains(s) && s.metric == "degree_spike"@ {
        let k = choose|k: int| 0 <= k < all.len() && all[k] == s;
        if k < a.len() {
            assert(a[k] == s);
            filter_map_from(cc, new_cluster(prev, curr), k);
        } else if k < a.len() + b.len() {
            assert(b[k - a.len()] == s);
            filter_map_from(cc, merged_cluster(prev, pc), k - a.len());
        } else {
            let m = k - a.len() - b.len();
            assert(c[m] == s);
            filter_map_from(adj, f, m);
        }
    }
}

/// A cluster of two nodes or more, none of which was there before, is told as new
/// with their number; one that has a node from before is not.
pub proof fn new_clusters_are_told(
    prev: GraphView,
    curr: GraphView,
    pc: Seq<Seq<NodeRefView>>,
    cc: Seq<Seq<NodeRefView>>,
    c: int,
)
    requires
        0 <= c < cc.len(),
        cc[c].len() <= u64::MAX,
    ensures
        cc[c].len() >= 2 && (forall|k: int|
            0 <= k < cc[c].len() ==> !has_entry(adjacency(prev), #[trigger] cc[c][k])) ==> exists|
            i: int,
        |
            0 <= i < changes(prev, curr, pc, cc).len() && (#[trigger] changes(
                prev,
                curr,
                pc,
                cc,
            )[i]).metric == "new_component"@ && changes(prev, curr, pc, cc)[i].observed
                == cc[c].len() && changes(prev, curr, pc, cc)[i].baseline == 0,
        cc[c].len() < 2 || (exists|k: int|
            0 <= k < cc[c].len() && has_entry(adjacency(prev), #[trigger] cc[c][k]))
            ==> new_cluster(prev, curr)(cc[c]) is None,
{
    let f = new_cluster(prev, curr);
    let a = cc.filter_map(f);
    if cc[c].len() >= 2 && (forall|k: int|
        0 <= k < cc[c].len() ==> !has_entry(adjacency(prev), #[trigger] cc[c][k])) {
        assert(f(cc[c]) is Some);
        filter_map_keeps(cc, f, c);
        let x = f(cc[c])->0;
        let k = choose|k: int| 0 <= k < a.len() && a[k] == x;
        assert(changes(prev, curr, pc, cc)[k] == x);
    }
}

/// A new cluster is told by the node with the most links in it, the last of those
/// with as many.
pub proof fn sample_is_most_linked(
    adj: Seq<(NodeRefView, Seq<(NodeRefView, u64)>)>,
    c: Seq<NodeRefView>,
)
    requires
        c.len() > 0,
    ensures
        exists|k: int|
            0 <= k < c.len() && #[trigger] c[k] == most_linked(adj, c) && (forall|j: int|
                0 <= j < k ==> links_of(adj, #[trigger] c[j]) <= links_of(adj, c[k])) && (forall|
                j: int,
            |
                k < j < c.len() ==> links_of(adj, #[trigger] c[j]) < links_of(adj, c[k])),
    decreases c.len(),
{
    if c.len() == 1 {
        assert(c[0] == most_linked(adj, c));
    } else {
        let t = c.drop_last();
        let n = c.len() - 1;
        sample_is_most_linked(adj, t);
        let k = choose|k: int|
            0 <= k < t.len() && #[trigger] t[k] == most_linked(adj, t) && (forall|j: int|
                0 <= j < k ==> links_of(adj, #[trigger] t[j]) <= links_of(adj, t[k])) && (forall|
                j: int,
            |
                k < j < t.len() ==> links_of(adj, #[trigger] t[j]) < links_of(adj, t[k]));
        assert forall|j: int| 0 <= j < n implies links_of(adj, #[trigger] c[j]) <= links_of(
            adj,
            t[k],
        ) by {
            assert(c[j] == t[j]);
        }
        if links_of(adj, c[n]) >= links_of(adj, t[k]) {
            assert(c[n] == most_linked(adj, c));
        } else {
            assert(c[k] == most_linked(adj, c));
            assert forall|j: int| k < j < c.len() implies links_of(adj, #[trigger] c[j])
                < links_of(adj, c[k]) by {
                if j < n {
                    assert(c[j] == t[j]);
                }
            }
        }
    }
}

/// A process is told by its command, or else its name, and its number; an
/// application by its name or else its identifier; a connection by its protocol and
/// its remote end; a file by what stands behind its last slash.
pub proof fn nodes_are_labelled(g: GraphView, i: int, id: SocketIdView, name: Seq<char>)
    ensures
        0 <= i < g.processes.len() && (forall|j: int|
            0 <= j < i ==> (#[trigger] g.processes[j]).id != g.processes[i].id) ==> ({
            let p = g.processes[i];
            let t = node_label(g, NodeRefView::Process(p.id));
            &&& p.comm is Some ==> t == p.comm->0 + " (pid "@ + decimal(p.id.pid as nat) + ")"@
            &&& p.comm is None && p.name is Some ==> t == p.name->0 + " (pid "@ + decimal(
                p.id.pid as nat,
            ) + ")"@
            &&& p.comm is None && p.name is None ==> t == "pid "@ + decimal(p.id.pid as nat)
        }),
        0 <= i < g.apps.len() && (forall|j: int|
            0 <= j < i ==> (#[trigger] g.apps[j]).id != g.apps[i].id) ==> node_label(
            g,
            NodeRefView::App(g.apps[i].id),
        ) == if g.apps[i].name is Some {
            g.apps[i].name->0
        } else {
            g.apps[i].id
        },
        node_label(g, NodeRefView::Socket(id)) == id.proto + " "@ + id.foreign_addr,
        node_label(g, NodeRefView::Domain(name)) == name,
{
    if 0 <= i < g.processes.len() && (forall|j: int|
        0 <= j < i ==> (#[trigger] g.processes[j]).id != g.processes[i].id) {
        let p = is_process(g.processes[i].id);
        first_where_is_first(g.processes, p);
        assert(p(g.processes[i]));
        let k = first_where(g.processes, p)->0;
        assert(p(g.processes[k]));
        assert(k == i);
    }
    if 0 <= i < g.apps.len() && (forall|j: int|
        0 <= j < i ==> (#[trigger] g.apps[j]).id != g.apps[i].id) {
        let p = is_app(g.apps[i].id);
        first_where_is_first(g.apps, p);
        assert(p(g.apps[i]));
        let k = first_where(g.apps, p)->0;
        assert(p(g.apps[k]));
        assert(k == i);
    }
}

/// What stands behind the last slash of a path.
pub proof fn files_are_labelled(g: GraphView, dir: Seq<char>, name: Seq<char>)
    requires
        is_free(name, '/'),
    ensures
        node_label(g, NodeRefView::File(dir + seq!['/'] + name)) == name,
        node_label(g, NodeRefView::File(name)) == name,
{
    let slash = seq!['/'];
    let s = dir + slash + name;
    let k = dir.len() as int;
    rfind_is_last(s, slash, s.len() - 1);
    assert(s.subrange(k, k + 1) =~= slash);
    assert(occurs_at(s, slash, k));
    assert forall|j: int| k < j implies !#[trigger] occurs_at(s, slash, j) by {
        if occurs_at(s, slash, j) {
            assert(s.subrange(j, j + 1)[0] == s[j]);
            assert(s[j] == name[j - k - 1]);
        }
    }
    assert(s.skip(k + 1) =~= name);
    rfind_is_last(name, slash, name.len() - 1);
    assert forall|j: int| !#[trigger] occurs_at(name, slash, j) by {
        if occurs_at(name, slash, j) {
            assert(name.subrange(j, j + 1)[0] == name[j]);
        }
    }
}

} // verus!
