//! Facts about the shape of a graph: who is next to whom, how many neighbours
//! a node has, and which nodes hang together.

use vstd::prelude::*;
use vstd::string::*;

use crate::components::{
    components, connected, grouped_by_reach, in_some_group, is_partition, links, number_links,
    number_reach, reach, stands_before, symmetric, together, undirected_groups,
};
use crate::graph::{
    same_socket, AppNode, Edge, EdgeView, Graph, GraphView, ProcessId, ProcessNode, SocketId,
    SocketIdView,
};
use crate::graph_builder::{is_app, is_process};
use crate::seqs::{
    distinct_by, filter_map_from, filter_map_keeps, filter_map_start, filter_map_step,
    first_where, first_where_from, push_item, sum_of, take_all, uniques, uniques_are_distinct,
};
use crate::text::{basename, basename_of, decimal, push_u64, str_eq};

verus! {

/// A node of any kind.
#[derive(Debug, PartialEq, Eq, Hash)]
pub enum NodeRef {
    Process(ProcessId),
    App(String),
    Socket(SocketId),
    File(String),
    Domain(String),
}

/// What a `NodeRef` refers to.
pub enum NodeRefView {
    Process(ProcessId),
    App(Seq<char>),
    Socket(SocketIdView),
    File(Seq<char>),
    Domain(Seq<char>),
}

impl DeepView for NodeRef {
    type V = NodeRefView;

    open spec fn deep_view(&self) -> NodeRefView {
        match self {
            NodeRef::Process(id) => NodeRefView::Process(*id),
            NodeRef::App(s) => NodeRefView::App(s@),
            NodeRef::Socket(id) => NodeRefView::Socket(id.deep_view()),
            NodeRef::File(s) => NodeRefView::File(s@),
            NodeRef::Domain(s) => NodeRefView::Domain(s@),
        }
    }
}

impl Clone for NodeRef {
    fn clone(&self) -> (r: Self)
        ensures
            r.deep_view() == self.deep_view(),
    {
        match self {
            NodeRef::Process(id) => NodeRef::Process(*id),
            NodeRef::App(s) => NodeRef::App(s.clone()),
            NodeRef::Socket(id) => NodeRef::Socket(id.clone()),
            NodeRef::File(s) => NodeRef::File(s.clone()),
            NodeRef::Domain(s) => NodeRef::Domain(s.clone()),
        }
    }
}

/// Whether two references are to the same node.
pub fn same_node(a: &NodeRef, b: &NodeRef) -> (r: bool)
    ensures
        r == (a.deep_view() == b.deep_view()),
{
    match (a, b) {
        (NodeRef::Process(x), NodeRef::Process(y)) => *x == *y,
        (NodeRef::App(x), NodeRef::App(y)) => str_eq(x.as_str(), y.as_str()),
        (NodeRef::Socket(x), NodeRef::Socket(y)) => same_socket(x, y),
        (NodeRef::File(x), NodeRef::File(y)) => str_eq(x.as_str(), y.as_str()),
        (NodeRef::Domain(x), NodeRef::Domain(y)) => str_eq(x.as_str(), y.as_str()),
        _ => false,
    }
}

// ---------- labels -----------------------------------------------------------------

/// The first of two texts that is there.
pub open spec fn either(a: Option<Seq<char>>, b: Option<Seq<char>>) -> Option<Seq<char>> {
    if a is Some {
        a
    } else {
        b
    }
}

/// What a process is called: its name and id where the graph knows a name,
/// else its id.
pub open spec fn process_label(g: GraphView, id: ProcessId) -> Seq<char> {
    let name = match first_where(g.processes, is_process(id)) {
        Some(i) => either(g.processes[i].comm, g.processes[i].name),
        None => None,
    };
    match name {
        Some(s) => s + " (pid "@ + decimal(id.pid as nat) + ")"@,
        None => "pid "@ + decimal(id.pid as nat),
    }
}

/// What a node is called.
pub open spec fn node_label(g: GraphView, n: NodeRefView) -> Seq<char> {
    match n {
        NodeRefView::Process(id) => process_label(g, id),
        NodeRefView::App(id) => match first_where(g.apps, is_app(id)) {
            Some(i) => match g.apps[i].name {
                Some(s) => s,
                None => id,
            },
            None => id,
        },
        NodeRefView::Socket(id) => id.proto + " "@ + id.foreign_addr,
        NodeRefView::File(path) => basename(path),
        NodeRefView::Domain(name) => name,
    }
}

impl NodeRef {
    /// What the node is called: a process by its name and id, an application
    /// by its name, a connection by protocol and foreign address, a file by
    /// the last part of its path.
    pub fn label(&self, graph: &Graph) -> (r: String)
        ensures
            r@ == node_label(graph.deep_view(), self.deep_view()),
    {
        match self {
            NodeRef::Process(id) => label_of_process(graph, *id),
            NodeRef::App(id) => {
                let ghost all = graph.apps.deep_view();
                let mut i: usize = 0;
                while i < graph.apps.len()
                    invariant
                        all == graph.apps.deep_view(),
                        self.deep_view() == NodeRefView::App(id@),
                        i <= graph.apps@.len(),
                        first_where(all, is_app(id@)) == first_where_from(all, is_app(id@), i as int),
                    decreases graph.apps@.len() - i,
                {
                    let a: &AppNode = &graph.apps[i];
                    assert(all[i as int] == a.deep_view());
                    if str_eq(a.id.as_str(), id.as_str()) {
                        return match &a.name {
                            Some(s) => s.clone(),
                            None => id.clone(),
                        };
                    }
                    i = i + 1;
                }
                id.clone()
            },
            NodeRef::Socket(id) => {
                let mut s = id.proto.clone();
                s.append(" ");
                s.append(id.foreign_addr.as_str());
                s
            },
            NodeRef::File(path) => basename_of(path.as_str()),
            NodeRef::Domain(name) => name.clone(),
        }
    }
}

fn label_of_process(graph: &Graph, id: ProcessId) -> (r: String)
    ensures
        r@ == process_label(graph.deep_view(), id),
{
    let ghost all = graph.processes.deep_view();
    let mut i: usize = 0;
    while i < graph.processes.len()
        invariant
            all == graph.processes.deep_view(),
            i <= graph.processes@.len(),
            first_where(all, is_process(id)) == first_where_from(all, is_process(id), i as int),
        decreases graph.processes@.len() - i,
    {
        let p: &ProcessNode = &graph.processes[i];
        assert(all[i as int] == p.deep_view());
        if p.id == id {
            let name: Option<&String> = match &p.comm {
                Some(s) => Some(s),
                None => match &p.name {
                    Some(s) => Some(s),
                    None => None,
                },
            };
            return match name {
                Some(s) => {
                    let mut r = s.clone();
                    r.append(" (pid ");
                    push_u64(&mut r, id.pid as u64);
                    r.append(")");
                    r
                },
                None => pid_label(id.pid),
            };
        }
        i = i + 1;
    }
    pid_label(id.pid)
}

fn pid_label(pid: u32) -> (r: String)
    ensures
        r@ == "pid "@ + decimal(pid as nat),
{
    let mut r = "pid ".to_owned();
    push_u64(&mut r, pid as u64);
    r
}

// ---------- adjacency --------------------------------------------------------------

/// The two ends of an edge, and its weight.
pub open spec fn ends(e: EdgeView) -> (NodeRefView, NodeRefView, u64) {
    match e {
        EdgeView::ParentOf { parent, child } => (
            NodeRefView::Process(parent),
            NodeRefView::Process(child),
            1,
        ),
        EdgeView::FrontmostDuring { app, process, overlap } => (
            NodeRefView::App(app),
            NodeRefView::Process(process),
            1,
        ),
        EdgeView::OpenedSocket { process, socket } => (
            NodeRefView::Process(process),
            NodeRefView::Socket(socket),
            1,
        ),
        EdgeView::QueriedDomain { process, domain, count } => (
            NodeRefView::Process(process),
            NodeRefView::Domain(domain),
            count,
        ),
    }
}

/// The ends of edges, one edge after the other.
pub open spec fn all_ends(edges: Seq<EdgeView>) -> Seq<NodeRefView>
    decreases edges.len(),
{
    if edges.len() == 0 {
        Seq::empty()
    } else {
        all_ends(edges.drop_last()).push(ends(edges.last()).0).push(ends(edges.last()).1)
    }
}

/// The nodes of a graph.
pub open spec fn node_refs(g: GraphView) -> Seq<NodeRefView> {
    Seq::new(g.processes.len(), |i: int| NodeRefView::Process(g.processes[i].id)) + Seq::new(
        g.apps.len(),
        |i: int| NodeRefView::App(g.apps[i].id),
    ) + Seq::new(g.sockets.len(), |i: int| NodeRefView::Socket(g.sockets[i].id)) + Seq::new(
        g.files.len(),
        |i: int| NodeRefView::File(g.files[i].path),
    ) + Seq::new(g.domains.len(), |i: int| NodeRefView::Domain(g.domains[i].name))
}

/// The neighbours of a node over edges, with the weights, in the order of the
/// edges.
pub open spec fn neighbors_of(edges: Seq<EdgeView>, n: NodeRefView) -> Seq<(NodeRefView, u64)>
    decreases edges.len(),
{
    if edges.len() == 0 {
        Seq::empty()
    } else {
        let rest = neighbors_of(edges.drop_last(), n);
        let (a, b, w) = ends(edges.last());
        let one = if a == n {
            rest.push((b, w))
        } else {
            rest
        };
        if b == n {
            one.push((a, w))
        } else {
            one
        }
    }
}

/// Every node of a graph, and every end of an edge, with its neighbours.
pub open spec fn adjacency(g: GraphView) -> Seq<(NodeRefView, Seq<(NodeRefView, u64)>)> {
    let nodes = uniques(node_refs(g) + all_ends(g.edges));
    Seq::new(nodes.len(), |i: int| (nodes[i], neighbors_of(g.edges, nodes[i])))
}

/// The undirected projection of a graph: every node with its neighbours.
#[derive(Debug)]
pub struct Adjacency {
    pub neighbors: Vec<(NodeRef, Vec<(NodeRef, u64)>)>,
}

/// An entry's node.
pub open spec fn entry_node() -> spec_fn((NodeRefView, Seq<(NodeRefView, u64)>)) -> NodeRefView {
    |e: (NodeRefView, Seq<(NodeRefView, u64)>)| e.0
}

/// Whether one node lists another as its neighbour.
pub open spec fn lists(
    adj: Seq<(NodeRefView, Seq<(NodeRefView, u64)>)>,
    i: int,
    b: NodeRefView,
) -> bool {
    exists|k: int| 0 <= k < adj[i].1.len() && (#[trigger] adj[i].1[k]).0 == b
}

/// The links of an adjacency.
pub open spec fn neighbor_links(adj: Seq<(NodeRefView, Seq<(NodeRefView, u64)>)>) -> spec_fn(
    NodeRefView,
    NodeRefView,
) -> bool {
    |a: NodeRefView, b: NodeRefView|
        exists|i: int| 0 <= i < adj.len() && (#[trigger] adj[i]).0 == a && lists(adj, i, b)
}

/// Whether a node has an entry.
pub open spec fn has_entry(
    adj: Seq<(NodeRefView, Seq<(NodeRefView, u64)>)>,
    n: NodeRefView,
) -> bool {
    exists|i: int| 0 <= i < adj.len() && (#[trigger] adj[i]).0 == n
}

/// Each node has one entry, and every neighbour has one.
pub open spec fn is_closed(adj: Seq<(NodeRefView, Seq<(NodeRefView, u64)>)>) -> bool {
    &&& distinct_by(adj, entry_node())
    &&& forall|i: int, k: int|
        0 <= i < adj.len() && 0 <= k < adj[i].1.len() ==> has_entry(
            adj,
            (#[trigger] adj[i].1[k]).0,
        )
}

/// Each node has one entry, every neighbour has one, and neighbours are
/// neighbours of each other.
pub open spec fn adjacency_wf(adj: Seq<(NodeRefView, Seq<(NodeRefView, u64)>)>) -> bool {
    is_closed(adj) && symmetric(neighbor_links(adj))
}

/// The nodes that entries list as neighbours.
pub open spec fn listed(adj: Seq<(NodeRefView, Seq<(NodeRefView, u64)>)>) -> Seq<NodeRefView>
    decreases adj.len(),
{
    if adj.len() == 0 {
        Seq::empty()
    } else {
        listed(adj.drop_last()) + adj.last().1.map_values(|p: (NodeRefView, u64)| p.0)
    }
}

/// A node, if it has no entry.
pub open spec fn without_entry(adj: Seq<(NodeRefView, Seq<(NodeRefView, u64)>)>) -> spec_fn(
    NodeRefView,
) -> Option<NodeRefView> {
    |n: NodeRefView|
        if has_entry(adj, n) {
            None
        } else {
            Some(n)
        }
}

/// An entry without neighbours.
pub open spec fn bare_entry() -> spec_fn(NodeRefView) -> (NodeRefView, Seq<(NodeRefView, u64)>) {
    |n: NodeRefView| (n, Seq::<(NodeRefView, u64)>::empty())
}

/// An adjacency with an entry of its own for every neighbour that has none.
pub open spec fn completed(adj: Seq<(NodeRefView, Seq<(NodeRefView, u64)>)>) -> Seq<
    (NodeRefView, Seq<(NodeRefView, u64)>),
> {
    adj + uniques(listed(adj)).filter_map(without_entry(adj)).map_values(bare_entry())
}

/// The two ends of an edge, and its weight.
fn ends_of(e: &Edge) -> (r: (NodeRef, NodeRef, u64))
    ensures
        (r.0.deep_view(), r.1.deep_view(), r.2) == ends(e.deep_view()),
{
    match e {
        Edge::ParentOf { parent, child } => (NodeRef::Process(*parent), NodeRef::Process(*child), 1),
        Edge::FrontmostDuring { app, process, overlap: _ } => (
            NodeRef::App(app.clone()),
            NodeRef::Process(*process),
            1,
        ),
        Edge::OpenedSocket { process, socket } => (
            NodeRef::Process(*process),
            NodeRef::Socket(socket.clone()),
            1,
        ),
        Edge::QueriedDomain { process, domain, count } => (
            NodeRef::Process(*process),
            NodeRef::Domain(domain.clone()),
            *count,
        ),
    }
}

/// Whether a list has a node.
pub(crate) fn has_node(v: &Vec<NodeRef>, n: &NodeRef) -> (r: bool)
    ensures
        r == v.deep_view().contains(n.deep_view()),
{
    let ghost all = v.deep_view();
    let mut i: usize = 0;
    while i < v.len()
        invariant
            all == v.deep_view(),
            i <= v@.len(),
            forall|k: int| 0 <= k < i ==> all[k] != n.deep_view(),
        decreases v@.len() - i,
    {
        assert(all[i as int] == v@[i as int].deep_view());
        if same_node(&v[i], n) {
            return true;
        }
        i = i + 1;
    }
    false
}

/// The nodes in the order of their first occurrence, each once.
fn unique_nodes(v: &Vec<NodeRef>) -> (r: Vec<NodeRef>)
    ensures
        r.deep_view() == uniques(v.deep_view()),
{
    let ghost all = v.deep_view();
    let mut out: Vec<NodeRef> = Vec::new();
    let mut i: usize = 0;
    assert(out.deep_view() =~= uniques(all.take(0)));
    while i < v.len()
        invariant
            all == v.deep_view(),
            i <= v@.len(),
            out.deep_view() == uniques(all.take(i as int)),
        decreases v@.len() - i,
    {
        assert(all.take(i + 1).drop_last() =~= all.take(i as int));
        assert(all.take(i + 1).last() == v@[i as int].deep_view());
        if !has_node(&out, &v[i]) {
            push_item(&mut out, v[i].clone());
        }
        i = i + 1;
    }
    proof {
        take_all(all);
    }
    out
}

/// The nodes of a graph, and then the ends of its edges.
fn list_nodes(g: &Graph) -> (r: Vec<NodeRef>)
    ensures
        r.deep_view() == node_refs(g.deep_view()) + all_ends(g.deep_view().edges),
{
    let ghost gv = g.deep_view();
    let ghost ps = Seq::new(gv.processes.len(), |i: int| NodeRefView::Process(gv.processes[i].id));
    let ghost aps = Seq::new(gv.apps.len(), |i: int| NodeRefView::App(gv.apps[i].id));
    let ghost ss = Seq::new(gv.sockets.len(), |i: int| NodeRefView::Socket(gv.sockets[i].id));
    let ghost fs = Seq::new(gv.files.len(), |i: int| NodeRefView::File(gv.files[i].path));
    let ghost ds = Seq::new(gv.domains.len(), |i: int| NodeRefView::Domain(gv.domains[i].name));
    let mut out: Vec<NodeRef> = Vec::new();
    let mut i: usize = 0;
    assert(out.deep_view() =~= ps.take(0));
    while i < g.processes.len()
        invariant
            i <= g.processes@.len(),
            gv == g.deep_view(),
            ps == Seq::new(gv.processes.len(), |i: int| NodeRefView::Process(gv.processes[i].id)),
            out.deep_view() == ps.take(i as int),
        decreases g.processes@.len() - i,
    {
        push_item(&mut out, NodeRef::Process(g.processes[i].id));
        assert(ps.take(i as int).push(ps[i as int]) =~= ps.take(i + 1));
        i = i + 1;
    }
    let ghost done = ps;
    assert(out.deep_view() =~= done + aps.take(0));
    i = 0;
    while i < g.apps.len()
        invariant
            i <= g.apps@.len(),
            gv == g.deep_view(),
            aps == Seq::new(gv.apps.len(), |i: int| NodeRefView::App(gv.apps[i].id)),
            out.deep_view() == done + aps.take(i as int),
        decreases g.apps@.len() - i,
    {
        push_item(&mut out, NodeRef::App(g.apps[i].id.clone()));
        assert((done + aps.take(i as int)).push(aps[i as int]) =~= done + aps.take(i + 1));
        i = i + 1;
    }
    let ghost done = ps + aps;
    assert(out.deep_view() =~= done + ss.take(0));
    i = 0;
    while i < g.sockets.len()
        invariant
            i <= g.sockets@.len(),
            gv == g.deep_view(),
            ss == Seq::new(gv.sockets.len(), |i: int| NodeRefView::Socket(gv.sockets[i].id)),
            out.deep_view() == done + ss.take(i as int),
        decreases g.sockets@.len() - i,
    {
        push_item(&mut out, NodeRef::Socket(g.sockets[i].id.clone()));
        assert((done + ss.take(i as int)).push(ss[i as int]) =~= done + ss.take(i + 1));
        i = i + 1;
    }
    let ghost done = ps + aps + ss;
    assert(out.deep_view() =~= done + fs.take(0));
    i = 0;
    while i < g.files.len()
        invariant
            i <= g.files@.len(),
            gv == g.deep_view(),
            fs == Seq::new(gv.files.len(), |i: int| NodeRefView::File(gv.files[i].path)),
            out.deep_view() == done + fs.take(i as int),
        decreases g.files@.len() - i,
    {
        push_item(&mut out, NodeRef::File(g.files[i].path.clone()));
        assert((done + fs.take(i as int)).push(fs[i as int]) =~= done + fs.take(i + 1));
        i = i + 1;
    }
    let ghost done = ps + aps + ss + fs;
    assert(out.deep_view() =~= done + ds.take(0));
    i = 0;
    while i < g.domains.len()
        invariant
            i <= g.domains@.len(),
            gv == g.deep_view(),
            ds == Seq::new(gv.domains.len(), |i: int| NodeRefView::Domain(gv.domains[i].name)),
            out.deep_view() == done + ds.take(i as int),
        decreases g.domains@.len() - i,
    {
        push_item(&mut out, NodeRef::Domain(g.domains[i].name.clone()));
        assert((done + ds.take(i as int)).push(ds[i as int]) =~= done + ds.take(i + 1));
        i = i + 1;
    }
    let ghost es = gv.edges;
    let ghost done = node_refs(gv);
    assert(out.deep_view() =~= done + all_ends(es.take(0)));
    i = 0;
    while i < g.edges.len()
        invariant
            i <= g.edges@.len(),
            gv == g.deep_view(),
            es == gv.edges,
            out.deep_view() == done + all_ends(es.take(i as int)),
        decreases g.edges@.len() - i,
    {
        assert(es.take(i + 1).drop_last() =~= es.take(i as int));
        let (a, b, _) = ends_of(&g.edges[i]);
        let ghost av = a.deep_view();
        let ghost bv = b.deep_view();
        let ghost sofar = all_ends(es.take(i as int));
        push_item(&mut out, a);
        push_item(&mut out, b);
        assert((done + sofar).push(av).push(bv) =~= done + sofar.push(av).push(bv));
        i = i + 1;
    }
    proof {
        take_all(es);
    }
    out
}

/// The neighbours of a node over a graph's edges.
fn list_neighbors(edges: &Vec<Edge>, n: &NodeRef) -> (r: Vec<(NodeRef, u64)>)
    ensures
        r.deep_view() == neighbors_of(edges.deep_view(), n.deep_view()),
{
    let ghost es = edges.deep_view();
    let mut out: Vec<(NodeRef, u64)> = Vec::new();
    let mut i: usize = 0;
    assert(out.deep_view() =~= neighbors_of(es.take(0), n.deep_view()));
    while i < edges.len()
        invariant
            es == edges.deep_view(),
            i <= edges@.len(),
            out.deep_view() == neighbors_of(es.take(i as int), n.deep_view()),
        decreases edges@.len() - i,
    {
        assert(es.take(i + 1).drop_last() =~= es.take(i as int));
        let (a, b, w) = ends_of(&edges[i]);
        let at_a: bool = same_node(&a, n);
        let at_b: bool = same_node(&b, n);
        if at_a {
            push_item(&mut out, (b.clone(), w));
        }
        if at_b {
            push_item(&mut out, (a, w));
        }
        i = i + 1;
    }
    proof {
        take_all(es);
    }
    out
}

impl Adjacency {
    /// Projects a graph: every node of it, and every end of an edge, with its
    /// neighbours.
    pub fn from_graph(graph: &Graph) -> (r: Self)
        ensures
            r.neighbors.deep_view() == adjacency(graph.deep_view()),
            adjacency_wf(r.neighbors.deep_view()),
    {
        let nodes = unique_nodes(&list_nodes(graph));
        let ghost nv = nodes.deep_view();
        let ghost want = adjacency(graph.deep_view());
        let mut out: Vec<(NodeRef, Vec<(NodeRef, u64)>)> = Vec::new();
        let mut i: usize = 0;
        assert(out.deep_view() =~= want.take(0));
        while i < nodes.len()
            invariant
                nv == nodes.deep_view(),
                want == Seq::new(
                    nv.len(),
                    |i: int| (nv[i], neighbors_of(graph.deep_view().edges, nv[i])),
                ),
                i <= nodes@.len(),
                out.deep_view() == want.take(i as int),
            decreases nodes@.len() - i,
        {
            assert(nv[i as int] == nodes@[i as int].deep_view());
            push_item(&mut out, (nodes[i].clone(), list_neighbors(&graph.edges, &nodes[i])));
            assert(want.take(i as int).push(want[i as int]) =~= want.take(i + 1));
            i = i + 1;
        }
        proof {
            take_all(want);
            adjacency_is_wf(graph.deep_view());
        }
        Adjacency { neighbors: out }
    }
}

// ---------- centrality -------------------------------------------------------------

/// The nodes of a list of neighbours.
pub open spec fn nodes_of(ns: Seq<(NodeRefView, u64)>) -> Seq<NodeRefView> {
    Seq::new(ns.len(), |i: int| ns[i].0)
}

/// The weight of a neighbour.
pub open spec fn weight() -> spec_fn((NodeRefView, u64)) -> int {
    |n: (NodeRefView, u64)| n.1 as int
}

/// The number of distinct neighbours.
pub open spec fn degree(ns: Seq<(NodeRefView, u64)>) -> nat {
    uniques(nodes_of(ns)).len()
}

/// The number of distinct neighbours of each node.
pub fn degree_centrality(adj: &Adjacency) -> (r: Vec<(NodeRef, u64)>)
    ensures
        r.deep_view() == Seq::new(
            adj.neighbors.deep_view().len(),
            |i: int|
                (adj.neighbors.deep_view()[i].0, degree(adj.neighbors.deep_view()[i].1) as u64),
        ),
{
    let ghost av = adj.neighbors.deep_view();
    let ghost want = Seq::new(av.len(), |i: int| (av[i].0, degree(av[i].1) as u64));
    let mut out: Vec<(NodeRef, u64)> = Vec::new();
    let mut i: usize = 0;
    assert(out.deep_view() =~= want.take(0));
    while i < adj.neighbors.len()
        invariant
            av == adj.neighbors.deep_view(),
            want == Seq::new(av.len(), |i: int| (av[i].0, degree(av[i].1) as u64)),
            i <= adj.neighbors@.len(),
            out.deep_view() == want.take(i as int),
        decreases adj.neighbors@.len() - i,
    {
        let e: &(NodeRef, Vec<(NodeRef, u64)>) = &adj.neighbors[i];
        assert(av[i as int] == (e.0.deep_view(), e.1.deep_view()));
        let d: usize = count_distinct(&e.1);
        push_item(&mut out, (e.0.clone(), d as u64));
        assert(want.take(i as int).push(want[i as int]) =~= want.take(i + 1));
        i = i + 1;
    }
    proof {
        take_all(want);
    }
    out
}

/// The number of distinct neighbours.
fn count_distinct(ns: &Vec<(NodeRef, u64)>) -> (r: usize)
    ensures
        r == degree(ns.deep_view()),
{
    let ghost want = nodes_of(ns.deep_view());
    let mut nodes: Vec<NodeRef> = Vec::new();
    let mut i: usize = 0;
    assert(nodes.deep_view() =~= want.take(0));
    while i < ns.len()
        invariant
            want == nodes_of(ns.deep_view()),
            i <= ns@.len(),
            nodes.deep_view() == want.take(i as int),
        decreases ns@.len() - i,
    {
        push_item(&mut nodes, ns[i].0.clone());
        assert(want.take(i as int).push(want[i as int]) =~= want.take(i + 1));
        i = i + 1;
    }
    proof {
        take_all(want);
    }
    let u = unique_nodes(&nodes);
    u.len()
}

/// A total that wraps around at the largest `u64`.
pub open spec fn wrapped(n: int) -> u64 {
    (n % 0x1_0000_0000_0000_0000) as u64
}

/// The sum of the weights of each node's neighbours. Weights count repeated
/// observations of one relation, so this says less than the number of
/// neighbours.
pub fn weighted_degree_centrality(adj: &Adjacency) -> (r: Vec<(NodeRef, u64)>)
    ensures
        r.deep_view() == Seq::new(
            adj.neighbors.deep_view().len(),
            |i: int|
                (
                    adj.neighbors.deep_view()[i].0,
                    wrapped(sum_of(adj.neighbors.deep_view()[i].1, weight())),
                ),
        ),
{
    let ghost av = adj.neighbors.deep_view();
    let ghost want = Seq::new(av.len(), |i: int| (av[i].0, wrapped(sum_of(av[i].1, weight()))));
    let mut out: Vec<(NodeRef, u64)> = Vec::new();
    let mut i: usize = 0;
    assert(out.deep_view() =~= want.take(0));
    while i < adj.neighbors.len()
        invariant
            av == adj.neighbors.deep_view(),
            want == Seq::new(av.len(), |i: int| (av[i].0, wrapped(sum_of(av[i].1, weight())))),
            i <= adj.neighbors@.len(),
            out.deep_view() == want.take(i as int),
        decreases adj.neighbors@.len() - i,
    {
        let e: &(NodeRef, Vec<(NodeRef, u64)>) = &adj.neighbors[i];
        assert(av[i as int] == (e.0.deep_view(), e.1.deep_view()));
        let ghost ns = e.1.deep_view();
        let mut sum: u64 = 0;
        let mut k: usize = 0;
        while k < e.1.len()
            invariant
                ns == e.1.deep_view(),
                k <= e.1@.len(),
                sum == sum_of(ns.take(k as int), weight()) % 0x1_0000_0000_0000_0000,
            decreases e.1@.len() - k,
        {
            assert(ns.take(k + 1).drop_last() =~= ns.take(k as int));
            assert(ns.take(k + 1).last() == e.1@[k as int].deep_view());
            let w: u64 = e.1[k].1;
            let ghost before = sum_of(ns.take(k as int), weight());
            sum = sum.wrapping_add(w);
            proof {
                vstd::arithmetic::div_mod::lemma_add_mod_noop(
                    before,
                    w as int,
                    0x1_0000_0000_0000_0000,
                );
                vstd::arithmetic::div_mod::lemma_small_mod(w as nat, 0x1_0000_0000_0000_0000);
            }
            k = k + 1;
        }
        proof {
            take_all(ns);
        }
        push_item(&mut out, (e.0.clone(), sum));
        assert(want.take(i as int).push(want[i as int]) =~= want.take(i + 1));
        i = i + 1;
    }
    proof {
        take_all(want);
    }
    out
}

// ---------- components -------------------------------------------------------------

/// Whether components part the nodes of an adjacency: none is empty, every
/// node stands in exactly one of them, once, and nothing else does.
pub open spec fn parts(
    adj: Seq<(NodeRefView, Seq<(NodeRefView, u64)>)>,
    cs: Seq<Seq<NodeRefView>>,
) -> bool {
    &&& forall|c: int| 0 <= c < cs.len() ==> (#[trigger] cs[c]).len() > 0 && cs[c].no_duplicates()
    &&& forall|c: int, k: int|
        0 <= c < cs.len() && 0 <= k < cs[c].len() ==> has_entry(adj, #[trigger] cs[c][k])
    &&& forall|c: int, d: int, x: NodeRefView|
        0 <= c < cs.len() && 0 <= d < cs.len() && #[trigger] cs[c].contains(x)
            && #[trigger] cs[d].contains(x) ==> c == d
    &&& forall|i: int| 0 <= i < adj.len() ==> in_some_component(cs, (#[trigger] adj[i]).0)
}

/// Whether a node stands in a component.
pub open spec fn in_some_component(cs: Seq<Seq<NodeRefView>>, x: NodeRefView) -> bool {
    exists|c: int| 0 <= c < cs.len() && (#[trigger] cs[c]).contains(x)
}

/// The position of a node's entry.
pub open spec fn is_entry(n: NodeRefView) -> spec_fn(
    (NodeRefView, Seq<(NodeRefView, u64)>),
) -> bool {
    |e: (NodeRefView, Seq<(NodeRefView, u64)>)| e.0 == n
}

fn find_entry(adj: &Adjacency, n: &NodeRef) -> (r: Option<usize>)
    ensures
        match r {
            Some(i) => i < adj.neighbors@.len() && adj.neighbors.deep_view()[i as int].0
                == n.deep_view(),
            None => !has_entry(adj.neighbors.deep_view(), n.deep_view()),
        },
{
    let ghost all = adj.neighbors.deep_view();
    let mut i: usize = 0;
    while i < adj.neighbors.len()
        invariant
            all == adj.neighbors.deep_view(),
            i <= adj.neighbors@.len(),
            forall|k: int| 0 <= k < i ==> (#[trigger] all[k]).0 != n.deep_view(),
        decreases adj.neighbors@.len() - i,
    {
        assert(all[i as int].0 == adj.neighbors@[i as int].0.deep_view());
        if same_node(&adj.neighbors[i].0, n) {
            return Some(i);
        }
        i = i + 1;
    }
    None
}

/// Whether numbered neighbours are those of an adjacency.
spec fn numbered(
    adj: Seq<(NodeRefView, Seq<(NodeRefView, u64)>)>,
    nbrs: Seq<Seq<usize>>,
) -> bool {
    &&& nbrs.len() == adj.len()
    &&& forall|i: int| 0 <= i < adj.len() ==> (#[trigger] nbrs[i]).len() == adj[i].1.len()
    &&& forall|i: int, k: int|
        0 <= i < adj.len() && 0 <= k < adj[i].1.len() ==> (#[trigger] nbrs[i][k]) < adj.len()
            && adj[nbrs[i][k] as int].0 == adj[i].1[k].0
}

proof fn numbered_links(
    adj: Seq<(NodeRefView, Seq<(NodeRefView, u64)>)>,
    nbrs: Seq<Seq<usize>>,
    i: int,
    j: int,
)
    requires
        is_closed(adj),
        numbered(adj, nbrs),
        adj.len() <= usize::MAX,
        0 <= i < adj.len(),
        0 <= j < adj.len(),
    ensures
        links(nbrs)(i, j) <==> neighbor_links(adj)(adj[i].0, adj[j].0),
{
    if links(nbrs)(i, j) {
        let k = choose|k: int| 0 <= k < nbrs[i].len() && nbrs[i][k] == j as usize;
        assert(adj[nbrs[i][k] as int].0 == adj[i].1[k].0);
        assert(lists(adj, i, adj[j].0));
    }
    if neighbor_links(adj)(adj[i].0, adj[j].0) {
        let m = choose|m: int|
            0 <= m < adj.len() && (#[trigger] adj[m]).0 == adj[i].0 && lists(adj, m, adj[j].0);
        if m != i {
            assert(entry_node()(adj[m]) != entry_node()(adj[i]));
        }
        let k = choose|k: int| 0 <= k < adj[i].1.len() && (#[trigger] adj[i].1[k]).0 == adj[j].0;
        let q = nbrs[i][k] as int;
        assert(adj[q].0 == adj[j].0);
        if q != j {
            assert(entry_node()(adj[q]) != entry_node()(adj[j]));
        }
        assert(nbrs[i][k] == j as usize);
    }
}

proof fn numbered_reach(
    adj: Seq<(NodeRefView, Seq<(NodeRefView, u64)>)>,
    nbrs: Seq<Seq<usize>>,
    i: int,
    j: int,
    k: nat,
)
    requires
        is_closed(adj),
        numbered(adj, nbrs),
        adj.len() <= usize::MAX,
        0 <= i < adj.len(),
        0 <= j < adj.len(),
    ensures
        reach(links(nbrs), i, j, k) <==> reach(neighbor_links(adj), adj[i].0, adj[j].0, k),
    decreases k,
{
    if k == 0 {
        if i != j {
            if i < j {
                assert(entry_node()(adj[i]) != entry_node()(adj[j]));
            } else {
                assert(entry_node()(adj[j]) != entry_node()(adj[i]));
            }
        }
    } else {
        let l = (k - 1) as nat;
        if reach(links(nbrs), i, j, k) {
            let m = choose|m: int| #[trigger] links(nbrs)(i, m) && reach(links(nbrs), m, j, l);
            numbered_links(adj, nbrs, i, m);
            numbered_reach(adj, nbrs, m, j, l);
            assert(neighbor_links(adj)(adj[i].0, adj[m].0));
        }
        if reach(neighbor_links(adj), adj[i].0, adj[j].0, k) {
            let x = choose|x: NodeRefView| #[trigger]
                neighbor_links(adj)(adj[i].0, x) && reach(neighbor_links(adj), x, adj[j].0, l);
            let a = choose|a: int|
                0 <= a < adj.len() && (#[trigger] adj[a]).0 == adj[i].0 && lists(adj, a, x);
            let q = choose|q: int| 0 <= q < adj[a].1.len() && (#[trigger] adj[a].1[q]).0 == x;
            assert(has_entry(adj, adj[a].1[q].0));
            let m = choose|m: int| 0 <= m < adj.len() && (#[trigger] adj[m]).0 == x;
            numbered_links(adj, nbrs, i, m);
            numbered_reach(adj, nbrs, m, j, l);
            assert(links(nbrs)(i, m));
        }
    }
}

/// The neighbours of each entry, by the positions of their own entries.
fn number_neighbors(adj: &Adjacency) -> (r: Vec<Vec<usize>>)
    requires
        is_closed(adj.neighbors.deep_view()),
    ensures
        numbered(adj.neighbors.deep_view(), r.deep_view()),
{
    let ghost av = adj.neighbors.deep_view();
    let n: usize = adj.neighbors.len();
    let mut out: Vec<Vec<usize>> = Vec::new();
    let mut i: usize = 0;
    while i < n
        invariant
            n == adj.neighbors@.len(),
            av == adj.neighbors.deep_view(),
            is_closed(av),
            i <= n,
            out@.len() == i,
            forall|q: int| 0 <= q < i ==> (#[trigger] out.deep_view()[q]).len() == av[q].1.len(),
            forall|q: int, k: int|
                0 <= q < i && 0 <= k < av[q].1.len() ==> (#[trigger] out.deep_view()[q][k]) < n
                    && av[out.deep_view()[q][k] as int].0 == av[q].1[k].0,
        decreases n - i,
    {
        let e: &(NodeRef, Vec<(NodeRef, u64)>) = &adj.neighbors[i];
        assert(av[i as int] == (e.0.deep_view(), e.1.deep_view()));
        let mut row: Vec<usize> = Vec::new();
        let mut k: usize = 0;
        while k < e.1.len()
            invariant
                n == adj.neighbors@.len(),
                av == adj.neighbors.deep_view(),
                is_closed(av),
                i < n,
                av[i as int] == (e.0.deep_view(), e.1.deep_view()),
                k <= e.1@.len(),
                row@.len() == k,
                forall|q: int|
                    0 <= q < k ==> (#[trigger] row@[q]) < n && av[row@[q] as int].0
                        == av[i as int].1[q].0,
            decreases e.1@.len() - k,
        {
            assert(av[i as int].1[k as int].0 == e.1@[k as int].0.deep_view());
            assert(has_entry(av, av[i as int].1[k as int].0));
            match find_entry(adj, &e.1[k].0) {
                Some(p) => row.push(p),
                None => {
                    assert(false);
                },
            }
            k = k + 1;
        }
        let ghost rv = row@;
        let ghost before = out.deep_view();
        assert(row.deep_view() =~= rv);
        push_item(&mut out, row);
        assert(out.deep_view()[i as int] == rv);
        i = i + 1;
    }
    out
}

/// Every neighbour in an entry is listed.
proof fn neighbor_is_listed(
    adj: Seq<(NodeRefView, Seq<(NodeRefView, u64)>)>,
    i: int,
    k: int,
)
    requires
        0 <= i < adj.len(),
        0 <= k < adj[i].1.len(),
    ensures
        listed(adj).contains(adj[i].1[k].0),
    decreases adj.len(),
{
    let t = adj.drop_last();
    let all = listed(adj);
    if i < t.len() {
        assert(t[i] == adj[i]);
        neighbor_is_listed(t, i, k);
        let m = choose|m: int| 0 <= m < listed(t).len() && listed(t)[m] == adj[i].1[k].0;
        assert(all[m] == adj[i].1[k].0);
    } else {
        assert(all[listed(t).len() + k] == adj[i].1[k].0);
    }
}

/// What is listed is a neighbour in an entry.
proof fn listed_is_neighbor(adj: Seq<(NodeRefView, Seq<(NodeRefView, u64)>)>, m: int)
    requires
        0 <= m < listed(adj).len(),
    ensures
        exists|i: int| 0 <= i < adj.len() && #[trigger] lists(adj, i, listed(adj)[m]),
    decreases adj.len(),
{
    let t = adj.drop_last();
    let x = listed(adj)[m];
    if m < listed(t).len() {
        listed_is_neighbor(t, m);
        let i = choose|i: int| 0 <= i < t.len() && #[trigger] lists(t, i, x);
        let k = choose|k: int| 0 <= k < t[i].1.len() && (#[trigger] t[i].1[k]).0 == x;
        assert(adj[i].1[k].0 == x);
        assert(lists(adj, i, x));
    } else {
        let k = m - listed(t).len();
        let i = adj.len() - 1;
        assert(adj[i].1[k].0 == x);
        assert(lists(adj, i, x));
    }
}

/// What is kept as it is repeats nothing, where nothing was repeated.
proof fn kept_stays_distinct(s: Seq<NodeRefView>, f: spec_fn(NodeRefView) -> Option<NodeRefView>)
    requires
        s.no_duplicates(),
        forall|x: NodeRefView| #[trigger] f(x) matches Some(y) ==> y == x,
    ensures
        s.filter_map(f).no_duplicates(),
    decreases s.len(),
{
    if s.len() == 0 {
        filter_map_start(s, f);
        take_all(s);
    } else {
        let n = s.len() - 1;
        let t = s.take(n);
        kept_stays_distinct(t, f);
        filter_map_step(s, f, n);
        take_all(s);
        let kept = t.filter_map(f);
        if f(s[n]) is Some && kept.contains(s[n]) {
            let k = choose|k: int| 0 <= k < kept.len() && kept[k] == s[n];
            filter_map_from(t, f, k);
            let i = choose|i: int| 0 <= i < t.len() && f(#[trigger] t[i]) == Some(kept[k]);
            assert(s[i] == s[n]);
        }
    }
}

/// A completed adjacency has an entry for every neighbour, and the same links.
/// Where every neighbour has an entry already, it stays as it is.
proof fn completed_is_closed(adj: Seq<(NodeRefView, Seq<(NodeRefView, u64)>)>)
    requires
        distinct_by(adj, entry_node()),
    ensures
        is_closed(completed(adj)),
        neighbor_links(completed(adj)) == neighbor_links(adj),
        is_closed(adj) ==> completed(adj) == adj,
{
    let f = without_entry(adj);
    let seen = listed(adj);
    let u = uniques(seen);
    let more = u.filter_map(f);
    let all = completed(adj);
    let n = adj.len() as int;
    uniques_are_distinct(seen);
    kept_stays_distinct(u, f);
    assert forall|k: int| 0 <= k < more.len() implies !has_entry(adj, #[trigger] more[k])
        && seen.contains(more[k]) by {
        filter_map_from(u, f, k);
        let i = choose|i: int| 0 <= i < u.len() && f(#[trigger] u[i]) == Some(more[k]);
        assert(u.contains(u[i]));
    }
    let key = entry_node();
    assert forall|i: int, j: int| 0 <= i < j < all.len() implies key(#[trigger] all[i]) != key(
        #[trigger] all[j],
    ) by {
        if j < n {
            assert(key(adj[i]) != key(adj[j]));
        } else if i < n {
            assert(!has_entry(adj, more[j - n]));
            assert(adj[i].0 == all[i].0);
        } else {
            assert(more[i - n] != more[j - n]);
        }
    }
    assert forall|i: int, k: int| 0 <= i < all.len() && 0 <= k < all[i].1.len() implies has_entry(
        all,
        (#[trigger] all[i].1[k]).0,
    ) by {
        assert(i < n);
        let x = adj[i].1[k].0;
        neighbor_is_listed(adj, i, k);
        if has_entry(adj, x) {
            let m = choose|m: int| 0 <= m < adj.len() && (#[trigger] adj[m]).0 == x;
            assert(all[m].0 == x);
        } else {
            assert(seen.contains(x));
            assert(u.contains(x));
            let m = choose|m: int| 0 <= m < u.len() && u[m] == x;
            assert(f(u[m]) == Some(x));
            filter_map_keeps(u, f, m);
            let q = choose|q: int| 0 <= q < more.len() && more[q] == x;
            assert(all[n + q].0 == x);
        }
    }
    assert forall|a: NodeRefView, b: NodeRefView| #[trigger] neighbor_links(all)(a, b)
        == neighbor_links(adj)(a, b) by {
        if neighbor_links(all)(a, b) {
            let i = choose|i: int| 0 <= i < all.len() && (#[trigger] all[i]).0 == a && lists(all, i, b);
            assert(i < n);
            let k = choose|k: int| 0 <= k < all[i].1.len() && (#[trigger] all[i].1[k]).0 == b;
            assert(adj[i].1[k].0 == b);
            assert(adj[i].0 == a && lists(adj, i, b));
        }
        if neighbor_links(adj)(a, b) {
            let i = choose|i: int| 0 <= i < adj.len() && (#[trigger] adj[i]).0 == a && lists(adj, i, b);
            let k = choose|k: int| 0 <= k < adj[i].1.len() && (#[trigger] adj[i].1[k]).0 == b;
            assert(all[i].1[k].0 == b);
            assert(all[i].0 == a && lists(all, i, b));
        }
    }
    assert(neighbor_links(all) =~= neighbor_links(adj));
    if is_closed(adj) {
        if more.len() > 0 {
            let x = more[0];
            assert(!has_entry(adj, more[0]) && seen.contains(more[0]));
            let m = choose|m: int| 0 <= m < seen.len() && seen[m] == x;
            listed_is_neighbor(adj, m);
            let i = choose|i: int| 0 <= i < adj.len() && #[trigger] lists(adj, i, x);
            let k = choose|k: int| 0 <= k < adj[i].1.len() && (#[trigger] adj[i].1[k]).0 == x;
            assert(has_entry(adj, adj[i].1[k].0));
        }
        assert(all =~= adj);
    }
}

/// An adjacency with an entry of its own for every neighbour that has none.
fn complete(adj: &Adjacency) -> (r: Adjacency)
    ensures
        r.neighbors.deep_view() == completed(adj.neighbors.deep_view()),
{
    let ghost av = adj.neighbors.deep_view();
    let mut names: Vec<NodeRef> = Vec::new();
    let mut out: Vec<(NodeRef, Vec<(NodeRef, u64)>)> = Vec::new();
    let mut i: usize = 0;
    assert(names.deep_view() =~= listed(av.take(0)));
    assert(out.deep_view() =~= av.take(0));
    while i < adj.neighbors.len()
        invariant
            av == adj.neighbors.deep_view(),
            i <= adj.neighbors@.len(),
            names.deep_view() == listed(av.take(i as int)),
            out.deep_view() == av.take(i as int),
        decreases adj.neighbors@.len() - i,
    {
        let e: &(NodeRef, Vec<(NodeRef, u64)>) = &adj.neighbors[i];
        let ghost ev = (e.0.deep_view(), e.1.deep_view());
        let ghost before = names.deep_view();
        let ghost more = ev.1.map_values(|p: (NodeRefView, u64)| p.0);
        assert(av[i as int] == ev);
        assert(av.take(i + 1).drop_last() =~= av.take(i as int));
        let mut row: Vec<(NodeRef, u64)> = Vec::new();
        let mut k: usize = 0;
        assert(names.deep_view() =~= before + more.take(0));
        assert(row.deep_view() =~= ev.1.take(0));
        while k < e.1.len()
            invariant
                ev == (e.0.deep_view(), e.1.deep_view()),
                more == ev.1.map_values(|p: (NodeRefView, u64)| p.0),
                k <= e.1@.len(),
                names.deep_view() == before + more.take(k as int),
                row.deep_view() == ev.1.take(k as int),
            decreases e.1@.len() - k,
        {
            let p: &(NodeRef, u64) = &e.1[k];
            assert(ev.1[k as int] == (p.0.deep_view(), p.1));
            push_item(&mut names, p.0.clone());
            push_item(&mut row, (p.0.clone(), p.1));
            assert(before + more.take(k + 1) =~= (before + more.take(k as int)).push(more[k as int]));
            assert(ev.1.take(k + 1) =~= ev.1.take(k as int).push(ev.1[k as int]));
            k = k + 1;
        }
        proof {
            take_all(more);
            take_all(ev.1);
        }
        push_item(&mut out, (e.0.clone(), row));
        assert(av.take(i + 1) =~= av.take(i as int).push(av[i as int]));
        i = i + 1;
    }
    proof {
        take_all(av);
    }
    let once = unique_nodes(&names);
    let ghost u = once.deep_view();
    let ghost f = without_entry(av);
    let mut m: usize = 0;
    proof {
        filter_map_start(u, f);
        assert(out.deep_view() =~= av + u.take(0).filter_map(f).map_values(bare_entry()));
    }
    while m < once.len()
        invariant
            av == adj.neighbors.deep_view(),
            u == once.deep_view(),
            f == without_entry(av),
            m <= once@.len(),
            out.deep_view() == av + u.take(m as int).filter_map(f).map_values(bare_entry()),
        decreases once@.len() - m,
    {
        assert(u[m as int] == once@[m as int].deep_view());
        proof {
            filter_map_step(u, f, m as int);
        }
        let ghost kept = u.take(m as int).filter_map(f);
        if find_entry(adj, &once[m]).is_none() {
            let none: Vec<(NodeRef, u64)> = Vec::new();
            assert(none.deep_view() =~= Seq::<(NodeRefView, u64)>::empty());
            push_item(&mut out, (once[m].clone(), none));
            assert((av + kept.map_values(bare_entry())).push(bare_entry()(u[m as int])) =~= av
                + kept.push(u[m as int]).map_values(bare_entry()));
        }
        m = m + 1;
    }
    proof {
        take_all(u);
    }
    Adjacency { neighbors: out }
}

/// What is reached from a node with an entry has one too.
proof fn reached_has_entry(
    adj: Seq<(NodeRefView, Seq<(NodeRefView, u64)>)>,
    a: NodeRefView,
    b: NodeRefView,
    k: nat,
)
    requires
        is_closed(adj),
        has_entry(adj, a),
        reach(neighbor_links(adj), a, b, k),
    ensures
        has_entry(adj, b),
    decreases k,
{
    if k > 0 {
        let x = choose|x: NodeRefView| #[trigger]
            neighbor_links(adj)(a, x) && reach(neighbor_links(adj), x, b, (k - 1) as nat);
        let i = choose|i: int| 0 <= i < adj.len() && (#[trigger] adj[i]).0 == a && lists(adj, i, x);
        let q = choose|q: int| 0 <= q < adj[i].1.len() && (#[trigger] adj[i].1[q]).0 == x;
        assert(has_entry(adj, adj[i].1[q].0));
        reached_has_entry(adj, x, b, (k - 1) as nat);
    }
}

/// The components: the nodes, those that are only listed as neighbours among
/// them, in groups, each of what can be reached from its first node and stands
/// in no group before it. Where neighbours are neighbours of each other, two
/// nodes stand in the same group exactly if one can be reached from the other.
#[verifier::rlimit(30)]
pub fn connected_components(adj: &Adjacency) -> (r: Vec<Vec<NodeRef>>)
    requires
        distinct_by(adj.neighbors.deep_view(), entry_node()),
    ensures
        parts(completed(adj.neighbors.deep_view()), r.deep_view()),
        grouped_by_reach(neighbor_links(adj.neighbors.deep_view()), r.deep_view()),
        is_closed(adj.neighbors.deep_view()) ==> parts(adj.neighbors.deep_view(), r.deep_view()),
        adjacency_wf(adj.neighbors.deep_view()) ==> forall|i: int, j: int|
            #![trigger adj.neighbors.deep_view()[i], adj.neighbors.deep_view()[j]]
            0 <= i < adj.neighbors@.len() && 0 <= j < adj.neighbors@.len() ==> (together(
                r.deep_view(),
                adj.neighbors.deep_view()[i].0,
                adj.neighbors.deep_view()[j].0,
            ) <==> connected(
                neighbor_links(adj.neighbors.deep_view()),
                adj.neighbors.deep_view()[i].0,
                adj.neighbors.deep_view()[j].0,
            )),
{
    let ghost given = adj.neighbors.deep_view();
    proof {
        completed_is_closed(given);
    }
    let adj: Adjacency = complete(adj);
    let ghost av = adj.neighbors.deep_view();
    let n: usize = adj.neighbors.len();
    let nbrs = number_neighbors(&adj);
    let ghost nv = nbrs.deep_view();
    let groups = components(&nbrs);
    let ghost gv = groups.deep_view();
    let mut out: Vec<Vec<NodeRef>> = Vec::new();
    let mut c: usize = 0;
    while c < groups.len()
        invariant
            n == adj.neighbors@.len(),
            av == adj.neighbors.deep_view(),
            gv == groups.deep_view(),
            is_partition(n as int, gv),
            c <= groups@.len(),
            out@.len() == c,
            forall|d: int| 0 <= d < c ==> (#[trigger] out.deep_view()[d]).len() == gv[d].len(),
            forall|d: int, k: int|
                0 <= d < c && 0 <= k < gv[d].len() ==> #[trigger] out.deep_view()[d][k]
                    == av[gv[d][k] as int].0,
        decreases groups@.len() - c,
    {
        let group: &Vec<usize> = &groups[c];
        assert(gv[c as int] =~= group@);
        let mut row: Vec<NodeRef> = Vec::new();
        let mut k: usize = 0;
        while k < group.len()
            invariant
                n == adj.neighbors@.len(),
                av == adj.neighbors.deep_view(),
                gv == groups.deep_view(),
                is_partition(n as int, gv),
                c < groups@.len(),
                gv[c as int] == group@,
                k <= group@.len(),
                row@.len() == k,
                forall|q: int|
                    0 <= q < k ==> #[trigger] row.deep_view()[q] == av[gv[c as int][q] as int].0,
            decreases group@.len() - k,
        {
            assert(gv[c as int][k as int] < n);
            let v: usize = group[k];
            assert(av[v as int].0 == adj.neighbors@[v as int].0.deep_view());
            push_item(&mut row, adj.neighbors[v].0.clone());
            k = k + 1;
        }
        push_item(&mut out, row);
        c = c + 1;
    }
    proof {
        let ov = out.deep_view();
        assert forall|d: int| 0 <= d < ov.len() implies (#[trigger] ov[d]).len() > 0
            && ov[d].no_duplicates() by {
            assert(gv[d].len() > 0);
            assert forall|p: int, q: int| 0 <= p < ov[d].len() && 0 <= q < ov[d].len() && p != q
                implies ov[d][p] != ov[d][q] by {
                distinct_entries(av, gv[d][p] as int, gv[d][q] as int);
                assert(gv[d][p] < n && gv[d][q] < n);
            }
        }
        assert forall|d: int, k: int| 0 <= d < ov.len() && 0 <= k < ov[d].len() implies has_entry(
            av,
            #[trigger] ov[d][k],
        ) by {
            assert(gv[d][k] < n);
            assert(av[gv[d][k] as int].0 == ov[d][k]);
        }
        assert forall|d: int, i: int| 0 <= d < ov.len() && 0 <= i < n implies (
        #[trigger] ov[d].contains(#[trigger] av[i].0) <==> gv[d].contains(i as usize)) by {
            grouped_alike(av, gv[d], ov[d], i);
        }
        assert forall|c1: int, d: int, x: NodeRefView|
            0 <= c1 < ov.len() && 0 <= d < ov.len() && #[trigger] ov[c1].contains(x)
                && #[trigger] ov[d].contains(x) implies c1 == d by {
            let p = choose|p: int| 0 <= p < ov[c1].len() && ov[c1][p] == x;
            let i = gv[c1][p] as int;
            assert(gv[c1][p] < n);
            assert(av[i].0 == x);
            assert(gv[c1].contains(i as usize));
            assert(gv[d].contains(i as usize));
        }
        assert forall|i: int| 0 <= i < av.len() implies in_some_component(
            ov,
            (#[trigger] av[i]).0,
        ) by {
            assert(in_some_group(gv, i as usize));
            let d = choose|d: int| 0 <= d < gv.len() && (#[trigger] gv[d]).contains(i as usize);
            assert(ov[d].contains(av[i].0));
        }
        let nl = neighbor_links(av);
        assert forall|c: int, x: NodeRefView| 0 <= c < ov.len() implies (#[trigger] ov[c].contains(x)
            <==> connected(nl, ov[c][0], x) && !stands_before(ov, c, x)) by {
            let first = gv[c][0];
            assert(gv[c].len() > 0 && gv[c][0] < n);
            assert(ov[c][0] == av[first as int].0);
            if ov[c].contains(x) {
                let p = choose|p: int| 0 <= p < ov[c].len() && ov[c][p] == x;
                let i = gv[c][p];
                assert(gv[c][p] < n && av[i as int].0 == x);
                assert(gv[c].contains(i));
                assert(connected(number_links(nv), first, i));
                let k = choose|k: nat| #[trigger] reach(number_links(nv), first, i, k);
                number_reach(nv, first, i, k);
                numbered_reach(av, nv, first as int, i as int, k);
                assert(reach(nl, ov[c][0], x, k));
                if stands_before(ov, c, x) {
                    let d = choose|d: int| 0 <= d < c && (#[trigger] ov[d]).contains(x);
                    assert(d == c);
                }
            }
            if connected(nl, ov[c][0], x) && !stands_before(ov, c, x) {
                let k = choose|k: nat| #[trigger] reach(nl, ov[c][0], x, k);
                assert(has_entry(av, av[first as int].0));
                reached_has_entry(av, ov[c][0], x, k);
                let i = choose|i: int| 0 <= i < av.len() && (#[trigger] av[i]).0 == x;
                numbered_reach(av, nv, first as int, i, k);
                number_reach(nv, first, i as usize, k);
                assert(connected(number_links(nv), first, i as usize));
                if stands_before(gv, c, i as usize) {
                    let d = choose|d: int| 0 <= d < c && (#[trigger] gv[d]).contains(i as usize);
                    assert(ov[d].contains(av[i].0));
                }
                assert(gv[c].contains(i as usize));
                assert(ov[c].contains(av[i].0));
            }
        }
        if adjacency_wf(given) {
            assert(av == given);
            assert forall|i: int, j: int|
                #![trigger given[i], given[j]]
                0 <= i < given.len() && 0 <= j < given.len() implies (together(
                ov,
                given[i].0,
                given[j].0,
            ) <==> connected(neighbor_links(given), given[i].0, given[j].0)) by {
                assert(in_some_component(ov, av[i].0) && in_some_component(ov, av[j].0));
                let ca = choose|c: int| 0 <= c < ov.len() && (#[trigger] ov[c]).contains(av[i].0);
                let cb = choose|c: int| 0 <= c < ov.len() && (#[trigger] ov[c]).contains(av[j].0);
                undirected_groups(nl, ov, av[i].0, av[j].0, ca, cb);
            }
        }
    }
    out
}

/// Two entries of different positions are of different nodes.
proof fn distinct_entries(adj: Seq<(NodeRefView, Seq<(NodeRefView, u64)>)>, i: int, j: int)
    requires
        distinct_by(adj, entry_node()),
        0 <= i < adj.len(),
        0 <= j < adj.len(),
    ensures
        i != j ==> adj[i].0 != adj[j].0,
{
    if i < j {
        assert(entry_node()(adj[i]) != entry_node()(adj[j]));
    } else if j < i {
        assert(entry_node()(adj[j]) != entry_node()(adj[i]));
    }
}

/// A node stands in a group of nodes where its position stands in the group of
/// positions.
proof fn grouped_alike(
    adj: Seq<(NodeRefView, Seq<(NodeRefView, u64)>)>,
    positions: Seq<usize>,
    nodes: Seq<NodeRefView>,
    i: int,
)
    requires
        distinct_by(adj, entry_node()),
        adj.len() <= usize::MAX,
        0 <= i < adj.len(),
        nodes.len() == positions.len(),
        forall|k: int|
            0 <= k < positions.len() ==> (#[trigger] positions[k]) < adj.len() && nodes[k]
                == adj[positions[k] as int].0,
    ensures
        nodes.contains(adj[i].0) <==> positions.contains(i as usize),
{
    if nodes.contains(adj[i].0) {
        let k = choose|k: int| 0 <= k < nodes.len() && nodes[k] == adj[i].0;
        assert(positions[k] < adj.len());
        distinct_entries(adj, positions[k] as int, i);
        assert(positions[k] == i as usize);
    }
    if positions.contains(i as usize) {
        let k = choose|k: int| 0 <= k < positions.len() && positions[k] == i as usize;
        assert(nodes[k] == adj[i].0);
    }
}

/// The size of each component, in their order.
pub fn component_sizes(components: &[Vec<NodeRef>]) -> (r: Vec<usize>)
    ensures
        r@ == Seq::new(components@.len(), |i: int| components@[i]@.len() as usize),
{
    let ghost want = Seq::new(components@.len(), |i: int| components@[i]@.len() as usize);
    let mut out: Vec<usize> = Vec::new();
    let mut i: usize = 0;
    while i < components.len()
        invariant
            want == Seq::new(components@.len(), |i: int| components@[i]@.len() as usize),
            i <= components@.len(),
            out@ == want.take(i as int),
        decreases components@.len() - i,
    {
        out.push(components[i].len());
        assert(want.take(i as int).push(want[i as int]) =~= want.take(i + 1));
        i = i + 1;
    }
    proof {
        take_all(want);
    }
    out
}

/// The total of some sizes.
pub open spec fn total(sizes: Seq<usize>) -> int {
    sum_of(sizes, |n: usize| n as int)
}

/// Groups one after the other.
spec fn joined(cs: Seq<Seq<NodeRefView>>) -> Seq<NodeRefView>
    decreases cs.len(),
{
    if cs.len() == 0 {
        Seq::empty()
    } else {
        joined(cs.drop_last()) + cs.last()
    }
}

/// What stands in groups put one after the other is what stands in one of them.
proof fn joined_contains(cs: Seq<Seq<NodeRefView>>, x: NodeRefView)
    ensures
        joined(cs).contains(x) <==> in_some_component(cs, x),
    decreases cs.len(),
{
    if cs.len() > 0 {
        let t = cs.drop_last();
        joined_contains(t, x);
        if joined(cs).contains(x) {
            let k = choose|k: int| 0 <= k < joined(cs).len() && joined(cs)[k] == x;
            if k < joined(t).len() {
                assert(joined(t)[k] == x);
                let c = choose|c: int| 0 <= c < t.len() && (#[trigger] t[c]).contains(x);
                assert(cs[c].contains(x));
            } else {
                assert(cs.last()[k - joined(t).len()] == x);
                assert(cs[cs.len() - 1].contains(x));
            }
        }
        if in_some_component(cs, x) {
            let c = choose|c: int| 0 <= c < cs.len() && (#[trigger] cs[c]).contains(x);
            if c < t.len() {
                assert(t[c].contains(x));
                let k = choose|k: int| 0 <= k < joined(t).len() && joined(t)[k] == x;
                assert(joined(cs)[k] == x);
            } else {
                let k = choose|k: int| 0 <= k < cs[c].len() && cs[c][k] == x;
                assert(joined(cs)[joined(t).len() + k] == x);
            }
        }
    }
}

/// Groups that share nothing, put one after the other, repeat nothing.
proof fn joined_is_distinct(cs: Seq<Seq<NodeRefView>>, sizes: Seq<usize>)
    requires
        forall|c: int| 0 <= c < cs.len() ==> (#[trigger] cs[c]).no_duplicates(),
        forall|c: int, d: int, x: NodeRefView|
            0 <= c < cs.len() && 0 <= d < cs.len() && #[trigger] cs[c].contains(x)
                && #[trigger] cs[d].contains(x) ==> c == d,
        sizes.len() == cs.len(),
        forall|c: int| 0 <= c < cs.len() ==> #[trigger] sizes[c] == cs[c].len(),
    ensures
        joined(cs).no_duplicates(),
        joined(cs).len() == total(sizes),
    decreases cs.len(),
{
    if cs.len() > 0 {
        let t = cs.drop_last();
        assert forall|c: int, d: int, x: NodeRefView|
            0 <= c < t.len() && 0 <= d < t.len() && #[trigger] t[c].contains(x)
                && #[trigger] t[d].contains(x) implies c == d by {
            assert(cs[c].contains(x) && cs[d].contains(x));
        }
        joined_is_distinct(t, sizes.drop_last());
        let all = joined(cs);
        let n = joined(t).len() as int;
        assert forall|i: int, j: int| 0 <= i < all.len() && 0 <= j < all.len() && i != j implies all[i]
            != all[j] by {
            if i < n && j < n {
                assert(joined(t)[i] != joined(t)[j]);
            } else if i >= n && j >= n {
                assert(cs[cs.len() - 1].no_duplicates());
                assert(cs.last()[i - n] != cs.last()[j - n]);
            } else {
                let (a, b) = if i < n {
                    (i, j)
                } else {
                    (j, i)
                };
                if all[a] == all[b] {
                    let x = all[a];
                    assert(joined(t)[a] == x);
                    assert(cs.last()[b - n] == x);
                    joined_contains(t, x);
                    let c = choose|c: int| 0 <= c < t.len() && (#[trigger] t[c]).contains(x);
                    assert(cs[c].contains(x) && cs[cs.len() - 1].contains(x));
                }
            }
        }
        assert(sizes[cs.len() - 1] == cs[cs.len() - 1].len());
    } else {
        assert(total(sizes) == 0);
    }
}

/// The sizes of the components are each at least one, and add up to the number
/// of nodes.
pub proof fn sizes_add_up(
    adj: Seq<(NodeRefView, Seq<(NodeRefView, u64)>)>,
    cs: Seq<Seq<NodeRefView>>,
    sizes: Seq<usize>,
)
    requires
        distinct_by(adj, entry_node()),
        parts(adj, cs),
        sizes.len() == cs.len(),
        forall|c: int| 0 <= c < cs.len() ==> #[trigger] sizes[c] == cs[c].len(),
    ensures
        forall|c: int| 0 <= c < sizes.len() ==> #[trigger] sizes[c] >= 1,
        total(sizes) == adj.len(),
{
    let all = joined(cs);
    let nodes = adj.map_values(entry_node());
    joined_is_distinct(cs, sizes);
    assert forall|c: int| 0 <= c < sizes.len() implies #[trigger] sizes[c] >= 1 by {
        assert(cs[c].len() > 0);
    }
    assert(nodes.no_duplicates()) by {
        assert forall|i: int, j: int| 0 <= i < nodes.len() && 0 <= j < nodes.len() && i
            != j implies nodes[i] != nodes[j] by {
            distinct_entries(adj, i, j);
        }
    }
    assert forall|x: NodeRefView| #[trigger] all.contains(x) <==> nodes.contains(x) by {
        joined_contains(cs, x);
        if all.contains(x) {
            let c = choose|c: int| 0 <= c < cs.len() && (#[trigger] cs[c]).contains(x);
            let k = choose|k: int| 0 <= k < cs[c].len() && cs[c][k] == x;
            assert(has_entry(adj, cs[c][k]));
            let i = choose|i: int| 0 <= i < adj.len() && (#[trigger] adj[i]).0 == x;
            assert(nodes[i] == x);
        }
        if nodes.contains(x) {
            let i = choose|i: int| 0 <= i < nodes.len() && nodes[i] == x;
            assert(in_some_component(cs, adj[i].0));
        }
    }
    all.unique_seq_to_set();
    nodes.unique_seq_to_set();
    assert(all.to_set() =~= nodes.to_set()) by {
        assert forall|x: NodeRefView| all.to_set().contains(x) <==> nodes.to_set().contains(x) by {
            assert(all.contains(x) <==> nodes.contains(x));
        }
    }
}

// ---------- the projection is well formed -------------------------------------------

proof fn neighbor_is_mutual(edges: Seq<EdgeView>, a: NodeRefView, k: int)
    requires
        0 <= k < neighbors_of(edges, a).len(),
    ensures
        ({
            let b = neighbors_of(edges, a)[k].0;
            exists|q: int|
                0 <= q < neighbors_of(edges, b).len() && (#[trigger] neighbors_of(
                    edges,
                    b,
                )[q]).0 == a
        }),
        all_ends(edges).contains(neighbors_of(edges, a)[k].0),
    decreases edges.len(),
{
    let t = edges.drop_last();
    let (x, y, w) = ends(edges.last());
    let rest = neighbors_of(t, a);
    let all = neighbors_of(edges, a);
    let b = all[k].0;
    let e = all_ends(t);
    let ae = all_ends(edges);
    if k < rest.len() {
        neighbor_is_mutual(t, a, k);
        assert(all[k] == rest[k]);
        let q = choose|q: int|
            0 <= q < neighbors_of(t, b).len() && (#[trigger] neighbors_of(t, b)[q]).0 == a;
        assert(neighbors_of(edges, b)[q] == neighbors_of(t, b)[q]);
        let m = choose|m: int| 0 <= m < e.len() && e[m] == b;
        assert(ae[m] == b);
    } else {
        let rb = neighbors_of(t, b);
        assert(ae[e.len() as int] == x);
        assert(ae[e.len() as int + 1] == y);
        if k == rest.len() && x == a {
            assert(b == y);
            let at: int = if x == b {
                rb.len() as int + 1
            } else {
                rb.len() as int
            };
            assert(neighbors_of(edges, b)[at].0 == a);
        } else {
            assert(b == x && y == a);
            assert(neighbors_of(edges, b)[rb.len() as int].0 == a);
        }
    }
}

/// The projection of any graph has one entry for each node, an entry for every
/// neighbour, and neighbours that are neighbours of each other.
pub proof fn adjacency_is_wf(g: GraphView)
    ensures
        adjacency_wf(adjacency(g)),
{
    let adj = adjacency(g);
    let listed = node_refs(g) + all_ends(g.edges);
    let nodes = uniques(listed);
    uniques_are_distinct(listed);
    assert forall|i: int, j: int| 0 <= i < j < adj.len() implies entry_node()(#[trigger] adj[i])
        != entry_node()(#[trigger] adj[j]) by {
        assert(nodes[i] != nodes[j]);
    }
    assert forall|i: int, k: int| 0 <= i < adj.len() && 0 <= k < adj[i].1.len() implies has_entry(
        adj,
        (#[trigger] adj[i].1[k]).0,
    ) by {
        neighbor_is_mutual(g.edges, nodes[i], k);
        let b = adj[i].1[k].0;
        let m = choose|m: int| 0 <= m < all_ends(g.edges).len() && all_ends(g.edges)[m] == b;
        assert(listed[node_refs(g).len() + m] == b);
        assert(listed.contains(b));
        let q = choose|q: int| 0 <= q < nodes.len() && nodes[q] == b;
        assert(adj[q].0 == b);
    }
    let link = neighbor_links(adj);
    assert forall|a: NodeRefView, b: NodeRefView| #[trigger] link(a, b) implies link(b, a) by {
        let i = choose|i: int| 0 <= i < adj.len() && (#[trigger] adj[i]).0 == a && lists(adj, i, b);
        let k = choose|k: int| 0 <= k < adj[i].1.len() && (#[trigger] adj[i].1[k]).0 == b;
        assert(has_entry(adj, adj[i].1[k].0));
        let j = choose|j: int| 0 <= j < adj.len() && (#[trigger] adj[j]).0 == b;
        neighbor_is_mutual(g.edges, a, k);
        let q = choose|q: int|
            0 <= q < neighbors_of(g.edges, b).len() && (#[trigger] neighbors_of(g.edges, b)[q]).0
                == a;
        assert(adj[j].1[q].0 == a);
        assert(lists(adj, j, a));
    }
}

} // verus!
