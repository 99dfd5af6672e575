//! How the shape of the graph changed between two snapshots.
//!
//! The graph itself only has facts about its shape; what of them is unusual is
//! judged here: whole clusters that were not there before, clusters that were
//! apart and are one now, and nodes with far more neighbours than before.

use vstd::prelude::*;
use vstd::string::*;

use crate::analytics::{
    adjacency, adjacency_wf, connected_components, degree, degree_centrality, has_entry, is_entry, neighbor_links,
    node_label, parts, same_node, Adjacency, NodeRef, NodeRefView,
};
use crate::components::{connected, together};
use crate::graph::{Graph, GraphView};
use crate::seqs::{
    count_where, count_where_joins, count_where_step, filter_map_start, filter_map_step, first_where, first_where_is_first,
    push_item, take_all,
};
use crate::text::{decimal, flat, Parts};

verus! {

/// How many neighbours a node must gain for a flag.
pub const DEGREE_SPIKE_MIN_DELTA: u64 = 5;

/// One change of shape. More is more unusual.
#[derive(Debug)]
pub struct ShapeScore {
    pub entity: String,
    pub metric: &'static str,
    pub observed: u64,
    pub baseline: u64,
    pub score: u64,
    pub text: String,
}

/// What a `ShapeScore` holds.
pub struct ShapeScoreView {
    pub entity: Seq<char>,
    pub metric: Seq<char>,
    pub observed: u64,
    pub baseline: u64,
    pub score: u64,
    pub text: Seq<char>,
}

impl DeepView for ShapeScore {
    type V = ShapeScoreView;

    open spec fn deep_view(&self) -> ShapeScoreView {
        ShapeScoreView {
            entity: self.entity@,
            metric: self.metric@,
            observed: self.observed,
            baseline: self.baseline,
            score: self.score,
            text: self.text@,
        }
    }
}

/// Whether groups of nodes are the connected components of an adjacency.
pub open spec fn are_components(
    adj: Seq<(NodeRefView, Seq<(NodeRefView, u64)>)>,
    cs: Seq<Seq<NodeRefView>>,
) -> bool {
    &&& parts(adj, cs)
    &&& forall|i: int, j: int|
        #![trigger adj[i], adj[j]]
        0 <= i < adj.len() && 0 <= j < adj.len() ==> (together(cs, adj[i].0, adj[j].0)
            <==> connected(neighbor_links(adj), adj[i].0, adj[j].0))
}

/// The connected components of an adjacency.
pub(crate) fn components_of(adj: &Adjacency) -> (r: Vec<Vec<NodeRef>>)
    requires
        adjacency_wf(adj.neighbors.deep_view()),
    ensures
        are_components(adj.neighbors.deep_view(), r.deep_view()),
{
    connected_components(adj)
}

/// How many neighbours a node lists.
pub open spec fn links_of(
    adj: Seq<(NodeRefView, Seq<(NodeRefView, u64)>)>,
    n: NodeRefView,
) -> nat {
    match first_where(adj, is_entry(n)) {
        Some(i) => adj[i].1.len(),
        None => 0,
    }
}

/// The last of the nodes that list the most neighbours.
pub open spec fn most_linked(
    adj: Seq<(NodeRefView, Seq<(NodeRefView, u64)>)>,
    c: Seq<NodeRefView>,
) -> NodeRefView
    recommends
        c.len() > 0,
    decreases c.len(),
{
    if c.len() <= 1 {
        c[0]
    } else {
        let best = most_linked(adj, c.drop_last());
        if links_of(adj, c.last()) >= links_of(adj, best) {
            c.last()
        } else {
            best
        }
    }
}

/// Whether a component is a cluster none of whose nodes was there before.
pub open spec fn is_new(
    prev: Seq<(NodeRefView, Seq<(NodeRefView, u64)>)>,
    c: Seq<NodeRefView>,
) -> bool {
    c.len() >= 2 && forall|k: int| 0 <= k < c.len() ==> !has_entry(prev, #[trigger] c[k])
}

/// The score of a new cluster.
pub open spec fn new_cluster(prev: GraphView, curr: GraphView) -> spec_fn(
    Seq<NodeRefView>,
) -> Option<ShapeScoreView> {
    |c: Seq<NodeRefView>|
        if is_new(adjacency(prev), c) {
            let sample = node_label(curr, most_linked(adjacency(curr), c));
            Some(
                ShapeScoreView {
                    entity: flat(seq!["component:"@, sample]),
                    metric: "new_component"@,
                    observed: c.len() as u64,
                    baseline: 0,
                    score: c.len() as u64,
                    text: flat(
                        seq![
                            "New activity cluster appeared: "@,
                            decimal(c.len()),
                            " entities including "@,
                            sample,
                            " (no shared history with the prior snapshot)"@,
                        ],
                    ),
                },
            )
        } else {
            None
        }
}

/// Whether a group is a cluster whose nodes all stand in a component.
pub open spec fn lies_in(c: Seq<NodeRefView>) -> spec_fn(Seq<NodeRefView>) -> bool {
    |p: Seq<NodeRefView>|
        p.len() >= 2 && forall|k: int| 0 <= k < p.len() ==> c.contains(#[trigger] p[k])
}

/// The score of a component that holds more than one earlier cluster whole.
pub open spec fn merged_cluster(prev: GraphView, pc: Seq<Seq<NodeRefView>>) -> spec_fn(
    Seq<NodeRefView>,
) -> Option<ShapeScoreView> {
    |c: Seq<NodeRefView>|
        {
            let n = count_where(pc, lies_in(c));
            if n > 1 {
                let sample = node_label(prev, pc[first_where(pc, lies_in(c))->0][0]);
                Some(
                    ShapeScoreView {
                        entity: flat(seq!["component:"@, sample]),
                        metric: "component_merge"@,
                        observed: n as u64,
                        baseline: 1,
                        score: n as u64,
                        text: flat(
                            seq![
                                "Previously separate activity clusters merged into one (near "@,
                                sample,
                                ")"@,
                            ],
                        ),
                    },
                )
            } else {
                None
            }
        }
}

/// The degree that a node had; none had it before.
pub open spec fn degree_in(adj: Seq<(NodeRefView, Seq<(NodeRefView, u64)>)>, n: NodeRefView) -> u64 {
    match first_where(adj, is_entry(n)) {
        Some(i) => degree(adj[i].1) as u64,
        None => 0,
    }
}

/// The score of a node that gained many neighbours.
pub open spec fn spike(prev: GraphView, curr: GraphView) -> spec_fn(
    (NodeRefView, Seq<(NodeRefView, u64)>),
) -> Option<ShapeScoreView> {
    |e: (NodeRefView, Seq<(NodeRefView, u64)>)|
        {
            let now = degree(e.1) as u64;
            let then = degree_in(adjacency(prev), e.0);
            if now - then >= DEGREE_SPIKE_MIN_DELTA {
                Some(
                    ShapeScoreView {
                        entity: node_label(curr, e.0),
                        metric: "degree_spike"@,
                        observed: now,
                        baseline: then,
                        score: (now - then) as u64,
                        text: flat(
                            seq![
                                node_label(curr, e.0),
                                " became far more connected: "@,
                                decimal(then as nat),
                                " -> "@,
                                decimal(now as nat),
                                " distinct relationships"@,
                            ],
                        ),
                    },
                )
            } else {
                None
            }
        }
}

/// The changes of shape between two snapshots with the given components.
pub open spec fn changes(
    prev: GraphView,
    curr: GraphView,
    pc: Seq<Seq<NodeRefView>>,
    cc: Seq<Seq<NodeRefView>>,
) -> Seq<ShapeScoreView> {
    cc.filter_map(new_cluster(prev, curr)) + cc.filter_map(merged_cluster(prev, pc)) + adjacency(
        curr,
    ).filter_map(spike(prev, curr))
}

/// The position of a node's entry.
fn entry_at(adj: &Adjacency, n: &NodeRef) -> (r: Option<usize>)
    ensures
        match r {
            Some(i) => first_where(adj.neighbors.deep_view(), is_entry(n.deep_view())) == Some(
                i as int,
            ) && i < adj.neighbors@.len(),
            None => first_where(adj.neighbors.deep_view(), is_entry(n.deep_view())) is None,
        },
{
    let ghost all = adj.neighbors.deep_view();
    let ghost p = is_entry(n.deep_view());
    let mut i: usize = 0;
    while i < adj.neighbors.len()
        invariant
            all == adj.neighbors.deep_view(),
            p == is_entry(n.deep_view()),
            i <= adj.neighbors@.len(),
            forall|k: int| 0 <= k < i ==> !p(#[trigger] all[k]),
        decreases adj.neighbors@.len() - i,
    {
        assert(all[i as int] == adj.neighbors@[i as int].deep_view());
        if same_node(&adj.neighbors[i].0, n) {
            proof {
                first_where_is_first(all, p);
                let f = first_where(all, p);
                assert(p(all[i as int]));
                if f->0 < i {
                    assert(!p(all[f->0]));
                }
                if i < f->0 {
                    assert(!p(all[i as int]));
                }
            }
            return Some(i);
        }
        i = i + 1;
    }
    proof {
        first_where_is_first(all, p);
    }
    None
}

fn has_node(adj: &Adjacency, n: &NodeRef) -> (r: bool)
    ensures
        r == has_entry(adj.neighbors.deep_view(), n.deep_view()),
{
    let ghost all = adj.neighbors.deep_view();
    let ghost p = is_entry(n.deep_view());
    let r: bool = entry_at(adj, n).is_some();
    proof {
        first_where_is_first(all, p);
        if r {
            assert(all[first_where(all, p)->0].0 == n.deep_view());
        } else {
            assert forall|i: int| 0 <= i < all.len() implies (#[trigger] all[i]).0 != n.deep_view() by {
                assert(!p(all[i]));
            }
        }
    }
    r
}

fn count_links(adj: &Adjacency, n: &NodeRef) -> (r: usize)
    ensures
        r == links_of(adj.neighbors.deep_view(), n.deep_view()),
{
    match entry_at(adj, n) {
        Some(i) => {
            assert(adj.neighbors.deep_view()[i as int] == adj.neighbors@[i as int].deep_view());
            adj.neighbors[i].1.len()
        },
        None => 0,
    }
}

fn most_linked_of<'a>(adj: &Adjacency, c: &'a Vec<NodeRef>) -> (r: &'a NodeRef)
    requires
        c@.len() > 0,
    ensures
        r.deep_view() == most_linked(adj.neighbors.deep_view(), c.deep_view()),
{
    let ghost all = c.deep_view();
    let ghost av = adj.neighbors.deep_view();
    let mut best: usize = 0;
    let mut i: usize = 1;
    assert(all.take(1)[0] == all[0]);
    while i < c.len()
        invariant
            all == c.deep_view(),
            av == adj.neighbors.deep_view(),
            1 <= i <= c@.len(),
            best < i,
            all[best as int] == most_linked(av, all.take(i as int)),
        decreases c@.len() - i,
    {
        assert(all.take(i + 1).drop_last() =~= all.take(i as int));
        assert(all[i as int] == c@[i as int].deep_view());
        assert(all[best as int] == c@[best as int].deep_view());
        if count_links(adj, &c[i]) >= count_links(adj, &c[best]) {
            best = i;
        }
        i = i + 1;
    }
    proof {
        take_all(all);
        assert(all[best as int] == c@[best as int].deep_view());
    }
    &c[best]
}

fn is_new_cluster(prev: &Adjacency, c: &Vec<NodeRef>) -> (r: bool)
    ensures
        r == is_new(prev.neighbors.deep_view(), c.deep_view()),
{
    let ghost all = c.deep_view();
    if c.len() < 2 {
        return false;
    }
    let mut i: usize = 0;
    while i < c.len()
        invariant
            all == c.deep_view(),
            i <= c@.len(),
            forall|k: int| 0 <= k < i ==> !has_entry(prev.neighbors.deep_view(), #[trigger] all[k]),
        decreases c@.len() - i,
    {
        assert(all[i as int] == c@[i as int].deep_view());
        if has_node(prev, &c[i]) {
            assert(has_entry(prev.neighbors.deep_view(), all[i as int]));
            return false;
        }
        i = i + 1;
    }
    true
}

fn new_cluster_of(
    prev: &Graph,
    prev_adj: &Adjacency,
    curr: &Graph,
    curr_adj: &Adjacency,
    c: &Vec<NodeRef>,
) -> (r: Option<ShapeScore>)
    requires
        prev_adj.neighbors.deep_view() == adjacency(prev.deep_view()),
        curr_adj.neighbors.deep_view() == adjacency(curr.deep_view()),
    ensures
        r.deep_view() == new_cluster(prev.deep_view(), curr.deep_view())(c.deep_view()),
{
    if !is_new_cluster(prev_adj, c) {
        return None;
    }
    let sample: String = most_linked_of(curr_adj, c).label(curr);
    let mut e = Parts::new();
    e.add("component:");
    e.add(sample.as_str());
    let mut t = Parts::new();
    t.add("New activity cluster appeared: ");
    t.add_number(c.len() as u64);
    t.add(" entities including ");
    t.add(sample.as_str());
    t.add(" (no shared history with the prior snapshot)");
    Some(
        ShapeScore {
            entity: e.finish(),
            metric: "new_component",
            observed: c.len() as u64,
            baseline: 0,
            score: c.len() as u64,
            text: t.finish(),
        },
    )
}

fn is_within(p: &Vec<NodeRef>, c: &Vec<NodeRef>) -> (r: bool)
    ensures
        r == lies_in(c.deep_view())(p.deep_view()),
{
    let ghost pv = p.deep_view();
    let ghost cv = c.deep_view();
    if p.len() < 2 {
        return false;
    }
    let mut i: usize = 0;
    while i < p.len()
        invariant
            pv == p.deep_view(),
            cv == c.deep_view(),
            i <= p@.len(),
            forall|k: int| 0 <= k < i ==> cv.contains(#[trigger] pv[k]),
        decreases p@.len() - i,
    {
        assert(pv[i as int] == p@[i as int].deep_view());
        if !crate::analytics::has_node(c, &p[i]) {
            assert(!cv.contains(pv[i as int]));
            return false;
        }
        i = i + 1;
    }
    true
}

fn merged_cluster_of(prev: &Graph, pc: &Vec<Vec<NodeRef>>, c: &Vec<NodeRef>) -> (r: Option<
    ShapeScore,
>)
    ensures
        r.deep_view() == merged_cluster(prev.deep_view(), pc.deep_view())(c.deep_view()),
{
    let ghost all = pc.deep_view();
    let ghost within = lies_in(c.deep_view());
    let mut n: u64 = 0;
    let mut first: usize = 0;
    let mut i: usize = 0;
    while i < pc.len()
        invariant
            all == pc.deep_view(),
            within == lies_in(c.deep_view()),
            i <= pc@.len(),
            n <= i,
            n == count_where(all.take(i as int), within),
            n == 0 ==> forall|k: int| 0 <= k < i ==> !within(#[trigger] all[k]),
            n > 0 ==> first < i && within(all[first as int]) && forall|k: int|
                0 <= k < first ==> !within(#[trigger] all[k]),
        decreases pc@.len() - i,
    {
        assert(all[i as int] == pc@[i as int].deep_view());
        proof {
            count_where_step(all, within, i as int);
        }
        if is_within(&pc[i], c) {
            if n == 0 {
                first = i;
            }
            n = n + 1;
        }
        i = i + 1;
    }
    proof {
        take_all(all);
    }
    if n <= 1 {
        return None;
    }
    proof {
        first_where_is_first(all, within);
        let f = first_where(all, within)->0;
        if f < first {
            assert(!within(all[f]));
        }
        if first < f {
            assert(!within(all[first as int]));
        }
        assert(all[first as int] == pc@[first as int].deep_view());
        assert(all[first as int][0] == pc@[first as int]@[0].deep_view());
    }
    let sample: String = pc[first][0].label(prev);
    let mut e = Parts::new();
    e.add("component:");
    e.add(sample.as_str());
    let mut t = Parts::new();
    t.add("Previously separate activity clusters merged into one (near ");
    t.add(sample.as_str());
    t.add(")");
    Some(
        ShapeScore {
            entity: e.finish(),
            metric: "component_merge",
            observed: n,
            baseline: 1,
            score: n,
            text: t.finish(),
        },
    )
}

/// The new clusters among the components of a snapshot, and those components
/// that hold more than one earlier cluster whole.
pub fn score_components(
    prev: &Graph,
    prev_adj: &Adjacency,
    curr: &Graph,
    curr_adj: &Adjacency,
    prev_components: &Vec<Vec<NodeRef>>,
    curr_components: &Vec<Vec<NodeRef>>,
) -> (r: Vec<ShapeScore>)
    requires
        prev_adj.neighbors.deep_view() == adjacency(prev.deep_view()),
        curr_adj.neighbors.deep_view() == adjacency(curr.deep_view()),
    ensures
        r.deep_view() == curr_components.deep_view().filter_map(
            new_cluster(prev.deep_view(), curr.deep_view()),
        ) + curr_components.deep_view().filter_map(
            merged_cluster(prev.deep_view(), prev_components.deep_view()),
        ),
{
    let ghost cc = curr_components.deep_view();
    let ghost pc = prev_components.deep_view();
    let ghost f = new_cluster(prev.deep_view(), curr.deep_view());
    let ghost g = merged_cluster(prev.deep_view(), pc);
    let mut out: Vec<ShapeScore> = Vec::new();
    let mut i: usize = 0;
    proof {
        filter_map_start(cc, f);
        assert(out.deep_view() =~= Seq::<ShapeScoreView>::empty());
    }
    while i < curr_components.len()
        invariant
            cc == curr_components.deep_view(),
            f == new_cluster(prev.deep_view(), curr.deep_view()),
            prev_adj.neighbors.deep_view() == adjacency(prev.deep_view()),
            curr_adj.neighbors.deep_view() == adjacency(curr.deep_view()),
            i <= curr_components@.len(),
            out.deep_view() == cc.take(i as int).filter_map(f),
        decreases curr_components@.len() - i,
    {
        assert(cc[i as int] == curr_components@[i as int].deep_view());
        proof {
            filter_map_step(cc, f, i as int);
        }
        match new_cluster_of(prev, prev_adj, curr, curr_adj, &curr_components[i]) {
            Some(s) => {
                push_item(&mut out, s);
            },
            None => {},
        }
        i = i + 1;
    }
    proof {
        take_all(cc);
        filter_map_start(cc, g);
    }
    let ghost first = cc.filter_map(f);
    let mut j: usize = 0;
    assert(first + cc.take(0).filter_map(g) =~= first);
    while j < curr_components.len()
        invariant
            cc == curr_components.deep_view(),
            pc == prev_components.deep_view(),
            g == merged_cluster(prev.deep_view(), pc),
            j <= curr_components@.len(),
            out.deep_view() == first + cc.take(j as int).filter_map(g),
        decreases curr_components@.len() - j,
    {
        assert(cc[j as int] == curr_components@[j as int].deep_view());
        proof {
            filter_map_step(cc, g, j as int);
        }
        let ghost have = cc.take(j as int).filter_map(g);
        match merged_cluster_of(prev, prev_components, &curr_components[j]) {
            Some(s) => {
                let ghost v = s.deep_view();
                push_item(&mut out, s);
                assert((first + have).push(v) =~= first + have.push(v));
            },
            None => {},
        }
        j = j + 1;
    }
    proof {
        take_all(cc);
    }
    out
}

fn spike_of(curr: &Graph, n: &NodeRef, now: u64, then: u64) -> (r: Option<
    ShapeScore,
>)
    ensures
        r.deep_view() == if now - then >= DEGREE_SPIKE_MIN_DELTA {
            Some(
                ShapeScoreView {
                    entity: node_label(curr.deep_view(), n.deep_view()),
                    metric: "degree_spike"@,
                    observed: now,
                    baseline: then,
                    score: (now - then) as u64,
                    text: flat(
                        seq![
                            node_label(curr.deep_view(), n.deep_view()),
                            " became far more connected: "@,
                            decimal(then as nat),
                            " -> "@,
                            decimal(now as nat),
                            " distinct relationships"@,
                        ],
                    ),
                },
            )
        } else {
            None
        },
{
    if now < then || now - then < DEGREE_SPIKE_MIN_DELTA {
        return None;
    }
    let name: String = n.label(curr);
    let mut t = Parts::new();
    t.add(name.as_str());
    t.add(" became far more connected: ");
    t.add_number(then);
    t.add(" -> ");
    t.add_number(now);
    t.add(" distinct relationships");
    Some(
        ShapeScore {
            entity: name,
            metric: "degree_spike",
            observed: now,
            baseline: then,
            score: now - then,
            text: t.finish(),
        },
    )
}

/// The nodes that gained many neighbours.
pub fn score_degree_spikes(
    prev: &Graph,
    prev_adj: &Adjacency,
    curr: &Graph,
    curr_adj: &Adjacency,
) -> (r: Vec<ShapeScore>)
    requires
        prev_adj.neighbors.deep_view() == adjacency(prev.deep_view()),
        curr_adj.neighbors.deep_view() == adjacency(curr.deep_view()),
    ensures
        r.deep_view() == adjacency(curr.deep_view()).filter_map(
            spike(prev.deep_view(), curr.deep_view()),
        ),
{
    let ghost pa = adjacency(prev.deep_view());
    let ghost ca = adjacency(curr.deep_view());
    let ghost f = spike(prev.deep_view(), curr.deep_view());
    let before: Vec<(NodeRef, u64)> = degree_centrality(prev_adj);
    let after: Vec<(NodeRef, u64)> = degree_centrality(curr_adj);
    let ghost bv = before.deep_view();
    let ghost av = after.deep_view();
    assert(bv.len() == before@.len() && av.len() == after@.len());
    let mut out: Vec<ShapeScore> = Vec::new();
    let mut i: usize = 0;
    proof {
        filter_map_start(ca, f);
        assert(out.deep_view() =~= Seq::<ShapeScoreView>::empty());
    }
    while i < after.len()
        invariant
            pa == adjacency(prev.deep_view()),
            ca == adjacency(curr.deep_view()),
            pa == prev_adj.neighbors.deep_view(),
            f == spike(prev.deep_view(), curr.deep_view()),
            bv == before.deep_view(),
            av == after.deep_view(),
            bv == Seq::new(pa.len(), |i: int| (pa[i].0, degree(pa[i].1) as u64)),
            av == Seq::new(ca.len(), |i: int| (ca[i].0, degree(ca[i].1) as u64)),
            before@.len() == pa.len(),
            after@.len() == ca.len(),
            i <= after@.len(),
            out.deep_view() == ca.take(i as int).filter_map(f),
        decreases after@.len() - i,
    {
        assert(av[i as int] == after@[i as int].deep_view());
        proof {
            filter_map_step(ca, f, i as int);
        }
        let n: &NodeRef = &after[i].0;
        let then: u64 = match entry_at(prev_adj, n) {
            Some(k) => {
                assert(bv[k as int] == before@[k as int].deep_view());
                before[k].1
            },
            None => 0,
        };
        assert(then == degree_in(pa, ca[i as int].0));
        match spike_of(curr, n, after[i].1, then) {
            Some(s) => {
                push_item(&mut out, s);
            },
            None => {},
        }
        i = i + 1;
    }
    proof {
        take_all(ca);
    }
    out
}

/// Whether a list of scores is that of two snapshots, for some order of their
/// components.
pub open spec fn scores_of(prev: GraphView, curr: GraphView, scores: Seq<ShapeScoreView>) -> bool {
    exists|pc: Seq<Seq<NodeRefView>>, cc: Seq<Seq<NodeRefView>>|
        are_components(adjacency(prev), pc) && are_components(adjacency(curr), cc) && scores
            == #[trigger] changes(prev, curr, pc, cc)
}

/// The unusual changes of shape between an earlier and a later snapshot of a
/// machine. In which order components stand is left open.
pub fn score_snapshot_diff(prev: &Graph, curr: &Graph) -> (r: Vec<ShapeScore>)
    ensures
        scores_of(prev.deep_view(), curr.deep_view(), r.deep_view()),
{
    let prev_adj = Adjacency::from_graph(prev);
    let curr_adj = Adjacency::from_graph(curr);
    let pc: Vec<Vec<NodeRef>> = components_of(&prev_adj);
    let cc: Vec<Vec<NodeRef>> = components_of(&curr_adj);
    let mut out: Vec<ShapeScore> = score_components(prev, &prev_adj, curr, &curr_adj, &pc, &cc);
    let mut more: Vec<ShapeScore> = score_degree_spikes(prev, &prev_adj, curr, &curr_adj);
    let ghost a = out.deep_view();
    let ghost b = more.deep_view();
    out.append(&mut more);
    assert(out.deep_view() =~= a + b);
    proof {
        assert(are_components(adjacency(prev.deep_view()), pc.deep_view()));
        assert(are_components(adjacency(curr.deep_view()), cc.deep_view()));
        assert(out.deep_view() == changes(
            prev.deep_view(),
            curr.deep_view(),
            pc.deep_view(),
            cc.deep_view(),
        ));
    }
    out
}

/// A predicate that at most one element satisfies counts at most one.
proof fn counts_at_most_one<A>(s: Seq<A>, p: spec_fn(A) -> bool)
    requires
        forall|i: int, j: int|
            0 <= i < s.len() && 0 <= j < s.len() && p(#[trigger] s[i]) && p(#[trigger] s[j])
                ==> i == j,
    ensures
        count_where(s, p) <= 1,
        count_where(s, p) == 1 ==> exists|i: int| 0 <= i < s.len() && p(#[trigger] s[i]),
    decreases s.len(),
{
    if s.len() > 0 {
        let t = s.drop_last();
        assert forall|i: int, j: int|
            0 <= i < t.len() && 0 <= j < t.len() && p(#[trigger] t[i]) && p(
                #[trigger] t[j],
            ) implies i == j by {
            assert(t[i] == s[i] && t[j] == s[j]);
        }
        counts_at_most_one(t, p);
        if count_where(t, p) == 1 {
            let i = choose|i: int| 0 <= i < t.len() && p(#[trigger] t[i]);
            assert(t[i] == s[i]);
            assert(!p(s[s.len() - 1]));
        } else if p(s.last()) {
            assert(p(s[s.len() - 1]));
        }
    }
}

/// A sequence of which nothing is kept leaves nothing.
proof fn nothing_kept<A, B>(s: Seq<A>, f: spec_fn(A) -> Option<B>)
    requires
        forall|i: int| 0 <= i < s.len() ==> f(#[trigger] s[i]) is None,
    ensures
        s.filter_map(f).len() == 0,
{
    if s.filter_map(f).len() > 0 {
        crate::seqs::filter_map_from(s, f, 0);
    }
}

/// Two snapshots of the same shape have no unusual change.
pub proof fn no_change_no_scores(g: GraphView, scores: Seq<ShapeScoreView>)
    requires
        scores_of(g, g, scores),
    ensures
        scores.len() == 0,
{
    let adj = adjacency(g);
    let (pc, cc) = choose|pc: Seq<Seq<NodeRefView>>, cc: Seq<Seq<NodeRefView>>|
        are_components(adj, pc) && are_components(adj, cc) && scores == #[trigger] changes(
            g,
            g,
            pc,
            cc,
        );
    crate::analytics::adjacency_is_wf(g);
    assert forall|c: int| 0 <= c < cc.len() implies new_cluster(g, g)(#[trigger] cc[c]) is None by {
        assert(cc[c].len() > 0);
        assert(has_entry(adj, cc[c][0]));
    }
    nothing_kept(cc, new_cluster(g, g));
    assert forall|c: int| 0 <= c < cc.len() implies merged_cluster(g, pc)(#[trigger] cc[c]) is None by {
        let m = lies_in(cc[c]);
        assert forall|k: int, l: int|
            0 <= k < pc.len() && 0 <= l < pc.len() && m(#[trigger] pc[k]) && m(
                #[trigger] pc[l],
            ) implies k == l by {
            let (a, b) = (pc[k][0], pc[l][0]);
            assert(has_entry(adj, pc[k][0]));
            assert(has_entry(adj, pc[l][0]));
            let i = choose|i: int| 0 <= i < adj.len() && (#[trigger] adj[i]).0 == a;
            let j = choose|j: int| 0 <= j < adj.len() && (#[trigger] adj[j]).0 == b;
            assert(cc[c].contains(a) && cc[c].contains(b));
            assert(together(cc, adj[i].0, adj[j].0));
            assert(connected(neighbor_links(adj), adj[i].0, adj[j].0));
            assert(together(pc, adj[i].0, adj[j].0));
            assert(pc[k].contains(a) && pc[l].contains(b));
        }
        counts_at_most_one(pc, m);
    }
    nothing_kept(cc, merged_cluster(g, pc));
    assert forall|i: int| 0 <= i < adj.len() implies spike(g, g)(#[trigger] adj[i]) is None by {
        let n = adj[i].0;
        first_where_is_first(adj, is_entry(n));
        let f = first_where(adj, is_entry(n));
        assert(is_entry(n)(adj[i]));
        let e = crate::analytics::entry_node();
        if f->0 < i {
            assert(e(adj[f->0]) != e(adj[i]));
        }
        if i < f->0 {
            assert(e(adj[i]) != e(adj[f->0]));
        }
    }
    nothing_kept(adj, spike(g, g));
}

/// A predicate that two elements satisfy counts two at least.
proof fn counts_both<A>(s: Seq<A>, p: spec_fn(A) -> bool, a: int, b: int)
    requires
        0 <= a < b < s.len(),
        p(s[a]),
        p(s[b]),
    ensures
        count_where(s, p) >= 2,
{
    let (x, y) = (s.take(b), s.skip(b));
    assert(x + y =~= s);
    count_where_joins(x, y, p);
    counts_it(x, p, a);
    counts_it(y, p, 0);
}

/// A predicate that an element satisfies counts one at least.
proof fn counts_it<A>(s: Seq<A>, p: spec_fn(A) -> bool, a: int)
    requires
        0 <= a < s.len(),
        p(s[a]),
    ensures
        count_where(s, p) >= 1,
    decreases s.len(),
{
    if a < s.len() - 1 {
        assert(s.drop_last()[a] == s[a]);
        counts_it(s.drop_last(), p, a);
    }
}

/// Two earlier clusters that both lie whole in one component now are told as a
/// merge.
pub proof fn joined_clusters_are_told(
    prev: GraphView,
    curr: GraphView,
    pc: Seq<Seq<NodeRefView>>,
    cc: Seq<Seq<NodeRefView>>,
    a: int,
    b: int,
    c: int,
)
    requires
        0 <= a < b < pc.len(),
        0 <= c < cc.len(),
        lies_in(cc[c])(pc[a]),
        lies_in(cc[c])(pc[b]),
    ensures
        exists|i: int|
            0 <= i < changes(prev, curr, pc, cc).len() && (#[trigger] changes(
                prev,
                curr,
                pc,
                cc,
            )[i]).metric == "component_merge"@ && changes(prev, curr, pc, cc)[i].observed
                == count_where(pc, lies_in(cc[c])) as u64,
{
    let f = merged_cluster(prev, pc);
    let first = cc.filter_map(new_cluster(prev, curr));
    let merged = cc.filter_map(f);
    counts_both(pc, lies_in(cc[c]), a, b);
    crate::seqs::filter_map_keeps(cc, f, c);
    let x = f(cc[c])->0;
    let k = choose|k: int| 0 <= k < merged.len() && merged[k] == x;
    assert(changes(prev, curr, pc, cc)[first.len() + k] == x);
}

} // verus!
