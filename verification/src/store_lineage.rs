//! Lineage and names: the busiest names, parents with many children, the
//! ancestors of a process, and edges with their tallies.

use vstd::prelude::*;
use vstd::string::*;

use crate::graph::{ProcessNode, ProcessNodeView};
use crate::order::{first_n, insert_row, keyed, sort_by_key};
use crate::seqs::{
    count_where, count_where_step, filter_map_start, filter_map_step, push_item, take_all, uniques,
};
use crate::store::{
    EdgeKind, EdgeRow, EdgeRowView, NodeKind, NodeRow, NodeRowView, Store, StoreError,
};
use crate::store_merge::{find_node, node_at};
use crate::store_query::db_count;
use crate::store_rows::{process_from_row, process_of_row};
use crate::text::str_eq;

verus! {

/// Whether a list of texts has a text.
pub(crate) fn has_text(v: &Vec<String>, x: &str) -> (r: bool)
    ensures
        r == v.deep_view().contains(x@),
{
    let ghost all = v.deep_view();
    let mut i: usize = 0;
    while i < v.len()
        invariant
            all == v.deep_view(),
            i <= v@.len(),
            forall|k: int| 0 <= k < i ==> all[k] != x@,
        decreases v@.len() - i,
    {
        assert(all[i as int] == v@[i as int]@);
        if str_eq(v[i].as_str(), x) {
            return true;
        }
        i = i + 1;
    }
    false
}

/// The texts in the order of their first occurrence, each once.
pub(crate) fn unique_texts(v: &Vec<String>) -> (r: Vec<String>)
    ensures
        r.deep_view() == uniques(v.deep_view()),
{
    let ghost all = v.deep_view();
    let mut out: Vec<String> = Vec::new();
    let mut i: usize = 0;
    assert(out.deep_view() =~= uniques(all.take(0)));
    while i < v.len()
        invariant
            all == v.deep_view(),
            i <= v@.len(),
            out.deep_view() == uniques(all.take(i as int)),
        decreases v@.len() - i,
    {
        assert(all.take(i + 1).drop_last() =~= all.take(i as int));
        assert(all.take(i + 1).last() == v@[i as int]@);
        if !has_text(&out, v[i].as_str()) {
            push_item(&mut out, v[i].clone());
        }
        i = i + 1;
    }
    proof {
        take_all(all);
    }
    out
}

// ---------- names --------------------------------------------------------------

/// How often a name was looked up, and by how many processes.
#[derive(Debug)]
pub struct DomainSummary {
    pub name: String,
    pub query_count: u64,
    pub distinct_processes: u32,
    pub last_seen_unix_ns: i64,
}

/// What a `DomainSummary` holds.
pub struct DomainSummaryView {
    pub name: Seq<char>,
    pub query_count: u64,
    pub distinct_processes: u32,
    pub last_seen_unix_ns: i64,
}

impl DeepView for DomainSummary {
    type V = DomainSummaryView;

    open spec fn deep_view(&self) -> DomainSummaryView {
        DomainSummaryView {
            name: self.name@,
            query_count: self.query_count,
            distinct_processes: self.distinct_processes,
            last_seen_unix_ns: self.last_seen_unix_ns,
        }
    }
}

impl Clone for DomainSummary {
    fn clone(&self) -> (r: Self)
        ensures
            r.deep_view() == self.deep_view(),
    {
        DomainSummary {
            name: self.name.clone(),
            query_count: self.query_count,
            distinct_processes: self.distinct_processes,
            last_seen_unix_ns: self.last_seen_unix_ns,
        }
    }
}

/// The process at the other end of an edge to a name.
pub open spec fn asker_of(name: Seq<char>) -> spec_fn(EdgeRowView) -> Option<Seq<char>> {
    |e: EdgeRowView|
        if e.kind == EdgeKind::QueriedDomain && e.to_id == name {
            Some(e.from_id)
        } else {
            None
        }
}

/// A name's tally.
pub open spec fn domain_tally(edges: Seq<EdgeRowView>) -> spec_fn(NodeRowView) -> Option<
    DomainSummaryView,
> {
    |r: NodeRowView|
        if r.kind == NodeKind::Domain {
            Some(
                DomainSummaryView {
                    name: r.id,
                    query_count: db_count(r.attrs.u64_at("query_count"@)) as u64,
                    distinct_processes: uniques(edges.filter_map(asker_of(r.id))).len() as u32,
                    last_seen_unix_ns: r.last_seen,
                },
            )
        } else {
            None
        }
}

/// Orders names from the most looked up.
pub open spec fn by_queries() -> spec_fn(DomainSummaryView) -> int {
    |d: DomainSummaryView| -(d.query_count as int)
}

/// The names that were looked up most, at most `limit` of them.
pub open spec fn leading_domains(
    nodes: Seq<NodeRowView>,
    edges: Seq<EdgeRowView>,
    limit: int,
) -> Seq<DomainSummaryView> {
    first_n(sort_by_key(nodes.filter_map(domain_tally(edges)), by_queries()), limit)
}

/// How many processes looked a name up.
fn askers(edges: &Vec<EdgeRow>, name: &str) -> (r: usize)
    ensures
        r == uniques(edges.deep_view().filter_map(asker_of(name@))).len(),
{
    let ghost all = edges.deep_view();
    let ghost f = asker_of(name@);
    let mut ids: Vec<String> = Vec::new();
    let mut i: usize = 0;
    proof {
        filter_map_start(all, f);
        assert(ids.deep_view() =~= Seq::<Seq<char>>::empty());
    }
    while i < edges.len()
        invariant
            all == edges.deep_view(),
            f == asker_of(name@),
            i <= edges@.len(),
            ids.deep_view() == all.take(i as int).filter_map(f),
        decreases edges@.len() - i,
    {
        proof {
            filter_map_step(all, f, i as int);
        }
        let e: &EdgeRow = &edges[i];
        if e.kind == EdgeKind::QueriedDomain && str_eq(e.to_id.as_str(), name) {
            push_item(&mut ids, e.from_id.clone());
        }
        i = i + 1;
    }
    proof {
        take_all(all);
    }
    let u = unique_texts(&ids);
    u.len()
}

impl Store {
    /// The names with the most lookups, at most `limit` of them, each with
    /// the number of processes that asked for it.
    pub fn top_domains(&self, limit: usize) -> (r: Result<Vec<DomainSummary>, StoreError>)
        ensures
            r is Ok,
            r->Ok_0.deep_view() == leading_domains(self@.nodes, self@.edges, limit as int),
    {
        let ghost all = self.nodes.deep_view();
        let ghost f = domain_tally(self@.edges);
        let mut out: Vec<DomainSummary> = Vec::new();
        let mut keys: Vec<i128> = Vec::new();
        let mut i: usize = 0;
        proof {
            filter_map_start(all, f);
            assert(out.deep_view() =~= Seq::<DomainSummaryView>::empty());
        }
        while i < self.nodes.len()
            invariant
                all == self.nodes.deep_view(),
                f == domain_tally(self@.edges),
                i <= self.nodes@.len(),
                keyed(out.deep_view(), by_queries(), keys@),
                out.deep_view() == sort_by_key(all.take(i as int).filter_map(f), by_queries()),
            decreases self.nodes@.len() - i,
        {
            proof {
                filter_map_step(all, f, i as int);
            }
            let row: &NodeRow = &self.nodes[i];
            if row.kind == NodeKind::Domain {
                let count: u64 = match row.attrs.u64_at("query_count") {
                    Some(n) => if n > i64::MAX as u64 {
                        i64::MAX as u64
                    } else {
                        n
                    },
                    None => 0,
                };
                let n: usize = askers(&self.edges, row.id.as_str());
                let d = DomainSummary {
                    name: row.id.clone(),
                    query_count: count,
                    distinct_processes: #[verifier::truncate] (n as u32),
                    last_seen_unix_ns: row.last_seen,
                };
                let ghost g = all.take(i as int).filter_map(f);
                assert(g.push(d.deep_view()).drop_last() =~= g);
                insert_row(&mut out, &mut keys, d, -(count as i128), Ghost(by_queries()));
            }
            i = i + 1;
        }
        proof {
            take_all(all);
        }
        let ghost sorted = out.deep_view();
        if limit < out.len() {
            out.truncate(limit);
            assert(out.deep_view() =~= sorted.take(limit as int));
        }
        Ok(out)
    }
}

// ---------- parents ------------------------------------------------------------

/// The parent's id of an edge between two processes in the table whose child
/// was last seen at or after a time.
pub open spec fn live_parent(nodes: Seq<NodeRowView>, since: i64) -> spec_fn(EdgeRowView) -> Option<
    Seq<char>,
> {
    |e: EdgeRowView|
        if e.kind == EdgeKind::ParentOf && node_at(nodes, NodeKind::Process, e.from_id) is Some && (
        node_at(nodes, NodeKind::Process, e.to_id) matches Some(c) && c.last_seen >= since) {
            Some(e.from_id)
        } else {
            None
        }
}

/// Whether a text is the given one.
pub open spec fn same_text(x: Seq<char>) -> spec_fn(Seq<char>) -> bool {
    |y: Seq<char>| y == x
}

/// A parent with the number of its children, if there are enough of them.
pub open spec fn prolific(nodes: Seq<NodeRowView>, parents: Seq<Seq<char>>, min: u32) -> spec_fn(
    Seq<char>,
) -> Option<(ProcessNodeView, u32)> {
    |id: Seq<char>|
        if count_where(parents, same_text(id)) >= min {
            Some(
                (
                    process_of_row(node_at(nodes, NodeKind::Process, id)->0),
                    count_where(parents, same_text(id)) as u32,
                ),
            )
        } else {
            None
        }
}

/// Orders parents by their number of children, the largest first.
pub open spec fn by_children(parents: Seq<Seq<char>>) -> spec_fn(Seq<char>) -> int {
    |id: Seq<char>| -(count_where(parents, same_text(id)) as int)
}

/// The parents with enough children that were seen since a time, the largest
/// number first.
pub open spec fn prolific_parents(
    nodes: Seq<NodeRowView>,
    edges: Seq<EdgeRowView>,
    min: u32,
    since: i64,
) -> Seq<(ProcessNodeView, u32)> {
    let parents = edges.filter_map(live_parent(nodes, since));
    sort_by_key(uniques(parents), by_children(parents)).filter_map(prolific(nodes, parents, min))
}

/// How many of the texts are the given one.
fn count_text(v: &Vec<String>, x: &str) -> (r: u64)
    ensures
        r == count_where(v.deep_view(), same_text(x@)),
        r <= v@.len(),
{
    let ghost all = v.deep_view();
    let mut n: u64 = 0;
    let mut i: usize = 0;
    while i < v.len()
        invariant
            all == v.deep_view(),
            i <= v@.len(),
            n == count_where(all.take(i as int), same_text(x@)),
            n <= i,
        decreases v@.len() - i,
    {
        proof {
            count_where_step(all, same_text(x@), i as int);
        }
        if str_eq(v[i].as_str(), x) {
            n = n + 1;
        }
        i = i + 1;
    }
    proof {
        take_all(all);
    }
    n
}

/// The parents' ids of the edges to children last seen at or after a time.
fn live_parents(nodes: &Vec<NodeRow>, edges: &Vec<EdgeRow>, since: i64) -> (r: Vec<String>)
    ensures
        r.deep_view() == edges.deep_view().filter_map(live_parent(nodes.deep_view(), since)),
        forall|i: int|
            0 <= i < r@.len() ==> node_at(
                nodes.deep_view(),
                NodeKind::Process,
                #[trigger] r.deep_view()[i],
            ) is Some,
{
    let ghost all = edges.deep_view();
    let ghost f = live_parent(nodes.deep_view(), since);
    let mut out: Vec<String> = Vec::new();
    let mut i: usize = 0;
    proof {
        filter_map_start(all, f);
        assert(out.deep_view() =~= Seq::<Seq<char>>::empty());
    }
    while i < edges.len()
        invariant
            all == edges.deep_view(),
            f == live_parent(nodes.deep_view(), since),
            i <= edges@.len(),
            out.deep_view() == all.take(i as int).filter_map(f),
            forall|i: int|
                0 <= i < out@.len() ==> node_at(
                    nodes.deep_view(),
                    NodeKind::Process,
                    #[trigger] out.deep_view()[i],
                ) is Some,
        decreases edges@.len() - i,
    {
        proof {
            filter_map_step(all, f, i as int);
        }
        let e: &EdgeRow = &edges[i];
        if e.kind == EdgeKind::ParentOf {
            match (
                find_node(nodes, NodeKind::Process, e.from_id.as_str()),
                find_node(nodes, NodeKind::Process, e.to_id.as_str()),
            ) {
                (Some(_), Some(c)) => {
                    if nodes[c].last_seen >= since {
                        push_item(&mut out, e.from_id.clone());
                    }
                },
                _ => {},
            }
        }
        i = i + 1;
    }
    proof {
        take_all(all);
    }
    out
}

impl Store {
    /// The parents with at least `min_children` children last seen at or after
    /// `since_unix_ns`, each with their number, the largest first.
    pub fn parents_with_many_children(&self, min_children: u32, since_unix_ns: i64) -> (r: Result<
        Vec<(ProcessNode, u32)>,
        StoreError,
    >)
        ensures
            r is Ok,
            r->Ok_0.deep_view() == prolific_parents(
                self@.nodes,
                self@.edges,
                min_children,
                since_unix_ns,
            ),
    {
        let parents = live_parents(&self.nodes, &self.edges, since_unix_ns);
        let ids = unique_texts(&parents);
        let ghost pv = parents.deep_view();
        let ghost uv = ids.deep_view();
        let ghost key = by_children(pv);
        proof {
            crate::seqs::uniques_are_distinct(pv);
        }
        let mut sorted: Vec<String> = Vec::new();
        let mut keys: Vec<i128> = Vec::new();
        let mut i: usize = 0;
        assert(sorted.deep_view() =~= Seq::<Seq<char>>::empty());
        assert(uv.take(0) =~= Seq::<Seq<char>>::empty());
        while i < ids.len()
            invariant
                pv == parents.deep_view(),
                uv == ids.deep_view(),
                key == by_children(pv),
                i <= ids@.len(),
                keyed(sorted.deep_view(), key, keys@),
                sorted.deep_view() == sort_by_key(uv.take(i as int), key),
            decreases ids@.len() - i,
        {
            let n: u64 = count_text(&parents, ids[i].as_str());
            assert(uv[i as int] == ids@[i as int]@);
            assert(uv.take(i + 1).drop_last() =~= uv.take(i as int));
            insert_row(&mut sorted, &mut keys, ids[i].clone(), -(n as i128), Ghost(key));
            i = i + 1;
        }
        proof {
            take_all(uv);
        }
        let ghost order = sorted.deep_view();
        let ghost f = prolific(self@.nodes, pv, min_children);
        let mut out: Vec<(ProcessNode, u32)> = Vec::new();
        let mut k: usize = 0;
        proof {
            filter_map_start(order, f);
            assert(out.deep_view() =~= Seq::<(ProcessNodeView, u32)>::empty());
            crate::order::sort_by_key_sorts(uv, key);
            assert forall|j: int| 0 <= j < order.len() implies node_at(
                self@.nodes,
                NodeKind::Process,
                #[trigger] order[j],
            ) is Some by {
                broadcast use vstd::seq_lib::group_to_multiset_ensures;

                assert(order.to_multiset().contains(order[j]));
                assert(uv.to_multiset().contains(order[j]));
                assert(uv.contains(order[j]));
                assert(pv.contains(order[j]));
                let m = choose|m: int| 0 <= m < pv.len() && pv[m] == order[j];
                assert(node_at(self@.nodes, NodeKind::Process, pv[m]) is Some);
            }
        }
        while k < sorted.len()
            invariant
                pv == parents.deep_view(),
                order == sorted.deep_view(),
                f == prolific(self@.nodes, pv, min_children),
                k <= sorted@.len(),
                out.deep_view() == order.take(k as int).filter_map(f),
                forall|j: int|
                    0 <= j < order.len() ==> node_at(
                        self@.nodes,
                        NodeKind::Process,
                        #[trigger] order[j],
                    ) is Some,
            decreases sorted@.len() - k,
        {
            proof {
                filter_map_step(order, f, k as int);
            }
            assert(order[k as int] == sorted@[k as int]@);
            let n: u64 = count_text(&parents, sorted[k].as_str());
            if n >= min_children as u64 {
                match find_node(&self.nodes, NodeKind::Process, sorted[k].as_str()) {
                    Some(p) => {
                        push_item(
                            &mut out,
                            (process_from_row(&self.nodes[p]), #[verifier::truncate] (n as u32)),
                        );
                    },
                    None => {
                        assert(false);
                    },
                }
            }
            k = k + 1;
        }
        proof {
            take_all(order);
        }
        Ok(out)
    }
}

// ---------- ancestors ----------------------------------------------------------

/// The parents of a level of processes that were not reached before, in table
/// order: one step of the walk.
pub open spec fn next_level(
    edges: Seq<EdgeRowView>,
    level: Seq<Seq<char>>,
    seen: Seq<Seq<char>>,
) -> Seq<Seq<char>>
    decreases edges.len(),
{
    if edges.len() == 0 {
        Seq::empty()
    } else {
        let rest = next_level(edges.drop_last(), level, seen);
        let e = edges.last();
        if e.kind == EdgeKind::ParentOf && level.contains(e.to_id) && !seen.contains(e.from_id)
            && !rest.contains(e.from_id) {
            rest.push(e.from_id)
        } else {
            rest
        }
    }
}

/// The ids reached by walking parent edges upward from a level, nearest first,
/// at most `depth` steps; what was reached before is not reached again.
pub open spec fn walk_up(
    edges: Seq<EdgeRowView>,
    level: Seq<Seq<char>>,
    seen: Seq<Seq<char>>,
    depth: nat,
) -> Seq<Seq<char>>
    decreases depth,
{
    if depth == 0 || level.len() == 0 {
        Seq::empty()
    } else {
        let up = next_level(edges, level, seen);
        up + walk_up(edges, up, seen + up, (depth - 1) as nat)
    }
}

/// The process with an id, if the table has it.
pub open spec fn process_with_id(nodes: Seq<NodeRowView>) -> spec_fn(Seq<char>) -> Option<
    ProcessNodeView,
> {
    |id: Seq<char>|
        match node_at(nodes, NodeKind::Process, id) {
            Some(r) => Some(process_of_row(r)),
            None => None,
        }
}

/// The ancestors of a process, nearest first, at most `depth` of them.
pub open spec fn ancestors_in(
    nodes: Seq<NodeRowView>,
    edges: Seq<EdgeRowView>,
    id: Seq<char>,
    depth: nat,
) -> Seq<ProcessNodeView> {
    first_n(
        walk_up(edges, seq![id], seq![id], depth).filter_map(process_with_id(nodes)),
        depth as int,
    )
}

/// The parents of a level that were not reached before.
fn level_above(edges: &Vec<EdgeRow>, level: &Vec<String>, seen: &Vec<String>) -> (r: Vec<String>)
    ensures
        r.deep_view() == next_level(edges.deep_view(), level.deep_view(), seen.deep_view()),
{
    let ghost all = edges.deep_view();
    let ghost lv = level.deep_view();
    let ghost sv = seen.deep_view();
    let mut out: Vec<String> = Vec::new();
    let mut i: usize = 0;
    assert(out.deep_view() =~= next_level(all.take(0), lv, sv));
    while i < edges.len()
        invariant
            all == edges.deep_view(),
            lv == level.deep_view(),
            sv == seen.deep_view(),
            i <= edges@.len(),
            out.deep_view() == next_level(all.take(i as int), lv, sv),
        decreases edges@.len() - i,
    {
        assert(all.take(i + 1).drop_last() =~= all.take(i as int));
        let e: &EdgeRow = &edges[i];
        assert(all.take(i + 1).last() == e.deep_view());
        if e.kind == EdgeKind::ParentOf && has_text(level, e.to_id.as_str()) && !has_text(
            seen,
            e.from_id.as_str(),
        ) && !has_text(&out, e.from_id.as_str()) {
            push_item(&mut out, e.from_id.clone());
        }
        i = i + 1;
    }
    proof {
        take_all(all);
    }
    out
}

/// Adds the texts of one list at the end of another.
pub(crate) fn append_texts(v: &mut Vec<String>, more: &Vec<String>)
    ensures
        final(v).deep_view() == old(v).deep_view() + more.deep_view(),
{
    let ghost start = v.deep_view();
    let ghost m = more.deep_view();
    let mut i: usize = 0;
    assert(start + m.take(0) =~= start);
    while i < more.len()
        invariant
            m == more.deep_view(),
            i <= more@.len(),
            v.deep_view() == start + m.take(i as int),
        decreases more@.len() - i,
    {
        push_item(v, more[i].clone());
        assert((start + m.take(i as int)).push(m[i as int]) =~= start + m.take(i + 1));
        i = i + 1;
    }
    proof {
        take_all(m);
    }
}

impl Store {
    /// The ancestors of a process, nearest first, by walking parent edges
    /// upward at most `max_depth` steps and listing at most `max_depth` of the
    /// processes met. The walk stops at a cycle and where no parent is known.
    pub fn ancestors_of(&self, pid_id: &str, max_depth: u32) -> (r: Result<
        Vec<ProcessNode>,
        StoreError,
    >)
        ensures
            r is Ok,
            r->Ok_0.deep_view() == ancestors_in(
                self@.nodes,
                self@.edges,
                pid_id@,
                max_depth as nat,
            ),
    {
        let ghost ev = self.edges.deep_view();
        let mut level: Vec<String> = Vec::new();
        level.push(pid_id.to_owned());
        let mut seen: Vec<String> = Vec::new();
        seen.push(pid_id.to_owned());
        let mut found: Vec<String> = Vec::new();
        assert(level.deep_view() =~= seq![pid_id@]);
        assert(seen.deep_view() =~= seq![pid_id@]);
        let ghost whole = walk_up(ev, seq![pid_id@], seq![pid_id@], max_depth as nat);
        assert(found.deep_view() + whole =~= whole);
        let mut left: u32 = max_depth;
        while left > 0 && level.len() > 0
            invariant
                ev == self.edges.deep_view(),
                whole == found.deep_view() + walk_up(
                    ev,
                    level.deep_view(),
                    seen.deep_view(),
                    left as nat,
                ),
            decreases left,
        {
            let up = level_above(&self.edges, &level, &seen);
            let ghost f = found.deep_view();
            let ghost u = up.deep_view();
            let ghost s = seen.deep_view();
            append_texts(&mut found, &up);
            append_texts(&mut seen, &up);
            assert(f + (u + walk_up(ev, u, s + u, (left - 1) as nat)) =~= (f + u) + walk_up(
                ev,
                u,
                s + u,
                (left - 1) as nat,
            ));
            level = up;
            left = left - 1;
        }
        assert(found.deep_view() =~= whole);
        let ghost ids = found.deep_view();
        let ghost f = process_with_id(self@.nodes);
        let mut out: Vec<ProcessNode> = Vec::new();
        let mut i: usize = 0;
        proof {
            filter_map_start(ids, f);
            assert(out.deep_view() =~= Seq::<ProcessNodeView>::empty());
        }
        while i < found.len()
            invariant
                ids == found.deep_view(),
                f == process_with_id(self@.nodes),
                i <= found@.len(),
                out.deep_view() == ids.take(i as int).filter_map(f),
            decreases found@.len() - i,
        {
            proof {
                filter_map_step(ids, f, i as int);
            }
            assert(ids[i as int] == found@[i as int]@);
            match find_node(&self.nodes, NodeKind::Process, found[i].as_str()) {
                Some(k) => push_item(&mut out, process_from_row(&self.nodes[k])),
                None => {},
            }
            i = i + 1;
        }
        proof {
            take_all(ids);
        }
        let ghost listed = out.deep_view();
        if (max_depth as usize) < out.len() {
            out.truncate(max_depth as usize);
            assert(out.deep_view() =~= listed.take(max_depth as int));
        }
        Ok(out)
    }
}

/// No step of the walk reaches what was reached before, nor the same process
/// twice.
pub proof fn next_level_is_new(
    edges: Seq<EdgeRowView>,
    level: Seq<Seq<char>>,
    seen: Seq<Seq<char>>,
)
    ensures
        next_level(edges, level, seen).no_duplicates(),
        forall|i: int|
            0 <= i < next_level(edges, level, seen).len() ==> !seen.contains(
                #[trigger] next_level(edges, level, seen)[i],
            ),
    decreases edges.len(),
{
    if edges.len() > 0 {
        next_level_is_new(edges.drop_last(), level, seen);
    }
}

/// The walk reaches no process twice, and never one that was reached before
/// it began: a cycle ends it.
pub proof fn walk_up_has_no_cycle(
    edges: Seq<EdgeRowView>,
    level: Seq<Seq<char>>,
    seen: Seq<Seq<char>>,
    depth: nat,
)
    ensures
        walk_up(edges, level, seen, depth).no_duplicates(),
        forall|i: int|
            0 <= i < walk_up(edges, level, seen, depth).len() ==> !seen.contains(
                #[trigger] walk_up(edges, level, seen, depth)[i],
            ),
    decreases depth,
{
    if depth > 0 && level.len() > 0 {
        let up = next_level(edges, level, seen);
        let d = (depth - 1) as nat;
        next_level_is_new(edges, level, seen);
        walk_up_has_no_cycle(edges, up, seen + up, d);
        let rest = walk_up(edges, up, seen + up, d);
        let w = up + rest;
        assert forall|i: int| 0 <= i < rest.len() implies !seen.contains(#[trigger] rest[i])
            && !up.contains(rest[i]) by {
            assert(!(seen + up).contains(rest[i]));
            if seen.contains(rest[i]) {
                let k = choose|k: int| 0 <= k < seen.len() && seen[k] == rest[i];
                assert((seen + up)[k] == rest[i]);
            }
            if up.contains(rest[i]) {
                let k = choose|k: int| 0 <= k < up.len() && up[k] == rest[i];
                assert((seen + up)[seen.len() + k] == rest[i]);
            }
        }
        assert forall|i: int, j: int| 0 <= i < w.len() && 0 <= j < w.len() && i != j implies w[i]
            != w[j] by {
            if i < up.len() && j < up.len() {
                assert(up[i] != up[j]);
            } else if i >= up.len() && j >= up.len() {
                assert(rest[i - up.len()] != rest[j - up.len()]);
            } else if i < up.len() {
                assert(!up.contains(rest[j - up.len()]));
                assert(up.contains(up[i]));
            } else {
                assert(!up.contains(rest[i - up.len()]));
                assert(up.contains(up[j]));
            }
        }
        assert forall|i: int| 0 <= i < w.len() implies !seen.contains(#[trigger] w[i]) by {
            if i < up.len() {
                assert(w[i] == up[i]);
            } else {
                assert(w[i] == rest[i - up.len()]);
            }
        }
    }
}

// ---------- edges with their tallies -------------------------------------------

/// An edge's observation tally and the span it was tallied over.
#[derive(Debug)]
pub struct EdgeRate {
    pub from_id: String,
    pub to_id: String,
    pub count: u64,
    pub first_seen_unix_ns: i64,
    pub last_seen_unix_ns: i64,
}

/// What an `EdgeRate` holds.
pub struct EdgeRateView {
    pub from_id: Seq<char>,
    pub to_id: Seq<char>,
    pub count: u64,
    pub first_seen_unix_ns: i64,
    pub last_seen_unix_ns: i64,
}

impl DeepView for EdgeRate {
    type V = EdgeRateView;

    open spec fn deep_view(&self) -> EdgeRateView {
        EdgeRateView {
            from_id: self.from_id@,
            to_id: self.to_id@,
            count: self.count,
            first_seen_unix_ns: self.first_seen_unix_ns,
            last_seen_unix_ns: self.last_seen_unix_ns,
        }
    }
}

impl Clone for EdgeRate {
    fn clone(&self) -> (r: Self)
        ensures
            r.deep_view() == self.deep_view(),
    {
        EdgeRate {
            from_id: self.from_id.clone(),
            to_id: self.to_id.clone(),
            count: self.count,
            first_seen_unix_ns: self.first_seen_unix_ns,
            last_seen_unix_ns: self.last_seen_unix_ns,
        }
    }
}

/// The tally of an edge of a kind.
pub open spec fn rate_of(kind: Seq<char>) -> spec_fn(EdgeRowView) -> Option<EdgeRateView> {
    |e: EdgeRowView|
        if e.kind.spec_name() == kind {
            Some(
                EdgeRateView {
                    from_id: e.from_id,
                    to_id: e.to_id,
                    count: e.count,
                    first_seen_unix_ns: e.first_seen,
                    last_seen_unix_ns: e.last_seen,
                },
            )
        } else {
            None
        }
}

impl Store {
    /// Every edge of a kind with its tally and its span.
    pub fn edge_rates(&self, kind: &str) -> (r: Result<Vec<EdgeRate>, StoreError>)
        ensures
            r is Ok,
            r->Ok_0.deep_view() == self@.edges.filter_map(rate_of(kind@)),
    {
        let ghost all = self.edges.deep_view();
        let ghost f = rate_of(kind@);
        let mut out: Vec<EdgeRate> = Vec::new();
        let mut i: usize = 0;
        proof {
            filter_map_start(all, f);
            assert(out.deep_view() =~= Seq::<EdgeRateView>::empty());
        }
        while i < self.edges.len()
            invariant
                all == self.edges.deep_view(),
                f == rate_of(kind@),
                i <= self.edges@.len(),
                out.deep_view() == all.take(i as int).filter_map(f),
            decreases self.edges@.len() - i,
        {
            proof {
                filter_map_step(all, f, i as int);
            }
            let e: &EdgeRow = &self.edges[i];
            if str_eq(e.kind.name(), kind) {
                push_item(
                    &mut out,
                    EdgeRate {
                        from_id: e.from_id.clone(),
                        to_id: e.to_id.clone(),
                        count: e.count,
                        first_seen_unix_ns: e.first_seen,
                        last_seen_unix_ns: e.last_seen,
                    },
                );
            }
            i = i + 1;
        }
        proof {
            take_all(all);
        }
        Ok(out)
    }
}

} // verus!
