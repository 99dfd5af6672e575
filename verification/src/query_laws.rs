//! What holds of the store's answers: which rows they are of, what they add up,
//! and in which order they come.

use vstd::prelude::*;

use crate::events::EventKind;
use crate::graph::ProcessNodeView;
use crate::history_laws::sorted_list_is_complete;
use crate::json::JsonView;
use crate::node_laws::kept_are_those;
use crate::order::{ascending, first_n, sort_by_key, sort_by_key_sorts};
use crate::seqs::{
    count_kept, count_where, counted_is_there, distinct_by, filter_map_from, filter_map_keeps,
    filter_map_start, filter_map_step, first_where, first_where_is_first, keeps_where, sum_of,
    take_all, uniques, uniques_are_distinct,
};
use crate::store::{EdgeKind, EdgeRowView, EventRowView, NodeKind, NodeRowView, StoreView};
use crate::store_admin::{keep_edge, keep_event, keep_node, pruned};
use crate::store_lineage::{
    ancestors_in, asker_of, by_children, by_queries, domain_tally, leading_domains, live_parent,
    next_level, process_with_id, prolific, prolific_parents, rate_of, same_text, walk_up,
    DomainSummaryView, EdgeRateView,
};
use crate::store_load::{event_of_row, event_time, events_between, nodes_in, overlaps, pick_event};
use crate::store_merge::{is_node, node_at, node_key};
use crate::store_query::{
    addrs_of, busiest_endpoints, by_bytes, bytes_to, endpoint_of, endpoints_of, escalated, goes_to,
    outside, owner_to, totals_fit, traffic, under_any, EndpointSummaryView,
};
use crate::store_rows::process_of_row;
use crate::summary_laws::{is_counted, kept_twice, same_count};
use crate::text::has_prefix;

verus! {

// ---------- rows -------------------------------------------------------------------

/// Whether a row is the node of a kind with an id.
pub open spec fn is_row_of(nodes: Seq<NodeRowView>, kind: NodeKind, id: Seq<char>, r: NodeRowView) -> bool {
    nodes.contains(r) && r.kind == kind && r.id == id
}

/// A row is found by its kind and its id.
pub proof fn row_is_found(nodes: Seq<NodeRowView>, kind: NodeKind, id: Seq<char>, r: NodeRowView)
    requires
        distinct_by(nodes, node_key()),
    ensures
        node_at(nodes, kind, id) == Some(r) <==> is_row_of(nodes, kind, id, r),
{
    let p = is_node(kind, id);
    first_where_is_first(nodes, p);
    match first_where(nodes, p) {
        Some(i) => {
            if is_row_of(nodes, kind, id, r) {
                let j = choose|j: int| 0 <= j < nodes.len() && nodes[j] == r;
                if i < j {
                    assert(node_key()(nodes[i]) != node_key()(nodes[j]));
                } else if j < i {
                    assert(node_key()(nodes[j]) != node_key()(nodes[i]));
                }
            }
        },
        None => {
            if is_row_of(nodes, kind, id, r) {
                let j = choose|j: int| 0 <= j < nodes.len() && nodes[j] == r;
                assert(!p(nodes[j]));
            }
        },
    }
}

/// What a function keeps of a sequence.
proof fn kept_of_some<A, B>(s: Seq<A>, f: spec_fn(A) -> Option<B>, x: B)
    ensures
        s.filter_map(f).contains(x) <==> exists|i: int|
            0 <= i < s.len() && f(#[trigger] s[i]) == Some(x),
{
    let kept = s.filter_map(f);
    if kept.contains(x) {
        let k = choose|k: int| 0 <= k < kept.len() && kept[k] == x;
        filter_map_from(s, f, k);
    }
    if exists|i: int| 0 <= i < s.len() && f(#[trigger] s[i]) == Some(x) {
        let i = choose|i: int| 0 <= i < s.len() && f(#[trigger] s[i]) == Some(x);
        filter_map_keeps(s, f, i);
    }
}

// ---------- suspicious processes ---------------------------------------------------

/// Whether an edge is from a parent that runs as an ordinary user to a child that
/// runs as root and was seen since a time.
pub open spec fn is_escalation(
    e: EdgeRowView,
    nodes: Seq<NodeRowView>,
    since: i64,
    child: NodeRowView,
    parent: NodeRowView,
) -> bool {
    &&& e.kind == EdgeKind::ParentOf
    &&& is_row_of(nodes, NodeKind::Process, e.to_id, child)
    &&& is_row_of(nodes, NodeKind::Process, e.from_id, parent)
    &&& child.attrs.get("uid"@) == Some(JsonView::Int(0))
    &&& parent.attrs.get("uid"@) matches Some(JsonView::Int(u)) && u > 0
    &&& child.last_seen >= since
}

/// A process is listed as root under an ordinary user exactly if an edge says so
/// of it and its parent, and it was seen since the time.
pub proof fn escalations_are_listed(
    nodes: Seq<NodeRowView>,
    edges: Seq<EdgeRowView>,
    since: i64,
    p: ProcessNodeView,
)
    requires
        distinct_by(nodes, node_key()),
    ensures
        edges.filter_map(escalated(nodes, since)).contains(p) <==> exists|
            i: int,
            child: NodeRowView,
            parent: NodeRowView,
        |
            0 <= i < edges.len() && #[trigger] is_escalation(
                edges[i],
                nodes,
                since,
                child,
                parent,
            ) && p == process_of_row(child),
{
    let f = escalated(nodes, since);
    kept_of_some(edges, f, p);
    if edges.filter_map(f).contains(p) {
        let i = choose|i: int| 0 <= i < edges.len() && f(#[trigger] edges[i]) == Some(p);
        let e = edges[i];
        let child = node_at(nodes, NodeKind::Process, e.to_id)->0;
        let parent = node_at(nodes, NodeKind::Process, e.from_id)->0;
        row_is_found(nodes, NodeKind::Process, e.to_id, child);
        row_is_found(nodes, NodeKind::Process, e.from_id, parent);
        assert(is_escalation(edges[i], nodes, since, child, parent));
    }
    if exists|i: int, child: NodeRowView, parent: NodeRowView|
        0 <= i < edges.len() && #[trigger] is_escalation(edges[i], nodes, since, child, parent) && p
            == process_of_row(child) {
        let (i, child, parent) = choose|i: int, child: NodeRowView, parent: NodeRowView|
            0 <= i < edges.len() && #[trigger] is_escalation(edges[i], nodes, since, child, parent)
                && p == process_of_row(child);
        let e = edges[i];
        row_is_found(nodes, NodeKind::Process, e.to_id, child);
        row_is_found(nodes, NodeKind::Process, e.from_id, parent);
        assert(f(edges[i]) == Some(p));
    }
}

/// Whether a path lies under one of some directories: it begins with it.
pub open spec fn lies_under(path: Seq<char>, prefixes: Seq<Seq<char>>) -> bool {
    exists|i: int|
        0 <= i < prefixes.len() && (#[trigger] prefixes[i]).len() <= path.len() && path.take(
            prefixes[i].len() as int,
        ) == prefixes[i]
}

/// A process is listed as outside of some directories exactly if it was seen
/// since the time and its executable lies under none of them; one without a path
/// lies under none.
pub proof fn outsiders_are_listed(
    nodes: Seq<NodeRowView>,
    prefixes: Seq<Seq<char>>,
    since: i64,
    p: ProcessNodeView,
)
    ensures
        nodes.filter_map(outside(prefixes, since)).contains(p) <==> exists|i: int|
            0 <= i < nodes.len() && (#[trigger] nodes[i]).kind == NodeKind::Process
                && nodes[i].last_seen >= since && !(nodes[i].attrs.str_at(
                "exec_path"@,
            ) matches Some(path) && lies_under(path, prefixes)) && p == process_of_row(nodes[i]),
{
    let f = outside(prefixes, since);
    kept_of_some(nodes, f, p);
    assert forall|path: Seq<char>| #[trigger] under_any(path, prefixes) <==> lies_under(
        path,
        prefixes,
    ) by {
        if under_any(path, prefixes) {
            let i = choose|i: int|
                0 <= i < prefixes.len() && has_prefix(path, #[trigger] prefixes[i]);
            assert(path.subrange(0, prefixes[i].len() as int) =~= path.take(
                prefixes[i].len() as int,
            ));
        }
        if lies_under(path, prefixes) {
            let i = choose|i: int|
                0 <= i < prefixes.len() && (#[trigger] prefixes[i]).len() <= path.len()
                    && path.take(prefixes[i].len() as int) == prefixes[i];
            assert(path.subrange(0, prefixes[i].len() as int) =~= path.take(
                prefixes[i].len() as int,
            ));
            assert(has_prefix(path, prefixes[i]));
        }
    }
    if nodes.filter_map(f).contains(p) {
        let i = choose|i: int| 0 <= i < nodes.len() && f(#[trigger] nodes[i]) == Some(p);
        assert(nodes[i].kind == NodeKind::Process);
    }
    if exists|i: int|
        0 <= i < nodes.len() && (#[trigger] nodes[i]).kind == NodeKind::Process
            && nodes[i].last_seen >= since && !(nodes[i].attrs.str_at("exec_path"@) matches Some(
            path,
        ) && lies_under(path, prefixes)) && p == process_of_row(nodes[i]) {
        let i = choose|i: int|
            0 <= i < nodes.len() && (#[trigger] nodes[i]).kind == NodeKind::Process
                && nodes[i].last_seen >= since && !(nodes[i].attrs.str_at(
                "exec_path"@,
            ) matches Some(path) && lies_under(path, prefixes)) && p == process_of_row(nodes[i]);
        assert(f(nodes[i]) == Some(p));
    }
}

// ---------- endpoints --------------------------------------------------------------

/// Whether a row is of a connection to an endpoint.
pub open spec fn goes_there(addr: Option<Seq<char>>) -> spec_fn(NodeRowView) -> bool {
    |r: NodeRowView| r.kind == NodeKind::Socket && r.attrs.str_at("foreign_addr"@) == addr
}

/// A counter, as a table holds it.
pub open spec fn held(n: Option<u64>) -> int {
    match n {
        Some(k) if k <= i64::MAX => k as int,
        Some(_) => i64::MAX as int,
        None => 0,
    }
}

/// The bytes that a connection to an endpoint moved, both ways.
pub open spec fn moved(addr: Option<Seq<char>>) -> spec_fn(NodeRowView) -> int {
    |r: NodeRowView|
        if r.kind == NodeKind::Socket && r.attrs.str_at("foreign_addr"@) == addr {
            held(r.attrs.u64_at("rxbytes_last"@)) + held(r.attrs.u64_at("txbytes_last"@))
        } else {
            0
        }
}

/// Whether numbers are the ids of the processes that connected to an endpoint,
/// each once.
pub open spec fn are_owners(pids: Seq<u32>, nodes: Seq<NodeRowView>, addr: Option<Seq<char>>) -> bool {
    pids.no_duplicates() && forall|p: u32| #[trigger]
        pids.contains(p) <==> exists|i: int|
            0 <= i < nodes.len() && goes_there(addr)(#[trigger] nodes[i]) && nodes[i].attrs.u32_at(
                "pid_at_open"@,
            ) == Some(p)
}

/// Whether a summary tells an endpoint: all the bytes of its connections, their
/// number, and that of the processes behind them.
pub open spec fn tells_endpoint(
    s: EndpointSummaryView,
    nodes: Seq<NodeRowView>,
    addr: Option<Seq<char>>,
) -> bool {
    &&& s.foreign_addr == match addr {
        Some(a) => a,
        None => "?"@,
    }
    &&& s.total_bytes == sum_of(nodes, moved(addr))
    &&& s.connection_count == count_where(nodes, goes_there(addr))
    &&& s.connection_count > 0
    &&& exists|pids: Seq<u32>| #[trigger]
        are_owners(pids, nodes, addr) && s.distinct_processes == pids.len()
}

proof fn sum_of_kept<A, B>(s: Seq<A>, f: spec_fn(A) -> Option<B>, g: spec_fn(B) -> int, h: spec_fn(A) -> int)
    requires
        forall|a: A| #[trigger] h(a) == match f(a) {
            Some(b) => g(b),
            None => 0,
        },
    ensures
        sum_of(s.filter_map(f), g) == sum_of(s, h),
    decreases s.len(),
{
    if s.len() == 0 {
        filter_map_start(s, f);
        take_all(s);
    } else {
        let n = s.len() - 1;
        let t = s.take(n);
        assert(s.drop_last() =~= t);
        sum_of_kept(t, f, g, h);
        filter_map_step(s, f, n);
        take_all(s);
        match f(s[n]) {
            Some(b) => {
                assert(s.filter_map(f).drop_last() =~= t.filter_map(f));
            },
            None => {},
        }
        assert(h(s[n]) == match f(s[n]) {
            Some(b) => g(b),
            None => 0,
        });
    }
}

proof fn endpoint_is_told(nodes: Seq<NodeRowView>, addr: Option<Seq<char>>)
    requires
        nodes.len() <= u32::MAX,
        count_where(nodes, goes_there(addr)) > 0,
        sum_of(nodes.filter_map(traffic()), bytes_to(addr)) <= i64::MAX,
    ensures
        tells_endpoint(endpoint_of(nodes.filter_map(traffic()), addr), nodes, addr),
{
    let f = traffic();
    let ts = nodes.filter_map(f);
    let s = endpoint_of(ts, addr);
    assert forall|r: NodeRowView| #[trigger] moved(addr)(r) == match f(r) {
        Some(t) => bytes_to(addr)(t),
        None => 0,
    } by {}
    sum_of_kept(nodes, f, bytes_to(addr), moved(addr));
    count_kept(nodes, f, goes_to(addr));
    assert forall|r: NodeRowView| #[trigger] keeps_where(f, goes_to(addr))(r) == goes_there(addr)(
        r,
    ) by {}
    same_count(nodes, keeps_where(f, goes_to(addr)), goes_there(addr));
    let owners = ts.filter_map(owner_to(addr));
    let pids = uniques(owners);
    uniques_are_distinct(owners);
    crate::seqs::filter_map_is_no_longer(nodes, f);
    crate::seqs::filter_map_is_no_longer(ts, owner_to(addr));
    assert forall|p: u32| #[trigger]
        pids.contains(p) <==> exists|i: int|
            0 <= i < nodes.len() && goes_there(addr)(#[trigger] nodes[i]) && nodes[i].attrs.u32_at(
                "pid_at_open"@,
            ) == Some(p) by {
        kept_twice(nodes, f, owner_to(addr), p);
        if pids.contains(p) {
            let i = choose|i: int|
                0 <= i < nodes.len() && (f(#[trigger] nodes[i]) matches Some(t) && owner_to(addr)(t)
                    == Some(p));
            assert(goes_there(addr)(nodes[i]));
        }
        if exists|i: int|
            0 <= i < nodes.len() && goes_there(addr)(#[trigger] nodes[i]) && nodes[i].attrs.u32_at(
                "pid_at_open"@,
            ) == Some(p) {
            let i = choose|i: int|
                0 <= i < nodes.len() && goes_there(addr)(#[trigger] nodes[i])
                    && nodes[i].attrs.u32_at("pid_at_open"@) == Some(p);
            assert(f(nodes[i]) matches Some(t) && owner_to(addr)(t) == Some(p));
        }
    }
    assert(are_owners(pids, nodes, addr));
    moved_is_positive(nodes, addr);
}

proof fn moved_is_positive(nodes: Seq<NodeRowView>, addr: Option<Seq<char>>)
    ensures
        sum_of(nodes, moved(addr)) >= 0,
    decreases nodes.len(),
{
    if nodes.len() > 0 {
        moved_is_positive(nodes.drop_last(), addr);
    }
}

proof fn address_is_there(nodes: Seq<NodeRowView>, addr: Option<Seq<char>>)
    ensures
        addrs_of(nodes.filter_map(traffic())).contains(addr) <==> count_where(
            nodes,
            goes_there(addr),
        ) > 0,
{
    let f = traffic();
    let ts = nodes.filter_map(f);
    let all = Seq::new(ts.len(), |i: int| ts[i].addr);
    uniques_are_distinct(all);
    count_kept(nodes, f, goes_to(addr));
    assert forall|r: NodeRowView| #[trigger] keeps_where(f, goes_to(addr))(r) == goes_there(addr)(
        r,
    ) by {}
    same_count(nodes, keeps_where(f, goes_to(addr)), goes_there(addr));
    if all.contains(addr) {
        let i = choose|i: int| 0 <= i < all.len() && all[i] == addr;
        assert(goes_to(addr)(ts[i]));
        is_counted(ts, goes_to(addr), i);
    }
    if count_where(nodes, goes_there(addr)) > 0 {
        counted_is_there(ts, goes_to(addr));
        let i = choose|i: int| 0 <= i < ts.len() && goes_to(addr)(#[trigger] ts[i]);
        assert(all[i] == addr);
    }
}

/// The endpoints with the most bytes are listed, the busiest first and up to the
/// limit, each with all of its connections; one that is not listed finds the list
/// full of endpoints with no fewer bytes.
pub proof fn busiest_are_listed(nodes: Seq<NodeRowView>, limit: int, i: int, j: int, addr: Option<Seq<char>>)
    requires
        nodes.len() <= u32::MAX,
        totals_fit(nodes.filter_map(traffic())),
        limit >= 0,
    ensures
        ({
            let listed = busiest_endpoints(nodes, limit);
            &&& listed.len() <= limit
            &&& 0 <= i < listed.len() ==> exists|a: Option<Seq<char>>| #[trigger]
                tells_endpoint(listed[i], nodes, a)
            &&& 0 <= i < j < listed.len() ==> listed[i].total_bytes >= listed[j].total_bytes
            &&& count_where(nodes, goes_there(addr)) > 0 ==> (exists|k: int|
                0 <= k < listed.len() && tells_endpoint(#[trigger] listed[k], nodes, addr)) || (
            listed.len() == limit && (0 <= i < listed.len() ==> listed[i].total_bytes >= sum_of(
                nodes,
                moved(addr),
            )))
        }),
{
    broadcast use vstd::seq_lib::group_to_multiset_ensures;

    let ts = nodes.filter_map(traffic());
    let addrs = addrs_of(ts);
    let all = endpoints_of(ts);
    let order = sort_by_key(all, by_bytes());
    let listed = busiest_endpoints(nodes, limit);
    sort_by_key_sorts(all, by_bytes());
    if 0 <= i < listed.len() {
        assert(order[i] == listed[i]);
        assert(order.to_multiset().count(order[i]) > 0);
        assert(all.contains(order[i]));
        let k = choose|k: int| 0 <= k < all.len() && all[k] == order[i];
        assert(addrs.contains(addrs[k]));
        address_is_there(nodes, addrs[k]);
        endpoint_is_told(nodes, addrs[k]);
        assert(tells_endpoint(listed[i], nodes, addrs[k]));
    }
    if 0 <= i < j < listed.len() {
        assert(by_bytes()(order[i]) <= by_bytes()(order[j]));
    }
    if count_where(nodes, goes_there(addr)) > 0 {
        address_is_there(nodes, addr);
        let k = choose|k: int| 0 <= k < addrs.len() && addrs[k] == addr;
        endpoint_is_told(nodes, addr);
        let s = endpoint_of(ts, addr);
        assert(all[k] == s);
        assert(all.contains(s));
        assert(order.to_multiset().count(s) > 0);
        assert(order.contains(s));
        let m = choose|m: int| 0 <= m < order.len() && order[m] == s;
        if m < listed.len() {
            assert(tells_endpoint(listed[m], nodes, addr));
        } else if 0 <= i < listed.len() {
            assert(by_bytes()(order[i]) <= by_bytes()(order[m]));
        }
    }
}

// ---------- names ------------------------------------------------------------------

/// Whether texts are the processes that looked up a name, each once.
pub open spec fn are_askers(ids: Seq<Seq<char>>, edges: Seq<EdgeRowView>, name: Seq<char>) -> bool {
    ids.no_duplicates() && forall|p: Seq<char>| #[trigger]
        ids.contains(p) <==> exists|i: int|
            0 <= i < edges.len() && (#[trigger] edges[i]).kind == EdgeKind::QueriedDomain
                && edges[i].to_id == name && edges[i].from_id == p
}

/// Whether a summary tells a name: its lookups, how many processes looked it up,
/// and when it was last seen.
pub open spec fn tells_domain(s: DomainSummaryView, r: NodeRowView, edges: Seq<EdgeRowView>) -> bool {
    &&& r.kind == NodeKind::Domain
    &&& s.name == r.id
    &&& s.query_count == held(r.attrs.u64_at("query_count"@))
    &&& s.last_seen_unix_ns == r.last_seen
    &&& exists|ids: Seq<Seq<char>>| #[trigger]
        are_askers(ids, edges, r.id) && s.distinct_processes == ids.len()
}

proof fn domain_is_told(r: NodeRowView, edges: Seq<EdgeRowView>)
    requires
        r.kind == NodeKind::Domain,
        edges.len() <= u32::MAX,
    ensures
        domain_tally(edges)(r) matches Some(s) && tells_domain(s, r, edges),
{
    let f = asker_of(r.id);
    let ids = uniques(edges.filter_map(f));
    uniques_are_distinct(edges.filter_map(f));
    crate::seqs::filter_map_is_no_longer(edges, f);
    assert forall|p: Seq<char>| #[trigger]
        ids.contains(p) <==> exists|i: int|
            0 <= i < edges.len() && (#[trigger] edges[i]).kind == EdgeKind::QueriedDomain
                && edges[i].to_id == r.id && edges[i].from_id == p by {
        kept_of_some(edges, f, p);
        if ids.contains(p) {
            let i = choose|i: int| 0 <= i < edges.len() && f(#[trigger] edges[i]) == Some(p);
            assert(edges[i].kind == EdgeKind::QueriedDomain);
        }
        if exists|i: int|
            0 <= i < edges.len() && (#[trigger] edges[i]).kind == EdgeKind::QueriedDomain
                && edges[i].to_id == r.id && edges[i].from_id == p {
            let i = choose|i: int|
                0 <= i < edges.len() && (#[trigger] edges[i]).kind == EdgeKind::QueriedDomain
                    && edges[i].to_id == r.id && edges[i].from_id == p;
            assert(f(edges[i]) == Some(p));
        }
    }
    assert(are_askers(ids, edges, r.id));
}

/// The names that were looked up most are listed, the most first and up to the
/// limit; one that is not listed finds the list full of names with no fewer
/// lookups.
pub proof fn leading_names_are_listed(
    nodes: Seq<NodeRowView>,
    edges: Seq<EdgeRowView>,
    limit: int,
    i: int,
    j: int,
    n: int,
)
    requires
        edges.len() <= u32::MAX,
        limit >= 0,
    ensures
        ({
            let listed = leading_domains(nodes, edges, limit);
            &&& listed.len() <= limit
            &&& 0 <= i < listed.len() ==> exists|k: int|
                0 <= k < nodes.len() && tells_domain(listed[i], #[trigger] nodes[k], edges)
            &&& 0 <= i < j < listed.len() ==> listed[i].query_count >= listed[j].query_count
            &&& 0 <= n < nodes.len() && nodes[n].kind == NodeKind::Domain ==> (exists|k: int|
                0 <= k < listed.len() && tells_domain(#[trigger] listed[k], nodes[n], edges)) || (
            listed.len() == limit && (0 <= i < listed.len() ==> listed[i].query_count >= held(
                nodes[n].attrs.u64_at("query_count"@),
            )))
        }),
{
    let f = domain_tally(edges);
    let order = sort_by_key(nodes.filter_map(f), by_queries());
    let listed = leading_domains(nodes, edges, limit);
    sort_by_key_sorts(nodes.filter_map(f), by_queries());
    if 0 <= i < listed.len() {
        assert(order.contains(order[i]));
        sorted_list_is_complete(nodes, f, by_queries(), order[i]);
        let k = choose|k: int| 0 <= k < nodes.len() && f(#[trigger] nodes[k]) == Some(order[i]);
        domain_is_told(nodes[k], edges);
        assert(tells_domain(listed[i], nodes[k], edges));
    }
    if 0 <= i < j < listed.len() {
        assert(by_queries()(order[i]) <= by_queries()(order[j]));
    }
    if 0 <= n < nodes.len() && nodes[n].kind == NodeKind::Domain {
        domain_is_told(nodes[n], edges);
        let s = f(nodes[n])->0;
        sorted_list_is_complete(nodes, f, by_queries(), s);
        assert(order.contains(s));
        let m = choose|m: int| 0 <= m < order.len() && order[m] == s;
        if m < listed.len() {
            assert(tells_domain(listed[m], nodes[n], edges));
        } else if 0 <= i < listed.len() {
            assert(by_queries()(order[i]) <= by_queries()(order[m]));
        }
    }
}

// ---------- parents ----------------------------------------------------------------

/// Whether an edge is from a process to a child that the table has and that was
/// seen since a time.
pub open spec fn is_child_edge(nodes: Seq<NodeRowView>, since: i64, id: Seq<char>) -> spec_fn(
    EdgeRowView,
) -> bool {
    |e: EdgeRowView|
        e.kind == EdgeKind::ParentOf && e.from_id == id && exists|c: NodeRowView| #[trigger]
            is_row_of(nodes, NodeKind::Process, e.to_id, c) && c.last_seen >= since
}

/// How many children of a process were seen since a time.
pub open spec fn children(
    nodes: Seq<NodeRowView>,
    edges: Seq<EdgeRowView>,
    since: i64,
    id: Seq<char>,
) -> nat {
    count_where(edges, is_child_edge(nodes, since, id))
}

proof fn children_are_counted(
    nodes: Seq<NodeRowView>,
    edges: Seq<EdgeRowView>,
    since: i64,
    row: NodeRowView,
)
    requires
        distinct_by(nodes, node_key()),
        nodes.contains(row),
        row.kind == NodeKind::Process,
    ensures
        count_where(edges.filter_map(live_parent(nodes, since)), same_text(row.id)) == children(
            nodes,
            edges,
            since,
            row.id,
        ),
        children(nodes, edges, since, row.id) <= edges.len(),
{
    let f = live_parent(nodes, since);
    let p = is_child_edge(nodes, since, row.id);
    count_kept(edges, f, same_text(row.id));
    assert forall|e: EdgeRowView| #[trigger] keeps_where(f, same_text(row.id))(e) == p(e) by {
        row_is_found(nodes, NodeKind::Process, row.id, row);
        if keeps_where(f, same_text(row.id))(e) {
            let c = node_at(nodes, NodeKind::Process, e.to_id)->0;
            row_is_found(nodes, NodeKind::Process, e.to_id, c);
            assert(is_row_of(nodes, NodeKind::Process, e.to_id, c) && c.last_seen >= since);
        }
        if p(e) {
            let c = choose|c: NodeRowView| #[trigger]
                is_row_of(nodes, NodeKind::Process, e.to_id, c) && c.last_seen >= since;
            row_is_found(nodes, NodeKind::Process, e.to_id, c);
        }
    }
    same_count(edges, keeps_where(f, same_text(row.id)), p);
}

/// Whether an entry tells a parent with enough children.
pub open spec fn tells_parent(
    x: (ProcessNodeView, u32),
    nodes: Seq<NodeRowView>,
    edges: Seq<EdgeRowView>,
    since: i64,
    row: NodeRowView,
) -> bool {
    &&& nodes.contains(row)
    &&& row.kind == NodeKind::Process
    &&& x.0 == process_of_row(row)
    &&& x.1 == children(nodes, edges, since, row.id)
}

/// A parent is listed exactly if it has children that were seen since the time,
/// and as many as were asked for at least; it is listed with their number.
pub proof fn parents_are_listed(
    nodes: Seq<NodeRowView>,
    edges: Seq<EdgeRowView>,
    min: u32,
    since: i64,
    x: (ProcessNodeView, u32),
)
    requires
        distinct_by(nodes, node_key()),
        edges.len() <= u32::MAX,
    ensures
        prolific_parents(nodes, edges, min, since).contains(x) <==> exists|row: NodeRowView|
            #[trigger] tells_parent(x, nodes, edges, since, row) && x.1 > 0 && x.1 >= min,
{
    broadcast use vstd::seq_lib::group_to_multiset_ensures;

    let f = live_parent(nodes, since);
    let parents = edges.filter_map(f);
    let ids = uniques(parents);
    let order = sort_by_key(ids, by_children(parents));
    let g = prolific(nodes, parents, min);
    uniques_are_distinct(parents);
    sort_by_key_sorts(ids, by_children(parents));
    kept_of_some(order, g, x);
    if prolific_parents(nodes, edges, min, since).contains(x) {
        let k = choose|k: int| 0 <= k < order.len() && g(#[trigger] order[k]) == Some(x);
        let id = order[k];
        assert(order.to_multiset().count(id) > 0);
        assert(ids.contains(id));
        assert(parents.contains(id));
        let m = choose|m: int| 0 <= m < parents.len() && parents[m] == id;
        filter_map_from(edges, f, m);
        let row = node_at(nodes, NodeKind::Process, id)->0;
        row_is_found(nodes, NodeKind::Process, id, row);
        children_are_counted(nodes, edges, since, row);
        assert(same_text(id)(parents[m]));
        is_counted(parents, same_text(id), m);
        assert(tells_parent(x, nodes, edges, since, row));
    }
    if exists|row: NodeRowView| #[trigger]
        tells_parent(x, nodes, edges, since, row) && x.1 > 0 && x.1 >= min {
        let row = choose|row: NodeRowView| #[trigger]
            tells_parent(x, nodes, edges, since, row) && x.1 > 0 && x.1 >= min;
        children_are_counted(nodes, edges, since, row);
        row_is_found(nodes, NodeKind::Process, row.id, row);
        counted_is_there(parents, same_text(row.id));
        let m = choose|m: int| 0 <= m < parents.len() && same_text(row.id)(#[trigger] parents[m]);
        assert(parents.contains(row.id));
        assert(ids.contains(row.id));
        assert(order.to_multiset().count(row.id) > 0);
        assert(order.contains(row.id));
        let k = choose|k: int| 0 <= k < order.len() && order[k] == row.id;
        assert(g(order[k]) == Some(x));
    }
}

/// Parents with more children come first.
pub proof fn larger_families_come_first(
    nodes: Seq<NodeRowView>,
    edges: Seq<EdgeRowView>,
    min: u32,
    since: i64,
    i: int,
    j: int,
)
    requires
        edges.len() <= u32::MAX,
        0 <= i < j < prolific_parents(nodes, edges, min, since).len(),
    ensures
        prolific_parents(nodes, edges, min, since)[i].1 >= prolific_parents(
            nodes,
            edges,
            min,
            since,
        )[j].1,
{
    let f = live_parent(nodes, since);
    let parents = edges.filter_map(f);
    let order = sort_by_key(uniques(parents), by_children(parents));
    let g = prolific(nodes, parents, min);
    sort_by_key_sorts(uniques(parents), by_children(parents));
    crate::seqs::filter_map_is_no_longer(edges, f);
    assert forall|t: Seq<char>| #[trigger] count_where(parents, same_text(t)) <= u32::MAX by {
        same_count(parents, same_text(t), same_text(t));
    }
    kept_in_order(order, g, by_children(parents), |x: (ProcessNodeView, u32)| -(x.1 as int), i, j);
}

/// What is kept of an ascending sequence, with a measure that its keys give,
/// ascends.
proof fn kept_in_order<A, B>(
    s: Seq<A>,
    f: spec_fn(A) -> Option<B>,
    key: spec_fn(A) -> int,
    m: spec_fn(B) -> int,
    i: int,
    j: int,
)
    requires
        ascending(s, key),
        forall|a: A| (#[trigger] f(a)) is Some ==> m(f(a)->0) == key(a),
        0 <= i < j < s.filter_map(f).len(),
    ensures
        m(s.filter_map(f)[i]) <= m(s.filter_map(f)[j]),
    decreases s.len(),
{
    if s.len() == 0 {
        filter_map_start(s, f);
        take_all(s);
    } else {
        let n = s.len() - 1;
        let t = s.take(n);
        filter_map_step(s, f, n);
        take_all(s);
        assert(ascending(t, key)) by {
            assert forall|a: int, b: int| 0 <= a < b < t.len() implies key(#[trigger] t[a]) <= key(
                #[trigger] t[b],
            ) by {
                assert(key(s[a]) <= key(s[b]));
            }
        }
        if j < t.filter_map(f).len() {
            kept_in_order(t, f, key, m, i, j);
        } else {
            filter_map_from(t, f, i);
            let a = choose|a: int| 0 <= a < t.len() && f(#[trigger] t[a]) == Some(t.filter_map(f)[i]);
            assert(key(s[a]) <= key(s[n]));
            assert(f(s[a]) is Some && f(s[n]) is Some);
        }
    }
}

// ---------- ancestors --------------------------------------------------------------

/// Whether an edge leads from a process to its parent.
pub open spec fn leads_up(edges: Seq<EdgeRowView>, child: Seq<char>, parent: Seq<char>) -> bool {
    exists|i: int|
        0 <= i < edges.len() && (#[trigger] edges[i]).kind == EdgeKind::ParentOf && edges[i].to_id
            == child && edges[i].from_id == parent
}

/// Whether a number of steps from child to parent lead from a process to another.
pub open spec fn climbs(edges: Seq<EdgeRowView>, a: Seq<char>, b: Seq<char>, n: nat) -> bool
    decreases n,
{
    if n == 0 {
        a == b
    } else {
        exists|c: Seq<char>| #[trigger] leads_up(edges, a, c) && climbs(edges, c, b, (n - 1) as nat)
    }
}

proof fn level_is_exact(edges: Seq<EdgeRowView>, level: Seq<Seq<char>>, seen: Seq<Seq<char>>, x: Seq<char>)
    ensures
        next_level(edges, level, seen).contains(x) <==> !seen.contains(x) && exists|l: Seq<char>|
            level.contains(l) && #[trigger] leads_up(edges, l, x),
    decreases edges.len(),
{
    if edges.len() > 0 {
        let t = edges.drop_last();
        let e = edges.last();
        let n = edges.len() - 1;
        level_is_exact(t, level, seen, x);
        let rest = next_level(t, level, seen);
        let all = next_level(edges, level, seen);
        assert forall|l: Seq<char>| #[trigger] leads_up(edges, l, x) <==> leads_up(t, l, x) || (e.kind
            == EdgeKind::ParentOf && e.to_id == l && e.from_id == x) by {
            if leads_up(t, l, x) {
                let i = choose|i: int|
                    0 <= i < t.len() && (#[trigger] t[i]).kind == EdgeKind::ParentOf && t[i].to_id
                        == l && t[i].from_id == x;
                assert(edges[i] == t[i]);
            }
            if leads_up(edges, l, x) {
                let i = choose|i: int|
                    0 <= i < edges.len() && (#[trigger] edges[i]).kind == EdgeKind::ParentOf
                        && edges[i].to_id == l && edges[i].from_id == x;
                if i < n {
                    assert(t[i] == edges[i]);
                }
            }
            if e.kind == EdgeKind::ParentOf && e.to_id == l && e.from_id == x {
                assert(edges[n].kind == EdgeKind::ParentOf);
            }
        }
        if rest.contains(x) {
            let k = choose|k: int| 0 <= k < rest.len() && rest[k] == x;
            assert(all[k] == x);
            let l = choose|l: Seq<char>| level.contains(l) && #[trigger] leads_up(t, l, x);
            assert(leads_up(edges, l, x));
        }
        if all.contains(x) && !rest.contains(x) {
            let k = choose|k: int| 0 <= k < all.len() && all[k] == x;
            if k < rest.len() {
                assert(rest[k] == x);
            }
            assert(level.contains(e.to_id) && leads_up(edges, e.to_id, x));
        }
        if !seen.contains(x) && (exists|l: Seq<char>|
            level.contains(l) && #[trigger] leads_up(edges, l, x)) && !rest.contains(x) {
            let l = choose|l: Seq<char>| level.contains(l) && #[trigger] leads_up(edges, l, x);
            assert(!leads_up(t, l, x));
            assert(all[rest.len() as int] == x);
        }
    }
}

/// Whether a walk has gone through what it has seen: parents of what lies below
/// the level were seen.
spec fn is_explored(edges: Seq<EdgeRowView>, level: Seq<Seq<char>>, seen: Seq<Seq<char>>) -> bool {
    &&& forall|l: Seq<char>| #[trigger] level.contains(l) ==> seen.contains(l)
    &&& forall|a: Seq<char>, b: Seq<char>|
        seen.contains(a) && !level.contains(a) && #[trigger] leads_up(edges, a, b) ==> seen.contains(
            b,
        )
}

/// A climb from what was seen to what was not goes through the level.
proof fn climb_goes_through(
    edges: Seq<EdgeRowView>,
    level: Seq<Seq<char>>,
    seen: Seq<Seq<char>>,
    a: Seq<char>,
    x: Seq<char>,
    n: nat,
) -> (r: (Seq<char>, nat))
    requires
        is_explored(edges, level, seen),
        seen.contains(a),
        !seen.contains(x),
        climbs(edges, a, x, n),
    ensures
        level.contains(r.0),
        1 <= r.1 <= n,
        climbs(edges, r.0, x, r.1),
    decreases n,
{
    if level.contains(a) {
        (a, n)
    } else {
        let c = choose|c: Seq<char>|
            #[trigger] leads_up(edges, a, c) && climbs(edges, c, x, (n - 1) as nat);
        climb_goes_through(edges, level, seen, c, x, (n - 1) as nat)
    }
}

proof fn walk_is_exact(
    edges: Seq<EdgeRowView>,
    level: Seq<Seq<char>>,
    seen: Seq<Seq<char>>,
    depth: nat,
    x: Seq<char>,
)
    requires
        is_explored(edges, level, seen),
    ensures
        walk_up(edges, level, seen, depth).contains(x) <==> !seen.contains(x) && exists|
            l: Seq<char>,
            n: nat,
        |
            level.contains(l) && 1 <= n <= depth && #[trigger] climbs(edges, l, x, n),
    decreases depth,
{
    let all = walk_up(edges, level, seen, depth);
    if depth > 0 && level.len() > 0 {
        let up = next_level(edges, level, seen);
        let d = (depth - 1) as nat;
        let both = seen + up;
        assert forall|y: Seq<char>| #[trigger] both.contains(y) <==> seen.contains(y) || up.contains(
            y,
        ) by {
            if both.contains(y) {
                let i = choose|i: int| 0 <= i < both.len() && both[i] == y;
                if i < seen.len() {
                    assert(seen[i] == y);
                } else {
                    assert(up[i - seen.len()] == y);
                }
            }
            if seen.contains(y) {
                let i = choose|i: int| 0 <= i < seen.len() && seen[i] == y;
                assert(both[i] == y);
            }
            if up.contains(y) {
                let i = choose|i: int| 0 <= i < up.len() && up[i] == y;
                assert(both[seen.len() + i] == y);
            }
        }
        assert forall|a: Seq<char>, b: Seq<char>|
            both.contains(a) && !up.contains(a) && #[trigger] leads_up(edges, a, b) implies both.contains(
            b,
        ) by {
            level_is_exact(edges, level, seen, b);
        }
        assert(is_explored(edges, up, both));
        walk_is_exact(edges, up, both, d, x);
        let rest = walk_up(edges, up, both, d);
        assert(all.contains(x) <==> up.contains(x) || rest.contains(x)) by {
            if all.contains(x) {
                let i = choose|i: int| 0 <= i < all.len() && all[i] == x;
                if i < up.len() {
                    assert(up[i] == x);
                } else {
                    assert(rest[i - up.len()] == x);
                }
            }
            if up.contains(x) {
                let i = choose|i: int| 0 <= i < up.len() && up[i] == x;
                assert(all[i] == x);
            }
            if rest.contains(x) {
                let i = choose|i: int| 0 <= i < rest.len() && rest[i] == x;
                assert(all[up.len() + i] == x);
            }
        }
        level_is_exact(edges, level, seen, x);
        if up.contains(x) {
            let l = choose|l: Seq<char>| level.contains(l) && #[trigger] leads_up(edges, l, x);
            assert(climbs(edges, x, x, 0));
            assert(climbs(edges, l, x, 1));
        }
        if rest.contains(x) {
            let (c, n) = choose|l: Seq<char>, n: nat|
                up.contains(l) && 1 <= n <= d && #[trigger] climbs(edges, l, x, n);
            level_is_exact(edges, level, seen, c);
            let l = choose|l: Seq<char>| level.contains(l) && #[trigger] leads_up(edges, l, c);
            assert(climbs(edges, c, x, ((n + 1) - 1) as nat));
            assert(climbs(edges, l, x, n + 1));
        }
        if !seen.contains(x) && exists|l: Seq<char>, n: nat|
            level.contains(l) && 1 <= n <= depth && #[trigger] climbs(edges, l, x, n) {
            let (l, n) = choose|l: Seq<char>, n: nat|
                level.contains(l) && 1 <= n <= depth && #[trigger] climbs(edges, l, x, n);
            let c = choose|c: Seq<char>|
                #[trigger] leads_up(edges, l, c) && climbs(edges, c, x, (n - 1) as nat);
            if !up.contains(x) {
                level_is_exact(edges, level, seen, c);
                assert(both.contains(c));
                let (m, k) = climb_goes_through(edges, up, both, c, x, (n - 1) as nat);
                assert(up.contains(m) && 1 <= k <= d && climbs(edges, m, x, k));
            }
        }
    } else {
        if level.len() == 0 {
            assert forall|l: Seq<char>| !level.contains(l) by {}
        }
    }
}

/// A process is listed as an ancestor of another exactly if steps from child to
/// parent lead to it, as many as were asked for at most, and it is another
/// process. The limit on the number of ancestors is that of the steps.
pub proof fn ancestors_are_reached(
    nodes: Seq<NodeRowView>,
    edges: Seq<EdgeRowView>,
    id: Seq<char>,
    depth: nat,
    p: ProcessNodeView,
)
    requires
        distinct_by(nodes, node_key()),
    ensures
        ancestors_in(nodes, edges, id, depth).len() <= depth,
        ancestors_in(nodes, edges, id, depth).contains(p) ==> exists|r: NodeRowView, n: nat|
            nodes.contains(r) && r.kind == NodeKind::Process && p == process_of_row(r) && r.id != id
                && 1 <= n <= depth && #[trigger] climbs(edges, id, r.id, n),
        ancestors_in(nodes, edges, id, depth).len() < depth && (exists|r: NodeRowView, n: nat|
            nodes.contains(r) && r.kind == NodeKind::Process && p == process_of_row(r) && r.id != id
                && 1 <= n <= depth && #[trigger] climbs(edges, id, r.id, n)) ==> ancestors_in(
            nodes,
            edges,
            id,
            depth,
        ).contains(p),
{
    let start = seq![id];
    let ids = walk_up(edges, start, start, depth);
    let f = process_with_id(nodes);
    let all = ids.filter_map(f);
    let listed = ancestors_in(nodes, edges, id, depth);
    kept_of_some(ids, f, p);
    assert forall|y: Seq<char>| #[trigger] start.contains(y) <==> y == id by {
        assert(start[0] == id);
    }
    assert(is_explored(edges, start, start));
    if listed.contains(p) {
        let k = choose|k: int| 0 <= k < listed.len() && listed[k] == p;
        assert(all[k] == p);
        assert(all.contains(p));
        let i = choose|i: int| 0 <= i < ids.len() && f(#[trigger] ids[i]) == Some(p);
        assert(ids.contains(ids[i]));
        walk_is_exact(edges, start, start, depth, ids[i]);
        let r = node_at(nodes, NodeKind::Process, ids[i])->0;
        row_is_found(nodes, NodeKind::Process, ids[i], r);
        let (l, n) = choose|l: Seq<char>, n: nat|
            start.contains(l) && 1 <= n <= depth && #[trigger] climbs(edges, l, ids[i], n);
        assert(climbs(edges, id, r.id, n));
    }
    if listed.len() < depth && exists|r: NodeRowView, n: nat|
        nodes.contains(r) && r.kind == NodeKind::Process && p == process_of_row(r) && r.id != id
            && 1 <= n <= depth && #[trigger] climbs(edges, id, r.id, n) {
        let (r, n) = choose|r: NodeRowView, n: nat|
            nodes.contains(r) && r.kind == NodeKind::Process && p == process_of_row(r) && r.id
                != id && 1 <= n <= depth && #[trigger] climbs(edges, id, r.id, n);
        walk_is_exact(edges, start, start, depth, r.id);
        assert(start.contains(id));
        assert(ids.contains(r.id));
        let i = choose|i: int| 0 <= i < ids.len() && ids[i] == r.id;
        row_is_found(nodes, NodeKind::Process, r.id, r);
        assert(f(ids[i]) == Some(p));
        assert(listed == all);
    }
}

// ---------- rates, windows and retention -------------------------------------------

/// Every edge of a kind is listed with its tally and its span, and no other.
pub proof fn rates_are_listed(edges: Seq<EdgeRowView>, kind: Seq<char>, x: EdgeRateView)
    ensures
        edges.filter_map(rate_of(kind)).contains(x) <==> exists|i: int|
            0 <= i < edges.len() && (#[trigger] edges[i]).kind.spec_name() == kind && x.from_id
                == edges[i].from_id && x.to_id == edges[i].to_id && x.count == edges[i].count
                && x.first_seen_unix_ns == edges[i].first_seen && x.last_seen_unix_ns
                == edges[i].last_seen,
{
    let f = rate_of(kind);
    kept_of_some(edges, f, x);
    if edges.filter_map(f).contains(x) {
        let i = choose|i: int| 0 <= i < edges.len() && f(#[trigger] edges[i]) == Some(x);
        assert(edges[i].kind.spec_name() == kind);
    }
    if exists|i: int|
        0 <= i < edges.len() && (#[trigger] edges[i]).kind.spec_name() == kind && x.from_id
            == edges[i].from_id && x.to_id == edges[i].to_id && x.count == edges[i].count
            && x.first_seen_unix_ns == edges[i].first_seen && x.last_seen_unix_ns
            == edges[i].last_seen {
        let i = choose|i: int|
            0 <= i < edges.len() && (#[trigger] edges[i]).kind.spec_name() == kind && x.from_id
                == edges[i].from_id && x.to_id == edges[i].to_id && x.count == edges[i].count
                && x.first_seen_unix_ns == edges[i].first_seen && x.last_seen_unix_ns
                == edges[i].last_seen;
        assert(f(edges[i]) == Some(x));
    }
}

/// What retention keeps is exactly what was last seen at the cutoff or later: the
/// nodes, the events, and the edges whose two ends are kept.
pub proof fn retention_is_exact(
    s: StoreView,
    cutoff: i64,
    n: NodeRowView,
    e: EdgeRowView,
    ev: EventRowView,
)
    requires
        distinct_by(s.nodes, node_key()),
    ensures
        pruned(s, cutoff).nodes.contains(n) <==> s.nodes.contains(n) && n.last_seen >= cutoff,
        pruned(s, cutoff).events.contains(ev) <==> s.events.contains(ev) && ev.ts_unix_ns >= cutoff,
        pruned(s, cutoff).edges.contains(e) <==> s.edges.contains(e) && e.last_seen >= cutoff && (
        exists|a: NodeRowView| #[trigger]
            is_row_of(s.nodes, e.from_kind, e.from_id, a) && a.last_seen >= cutoff) && (exists|
            b: NodeRowView,
        | #[trigger] is_row_of(s.nodes, e.to_kind, e.to_id, b) && b.last_seen >= cutoff),
        pruned(s, cutoff).meta == s.meta,
{
    let kept = s.nodes.filter_map(keep_node(cutoff));
    kept_are_those(s.nodes, keep_node(cutoff), n);
    kept_are_those(s.events, keep_event(cutoff), ev);
    kept_are_those(s.edges, keep_edge(cutoff, kept), e);
    kept_row_is_found(s.nodes, cutoff, e.from_kind, e.from_id);
    kept_row_is_found(s.nodes, cutoff, e.to_kind, e.to_id);
}

proof fn kept_row_is_found(nodes: Seq<NodeRowView>, cutoff: i64, kind: NodeKind, id: Seq<char>)
    requires
        distinct_by(nodes, node_key()),
    ensures
        node_at(nodes.filter_map(keep_node(cutoff)), kind, id) is Some <==> exists|a: NodeRowView|
            #[trigger] is_row_of(nodes, kind, id, a) && a.last_seen >= cutoff,
{
    let kept = nodes.filter_map(keep_node(cutoff));
    let p = is_node(kind, id);
    first_where_is_first(kept, p);
    match first_where(kept, p) {
        Some(i) => {
            kept_are_those(nodes, keep_node(cutoff), kept[i]);
            assert(kept.contains(kept[i]));
            assert(is_row_of(nodes, kind, id, kept[i]));
        },
        None => {
            if exists|a: NodeRowView| #[trigger]
                is_row_of(nodes, kind, id, a) && a.last_seen >= cutoff {
                let a = choose|a: NodeRowView| #[trigger]
                    is_row_of(nodes, kind, id, a) && a.last_seen >= cutoff;
                kept_are_those(nodes, keep_node(cutoff), a);
                let k = choose|k: int| 0 <= k < kept.len() && kept[k] == a;
                assert(!p(kept[k]));
            }
        },
    }
}

/// A process is in the graph of a window exactly if its row was first seen before
/// the window's end and last seen after its start; and so is every other node.
pub proof fn window_has_what_overlaps(
    nodes: Seq<NodeRowView>,
    from: i64,
    to: i64,
    p: ProcessNodeView,
)
    ensures
        nodes_in(nodes, Some((from, to))).processes.contains(p) <==> exists|i: int|
            0 <= i < nodes.len() && (#[trigger] nodes[i]).kind == NodeKind::Process
                && nodes[i].first_seen <= to && nodes[i].last_seen >= from && p == process_of_row(
                nodes[i],
            ),
        forall|r: NodeRowView| #[trigger]
            overlaps(r, Some((from, to))) <==> r.first_seen <= to && r.last_seen >= from,
{
    let f = crate::store_load::pick_process(Some((from, to)));
    kept_of_some(nodes, f, p);
    if nodes.filter_map(f).contains(p) {
        let i = choose|i: int| 0 <= i < nodes.len() && f(#[trigger] nodes[i]) == Some(p);
        assert(nodes[i].kind == NodeKind::Process);
    }
    if exists|i: int|
        0 <= i < nodes.len() && (#[trigger] nodes[i]).kind == NodeKind::Process
            && nodes[i].first_seen <= to && nodes[i].last_seen >= from && p == process_of_row(
            nodes[i],
        ) {
        let i = choose|i: int|
            0 <= i < nodes.len() && (#[trigger] nodes[i]).kind == NodeKind::Process
                && nodes[i].first_seen <= to && nodes[i].last_seen >= from && p == process_of_row(
                nodes[i],
            );
        assert(f(nodes[i]) == Some(p));
    }
}

/// Whether an event of the history falls in a window, and is of a kind that is
/// asked for.
pub open spec fn falls_in(r: EventRowView, from: i64, to: i64, kinds: Option<Seq<EventKind>>) -> bool {
    &&& from <= r.ts_unix_ns <= to
    &&& kinds matches Some(ks) ==> ks.contains(r.kind)
}

/// The events of a window are those of the history that fall in it, the oldest
/// first and up to the limit; one that is not listed finds the list full of
/// events that are no later.
pub proof fn window_has_its_events(
    rows: Seq<EventRowView>,
    from: i64,
    to: i64,
    kinds: Option<Seq<EventKind>>,
    limit: int,
    i: int,
    j: int,
    k: int,
)
    requires
        limit >= 0,
        0 <= from,
    ensures
        ({
            let listed = events_between(rows, from, to, kinds, limit);
            &&& listed.len() <= limit
            &&& 0 <= i < listed.len() ==> exists|n: int|
                0 <= n < rows.len() && falls_in(#[trigger] rows[n], from, to, kinds) && listed[i]
                    == event_of_row(rows[n])
            &&& 0 <= i < j < listed.len() ==> listed[i].timestamp.mono_ns
                <= listed[j].timestamp.mono_ns
            &&& 0 <= k < rows.len() && falls_in(rows[k], from, to, kinds) ==> listed.contains(
                event_of_row(rows[k]),
            ) || (listed.len() == limit && (0 <= i < listed.len() ==> listed[i].timestamp.mono_ns
                <= event_of_row(rows[k]).timestamp.mono_ns))
        }),
{
    let f = pick_event(from, to, kinds);
    let order = sort_by_key(rows.filter_map(f), event_time());
    let hits = first_n(order, limit);
    let listed = events_between(rows, from, to, kinds, limit);
    sort_by_key_sorts(rows.filter_map(f), event_time());
    assert forall|m: int| 0 <= m < order.len() implies (#[trigger] order[m]).ts_unix_ns >= 0 by {
        assert(order.contains(order[m]));
        sorted_list_is_complete(rows, f, event_time(), order[m]);
    }
    if 0 <= i < listed.len() {
        assert(order.contains(order[i]));
        sorted_list_is_complete(rows, f, event_time(), order[i]);
        let n = choose|n: int| 0 <= n < rows.len() && f(#[trigger] rows[n]) == Some(order[i]);
        assert(falls_in(rows[n], from, to, kinds));
        assert(hits[i] == order[i]);
    }
    if 0 <= i < j < listed.len() {
        assert(event_time()(order[i]) <= event_time()(order[j]));
    }
    if 0 <= k < rows.len() && falls_in(rows[k], from, to, kinds) {
        sorted_list_is_complete(rows, f, event_time(), rows[k]);
        assert(f(rows[k]) == Some(rows[k]));
        assert(order.contains(rows[k]));
        let m = choose|m: int| 0 <= m < order.len() && order[m] == rows[k];
        if m < hits.len() {
            assert(listed[m] == event_of_row(rows[k]));
        } else if 0 <= i < listed.len() {
            assert(event_time()(order[i]) <= event_time()(order[m]));
        }
    }
}

} // verus!
