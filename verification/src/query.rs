//! What the store is asked from the command line.

use vstd::prelude::*;
use vstd::string::*;

use crate::analytics::{
    adjacency, adjacency_wf, component_sizes, degree, degree_centrality, node_label, weight,
    weighted_degree_centrality, wrapped, Adjacency, NodeRef, NodeRefView,
};
use crate::cli_fmt::{fmt_unix_ns_at, unix_text, whole_secs};
use crate::graph::{Graph, GraphView};
use crate::order::{first_n, insert_row, keyed, sort_by_key};
use crate::seqs::{sum_of, take_all};
use crate::store::{Store, StoreView};
use crate::store_admin::{meta_at, upsert_meta};
use crate::tally::{insert_at_rank, ranked, ranks_of, Rank};
use crate::text::{chars_of, flat, parse_i64, parse_signed, string_of, Parts};
use crate::topology::{are_components, components_of};

verus! {

/// A daemon without a sign of life for longer is taken to be dead: two ticks
/// of a minute.
pub const HEARTBEAT_SECS: i64 = 120;

/// The time that a text of the metadata writes.
pub open spec fn time_of(s: Option<Seq<char>>) -> Option<i64> {
    match s {
        Some(t) => match parse_signed(t, i64::MIN as int, i64::MAX as int) {
            Some(n) => Some(n as i64),
            None => None,
        },
        None => None,
    }
}

/// What the metadata say of the daemon: a process id with a recent sign of life
/// runs, one with an old one has likely died, and an empty one has stopped.
pub open spec fn status_text(pid: Option<Seq<char>>, beat: Option<i64>, now: i64) -> Seq<char> {
    match (pid, beat) {
        (Some(p), Some(b)) => if p.len() == 0 {
            flat(seq!["stopped cleanly (last tick "@, unix_text(b, now), ")"@])
        } else if whole_secs(now - b) > HEARTBEAT_SECS {
            flat(seq!["pid "@, p, ", heartbeat "@, unix_text(b, now), " — likely not running"@])
        } else {
            flat(seq!["pid "@, p, ", heartbeat "@, unix_text(b, now)])
        },
        _ => "never ran against this store"@,
    }
}

/// What a store says of the daemon.
pub open spec fn store_status(s: StoreView, now: i64) -> Seq<char> {
    status_text(
        meta_at(s.meta, "daemon_pid"@),
        time_of(meta_at(s.meta, "daemon_heartbeat_unix_ns"@)),
        now,
    )
}

/// What a store says of the daemon.
pub fn daemon_status(store: &Store, now_unix_ns: i64) -> (r: String)
    ensures
        r@ == store_status(store@, now_unix_ns),
{
    let pid: Option<String> = match store.get_meta("daemon_pid") {
        Ok(p) => p,
        Err(_) => None,
    };
    let beat: Option<i64> = match store.get_meta("daemon_heartbeat_unix_ns") {
        Ok(Some(s)) => {
            let cs: Vec<char> = chars_of(s.as_str());
            parse_i64(cs.as_slice())
        },
        _ => None,
    };
    match (pid, beat) {
        (Some(p), Some(b)) => {
            let time: String = fmt_unix_ns_at(b, now_unix_ns);
            let mut t = Parts::new();
            if p.as_str().is_empty() {
                t.add("stopped cleanly (last tick ");
                t.add(time.as_str());
                t.add(")");
                return t.finish();
            }
            t.add("pid ");
            t.add(p.as_str());
            t.add(", heartbeat ");
            t.add(time.as_str());
            if now_unix_ns as i128 - b as i128 >= (HEARTBEAT_SECS as i128 + 1) * 1_000_000_000 {
                t.add(" — likely not running");
            }
            t.finish()
        },
        _ => "never ran against this store".to_string(),
    }
}

/// A daemon that took its process id back reads as stopped.
pub proof fn stopped_daemon_reads_as_stopped(s: StoreView, beat: i64, now: i64)
    requires
        time_of(meta_at(s.meta, "daemon_heartbeat_unix_ns"@)) == Some(beat),
    ensures
        store_status(
            StoreView { meta: upsert_meta(s.meta, "daemon_pid"@, ""@), ..s },
            now,
        ) == flat(seq!["stopped cleanly (last tick "@, unix_text(beat, now), ")"@]),
{
    reveal_strlit("daemon_pid");
    reveal_strlit("daemon_heartbeat_unix_ns");
    reveal_strlit("");
    assert("daemon_pid"@.len() != "daemon_heartbeat_unix_ns"@.len());
    crate::store_admin::meta_read_back(s.meta, "daemon_pid"@, ""@, "daemon_heartbeat_unix_ns"@);
    crate::store_admin::meta_read_back(s.meta, "daemon_pid"@, ""@, "daemon_pid"@);
}

/// The time so many minutes before another.
pub open spec fn minutes_before(now: i64, mins: u64) -> i64 {
    let t = now - mins * 60_000_000_000;
    if t < i64::MIN {
        i64::MIN
    } else {
        t as i64
    }
}

/// The time so many minutes before another.
pub fn since(now_unix_ns: i64, mins: u64) -> (r: i64)
    ensures
        r == minutes_before(now_unix_ns, mins),
{
    let t: i128 = now_unix_ns as i128 - mins as i128 * 60_000_000_000;
    if t < i64::MIN as i128 {
        i64::MIN
    } else {
        t as i64
    }
}

/// At most so many characters of a text, and a mark where some are missing.
pub open spec fn shortened(s: Seq<char>, max: int) -> Seq<char> {
    if s.len() <= max {
        s
    } else {
        s.take(max) + "…"@
    }
}

/// At most so many characters of a text, and a mark where some are missing.
pub fn compact_text(s: &str, max: usize) -> (r: String)
    ensures
        r@ == shortened(s@, max as int),
{
    let cs: Vec<char> = chars_of(s);
    if cs.len() <= max {
        return s.to_string();
    }
    let mut r: String = string_of(cs.as_slice(), 0, max);
    assert(r@ =~= s@.take(max as int));
    r.append("…");
    r
}

/// The shape of a graph.
#[derive(Debug)]
pub struct TopologyReport {
    /// How many nodes each component has, the largest first.
    pub component_sizes: Vec<usize>,
    /// What the nodes with the most neighbours are called, how many they have,
    /// and how often those were observed.
    pub top_by_degree: Vec<(String, u64, u64)>,
}

/// A node with its neighbours and their weight.
pub open spec fn degree_row(g: GraphView) -> spec_fn((NodeRefView, Seq<(NodeRefView, u64)>)) -> (
    Seq<char>,
    u64,
    u64,
) {
    |e: (NodeRefView, Seq<(NodeRefView, u64)>)|
        (node_label(g, e.0), degree(e.1) as u64, wrapped(sum_of(e.1, weight())))
}

/// Nodes are ranked by their neighbours, then by what they are called.
pub open spec fn by_degree() -> spec_fn((Seq<char>, u64, u64)) -> (u64, u64, Seq<char>) {
    |r: (Seq<char>, u64, u64)| (r.1, 0u64, r.0)
}

/// Sizes are ordered from the largest down.
pub open spec fn largest_first() -> spec_fn(usize) -> int {
    |n: usize| -(n as int)
}

/// Whether sizes are those of the components of a graph, from the largest down.
pub open spec fn are_sizes(g: GraphView, sizes: Seq<usize>) -> bool {
    exists|cs: Seq<Seq<NodeRefView>>|
        #[trigger] are_components(adjacency(g), cs) && sizes == sort_by_key(
            Seq::new(cs.len(), |i: int| cs[i].len() as usize),
            largest_first(),
        )
}

fn sort_sizes(v: &Vec<usize>) -> (r: Vec<usize>)
    ensures
        r@ == sort_by_key(v@, largest_first()),
{
    let ghost all = v@;
    let mut out: Vec<usize> = Vec::new();
    let mut keys: Vec<i128> = Vec::new();
    let mut i: usize = 0;
    assert(out.deep_view() =~= sort_by_key(all.take(0), largest_first()));
    while i < v.len()
        invariant
            all == v@,
            i <= v@.len(),
            out.deep_view() == sort_by_key(all.take(i as int), largest_first()),
            keyed(out.deep_view(), largest_first(), keys@),
        decreases v@.len() - i,
    {
        assert(all.take(i + 1).drop_last() =~= all.take(i as int));
        let k: i128 = -(v[i] as i128);
        insert_row(&mut out, &mut keys, v[i], k, Ghost(largest_first()));
        i = i + 1;
    }
    proof {
        take_all(all);
        assert(out@ =~= out.deep_view());
    }
    out
}

/// The sizes of the components of a graph, the largest first.
fn sizes_of(g: &Graph, adj: &Adjacency) -> (r: Vec<usize>)
    requires
        adj.neighbors.deep_view() == adjacency(g.deep_view()),
        adjacency_wf(adj.neighbors.deep_view()),
    ensures
        are_sizes(g.deep_view(), r@),
{
    let components: Vec<Vec<NodeRef>> = components_of(adj);
    let ghost cs = components.deep_view();
    let sizes: Vec<usize> = component_sizes(components.as_slice());
    proof {
        assert(are_components(adjacency(g.deep_view()), cs));
        assert(sizes@ =~= Seq::new(cs.len(), |i: int| cs[i].len() as usize)) by {
            assert forall|i: int| 0 <= i < cs.len() implies cs[i].len() == components@[i]@.len() by {
                assert(cs[i] == components@[i].deep_view());
            }
        }
    }
    sort_sizes(&sizes)
}

/// The shape of a graph: its components and its most connected nodes.
pub fn topology_report(g: &Graph, limit: usize) -> (r: TopologyReport)
    ensures
        are_sizes(g.deep_view(), r.component_sizes@),
        r.top_by_degree.deep_view() == first_n(
            ranked(
                adjacency(g.deep_view()).map_values(degree_row(g.deep_view())),
                by_degree(),
            ),
            limit as int,
        ),
{
    let adj = Adjacency::from_graph(g);
    let sizes: Vec<usize> = sizes_of(g, &adj);
    let ghost av = adjacency(g.deep_view());
    let degrees: Vec<(NodeRef, u64)> = degree_centrality(&adj);
    let weights: Vec<(NodeRef, u64)> = weighted_degree_centrality(&adj);
    let ghost dv = degrees.deep_view();
    let ghost wv = weights.deep_view();
    assert(dv.len() == degrees@.len() && wv.len() == weights@.len());
    let ghost rows = av.map_values(degree_row(g.deep_view()));
    let mut top: Vec<(String, u64, u64)> = Vec::new();
    let mut ranks: Vec<Rank> = Vec::new();
    let mut i: usize = 0;
    assert(top.deep_view() =~= ranked(rows.take(0), by_degree()));
    while i < degrees.len()
        invariant
            av == adjacency(g.deep_view()),
            dv == degrees.deep_view(),
            wv == weights.deep_view(),
            dv == Seq::new(av.len(), |i: int| (av[i].0, degree(av[i].1) as u64)),
            wv == Seq::new(av.len(), |i: int| (av[i].0, wrapped(sum_of(av[i].1, weight())))),
            degrees@.len() == av.len(),
            weights@.len() == av.len(),
            rows == av.map_values(degree_row(g.deep_view())),
            i <= degrees@.len(),
            top.deep_view() == ranked(rows.take(i as int), by_degree()),
            ranks_of(top.deep_view(), by_degree(), ranks.deep_view()),
        decreases degrees@.len() - i,
    {
        assert(dv[i as int] == degrees@[i as int].deep_view());
        assert(wv[i as int] == weights@[i as int].deep_view());
        assert(rows.take(i + 1).drop_last() =~= rows.take(i as int));
        let label: String = degrees[i].0.label(g);
        let at = Rank { first: degrees[i].1, second: 0, name: label.clone() };
        insert_at_rank(
            &mut top,
            &mut ranks,
            (label, degrees[i].1, weights[i].1),
            at,
            Ghost(by_degree()),
        );
        i = i + 1;
    }
    proof {
        take_all(rows);
    }
    let ghost order = top.deep_view();
    if top.len() > limit {
        top.truncate(limit);
        assert(top.deep_view() =~= order.take(limit as int));
    }
    TopologyReport { component_sizes: sizes, top_by_degree: top }
}

} // verus!
