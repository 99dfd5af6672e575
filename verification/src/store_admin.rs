//! Opening a store, its metadata, retention, and the overview of what it
//! holds.

use vstd::prelude::*;
use vstd::string::*;

use crate::order::{insert_row, keyed, sort_by_key};
use crate::seqs::{
    convert, filter_map_start, filter_map_step, first_where, first_where_from,
    first_where_is_first, push_item, take_all, whole,
};
use crate::store::{
    EdgeKind, EdgeRow, EdgeRowView, EventRow, EventRowView, NodeKind, NodeRow, NodeRowView, Store,
    StoreError, StoreView,
};
use crate::store_merge::{find_node, max_time, min_time, node_at};
use crate::text::{chars_of, parse_i32, parse_signed, signed_decimal, i64_text, str_eq};

verus! {

// ---------- metadata ---------------------------------------------------------

/// Whether an entry has a key.
pub open spec fn is_meta(key: Seq<char>) -> spec_fn((Seq<char>, Seq<char>)) -> bool {
    |m: (Seq<char>, Seq<char>)| m.0 == key
}

/// The value under a key of the metadata.
pub open spec fn meta_at(meta: Seq<(Seq<char>, Seq<char>)>, key: Seq<char>) -> Option<Seq<char>> {
    match first_where(meta, is_meta(key)) {
        Some(i) => Some(meta[i].1),
        None => None,
    }
}

/// The metadata after a value was put under a key.
pub open spec fn upsert_meta(
    meta: Seq<(Seq<char>, Seq<char>)>,
    key: Seq<char>,
    value: Seq<char>,
) -> Seq<(Seq<char>, Seq<char>)> {
    match first_where(meta, is_meta(key)) {
        Some(i) => meta.update(i, (key, value)),
        None => meta.push((key, value)),
    }
}

/// The tables of a new store.
pub open spec fn new_store() -> StoreView {
    StoreView {
        nodes: Seq::empty(),
        edges: Seq::empty(),
        events: Seq::empty(),
        meta: seq![("schema_version"@, "1"@)],
    }
}

/// The number that a recorded schema version writes.
pub open spec fn version_of(s: Seq<char>) -> Option<int> {
    parse_signed(s, i32::MIN as int, i32::MAX as int)
}

/// The position of a key in the metadata.
fn find_meta(meta: &Vec<(String, String)>, key: &str) -> (r: Option<usize>)
    ensures
        match r {
            Some(i) => first_where(meta.deep_view(), is_meta(key@)) == Some(i as int) && i
                < meta@.len(),
            None => first_where(meta.deep_view(), is_meta(key@)) is None,
        },
{
    let ghost all = meta.deep_view();
    let mut i: usize = 0;
    while i < meta.len()
        invariant
            all == meta.deep_view(),
            i <= meta@.len(),
            first_where(all, is_meta(key@)) == first_where_from(all, is_meta(key@), i as int),
        decreases meta@.len() - i,
    {
        let m: &(String, String) = &meta[i];
        assert(all[i as int].0 == m.0@);
        if str_eq(m.0.as_str(), key) {
            return Some(i);
        }
        i = i + 1;
    }
    None
}

/// Reads a schema version.
fn parse_version(s: &str) -> (r: Option<i32>)
    ensures
        r is Some == version_of(s@) is Some,
        r is Some ==> r->0 == version_of(s@)->0,
{
    let cs: Vec<char> = chars_of(s);
    parse_i32(cs.as_slice())
}

impl Store {
    /// A new store, held in memory.
    pub fn open_in_memory() -> (r: Result<Self, StoreError>)
        ensures
            r is Ok,
            r->Ok_0@ == new_store(),
    {
        Store::init(Vec::new(), Vec::new(), Vec::new(), Vec::new())
    }

    /// A store over rows that were read from a database. A missing schema
    /// version is recorded; one that is no number, or newer than this
    /// library's, is refused.
    pub fn init(
        nodes: Vec<NodeRow>,
        edges: Vec<EdgeRow>,
        events: Vec<EventRow>,
        meta: Vec<(String, String)>,
    ) -> (r: Result<Self, StoreError>)
        ensures
            match meta_at(meta.deep_view(), "schema_version"@) {
                None => r is Ok && r->Ok_0@ == (StoreView {
                    nodes: nodes.deep_view(),
                    edges: edges.deep_view(),
                    events: events.deep_view(),
                    meta: meta.deep_view().push(("schema_version"@, "1"@)),
                }),
                Some(s) => match version_of(s) {
                    None => r matches Err(StoreError::Migration(m)) && m@
                        == "non-integer schema_version: "@ + s,
                    Some(v) => if v > 1 {
                        r matches Err(StoreError::Migration(m)) && m@ == "store schema_version="@
                            + signed_decimal(v) + " is newer than this binary supports (1)"@
                    } else {
                        r is Ok && r->Ok_0@ == (StoreView {
                            nodes: nodes.deep_view(),
                            edges: edges.deep_view(),
                            events: events.deep_view(),
                            meta: meta.deep_view(),
                        })
                    },
                },
            },
    {
        let mut meta = meta;
        match find_meta(&meta, "schema_version") {
            None => {
                push_item(&mut meta, ("schema_version".to_owned(), "1".to_owned()));
            },
            Some(i) => {
                let s: &str = meta[i].1.as_str();
                match parse_version(s) {
                    None => {
                        let mut m = "non-integer schema_version: ".to_owned();
                        m.append(s);
                        return Err(StoreError::Migration(m));
                    },
                    Some(v) => {
                        if v > 1 {
                            let mut m = "store schema_version=".to_owned();
                            m.append(i64_text(v as i64).as_str());
                            m.append(" is newer than this binary supports (1)");
                            return Err(StoreError::Migration(m));
                        }
                    },
                }
            },
        }
        Ok(Store { nodes, edges, events, meta })
    }

    /// Sets an operational metadata key. The key `schema_version` is the
    /// store's own and is refused.
    pub fn set_meta(&mut self, key: &str, value: &str) -> (r: Result<(), StoreError>)
        ensures
            key@ == "schema_version"@ ==> final(self)@ == old(self)@ && (r matches Err(
                StoreError::Migration(m),
            ) && m@ == "schema_version is managed by the store itself"@),
            key@ != "schema_version"@ ==> r is Ok && final(self)@ == (StoreView {
                meta: upsert_meta(old(self)@.meta, key@, value@),
                ..old(self)@
            }),
    {
        if str_eq(key, "schema_version") {
            return Err(
                StoreError::Migration("schema_version is managed by the store itself".to_owned()),
            );
        }
        let ghost before = self.meta.deep_view();
        match find_meta(&self.meta, key) {
            Some(i) => {
                self.meta[i] = (key.to_owned(), value.to_owned());
                assert(self.meta.deep_view() =~= before.update(i as int, (key@, value@)));
            },
            None => {
                push_item(&mut self.meta, (key.to_owned(), value.to_owned()));
            },
        }
        Ok(())
    }

    /// The value under a metadata key.
    pub fn get_meta(&self, key: &str) -> (r: Result<Option<String>, StoreError>)
        ensures
            r is Ok,
            r->Ok_0.deep_view() == meta_at(self@.meta, key@),
    {
        match find_meta(&self.meta, key) {
            Some(i) => Ok(Some(self.meta[i].1.clone())),
            None => Ok(None),
        }
    }

    /// The recorded schema version; zero where it is no number. A store
    /// without one has no row to read.
    pub fn schema_version(&self) -> (r: Result<i32, StoreError>)
        ensures
            match meta_at(self@.meta, "schema_version"@) {
                Some(s) => r is Ok && r->Ok_0 == match version_of(s) {
                    Some(v) => v,
                    None => 0,
                },
                None => r matches Err(StoreError::Sql(m)) && m@ == "Query returned no rows"@,
            },
    {
        match find_meta(&self.meta, "schema_version") {
            Some(i) => match parse_version(self.meta[i].1.as_str()) {
                Some(v) => Ok(v),
                None => Ok(0),
            },
            None => Err(StoreError::Sql("Query returned no rows".to_owned())),
        }
    }

    /// The rows of the node table.
    pub fn node_rows(&self) -> (r: &Vec<NodeRow>)
        ensures
            r.deep_view() == self@.nodes,
    {
        &self.nodes
    }

    /// The rows of the edge table.
    pub fn edge_rows(&self) -> (r: &Vec<EdgeRow>)
        ensures
            r.deep_view() == self@.edges,
    {
        &self.edges
    }

    /// The rows of the event history.
    pub fn event_rows(&self) -> (r: &Vec<EventRow>)
        ensures
            r.deep_view() == self@.events,
    {
        &self.events
    }

    /// The metadata.
    pub fn meta_rows(&self) -> (r: &Vec<(String, String)>)
        ensures
            r.deep_view() == self@.meta,
    {
        &self.meta
    }
}

/// What was set under a key is read back, and every other key is untouched.
pub proof fn meta_read_back(
    meta: Seq<(Seq<char>, Seq<char>)>,
    key: Seq<char>,
    value: Seq<char>,
    other: Seq<char>,
)
    ensures
        meta_at(upsert_meta(meta, key, value), key) == Some(value),
        other != key ==> meta_at(upsert_meta(meta, key, value), other) == meta_at(meta, other),
{
    let after = upsert_meta(meta, key, value);
    first_where_is_first(meta, is_meta(key));
    first_where_is_first(after, is_meta(key));
    let at = match first_where(meta, is_meta(key)) {
        Some(i) => i,
        None => meta.len() as int,
    };
    assert(is_meta(key)(after[at]));
    assert forall|j: int| 0 <= j < at implies !is_meta(key)(#[trigger] after[j]) by {
        assert(after[j] == meta[j]);
    }
    if other != key {
        first_where_is_first(meta, is_meta(other));
        first_where_is_first(after, is_meta(other));
        match first_where(meta, is_meta(other)) {
            Some(k) => {
                assert(after[k] == meta[k]);
                assert forall|j: int| 0 <= j < k implies !is_meta(other)(#[trigger] after[j]) by {
                    if j != at {
                        assert(after[j] == meta[j]);
                    }
                }
            },
            None => {
                assert forall|j: int| 0 <= j < after.len() implies !is_meta(other)(
                    #[trigger] after[j],
                ) by {
                    if j != at {
                        assert(after[j] == meta[j]);
                    }
                }
            },
        }
    }
}

// ---------- retention --------------------------------------------------------

/// What a retention pass deleted.
#[derive(Debug, Clone, Copy, PartialEq, Eq, Structural)]
pub struct PruneReport {
    pub nodes_deleted: u64,
    pub edges_deleted: u64,
    pub events_deleted: u64,
}

impl Default for PruneReport {
    fn default() -> (r: Self)
        ensures
            r == (PruneReport { nodes_deleted: 0, edges_deleted: 0, events_deleted: 0 }),
    {
        PruneReport { nodes_deleted: 0, edges_deleted: 0, events_deleted: 0 }
    }
}

/// Keeps the nodes last seen at or after a time.
pub open spec fn keep_node(cutoff: i64) -> spec_fn(NodeRowView) -> Option<NodeRowView> {
    |r: NodeRowView|
        if r.last_seen >= cutoff {
            Some(r)
        } else {
            None
        }
}

/// Keeps the edges last seen at or after a time whose two ends are in a node
/// table.
pub open spec fn keep_edge(cutoff: i64, nodes: Seq<NodeRowView>) -> spec_fn(EdgeRowView) -> Option<
    EdgeRowView,
> {
    |r: EdgeRowView|
        if r.last_seen >= cutoff && node_at(nodes, r.from_kind, r.from_id) is Some && node_at(
            nodes,
            r.to_kind,
            r.to_id,
        ) is Some {
            Some(r)
        } else {
            None
        }
}

/// Keeps the events at or after a time.
pub open spec fn keep_event(cutoff: i64) -> spec_fn(EventRowView) -> Option<EventRowView> {
    |r: EventRowView|
        if r.ts_unix_ns >= cutoff {
            Some(r)
        } else {
            None
        }
}

/// The tables after retention: what was last seen before the cutoff is gone,
/// and so is every edge with an end that is gone.
pub open spec fn pruned(s: StoreView, cutoff: i64) -> StoreView {
    let nodes = s.nodes.filter_map(keep_node(cutoff));
    StoreView {
        nodes,
        edges: s.edges.filter_map(keep_edge(cutoff, nodes)),
        events: s.events.filter_map(keep_event(cutoff)),
        ..s
    }
}

impl Store {
    /// Deletes every node and edge last seen before the cutoff, every edge
    /// that would be left without one of its ends, and every event older than
    /// the cutoff.
    pub fn prune_before(&mut self, cutoff_unix_ns: i64) -> (r: Result<PruneReport, StoreError>)
        ensures
            final(self)@ == pruned(old(self)@, cutoff_unix_ns),
            r is Ok,
            r->Ok_0.nodes_deleted == old(self)@.nodes.len() - final(self)@.nodes.len(),
            r->Ok_0.edges_deleted == old(self)@.edges.len() - final(self)@.edges.len(),
            r->Ok_0.events_deleted == old(self)@.events.len() - final(self)@.events.len(),
    {
        let ghost start = self@;
        let mut report = PruneReport::default();

        let mut rows: Vec<EventRow> = Vec::new();
        core::mem::swap(&mut self.events, &mut rows);
        let ghost all = rows.deep_view();
        let ghost keep = keep_event(cutoff_unix_ns);
        let mut kept: Vec<EventRow> = Vec::new();
        let n: usize = rows.len();
        proof {
            filter_map_start(all, keep);
            assert(kept.deep_view() =~= Seq::<EventRowView>::empty());
        }
        for row in it: rows
            invariant
                it.seq() == rows@,
                all == rows.deep_view(),
                n == rows@.len(),
                keep == keep_event(cutoff_unix_ns),
                kept.deep_view() == all.take(it.index() as int).filter_map(keep),
                report.events_deleted + kept@.len() == it.index(),
                report.nodes_deleted == 0 && report.edges_deleted == 0,
        {
            proof {
                filter_map_step(all, keep, it.index() as int);
                assert(all[it.index() as int] == row.deep_view());
            }
            if row.ts_unix_ns >= cutoff_unix_ns {
                push_item(&mut kept, row);
            } else {
                report.events_deleted = report.events_deleted + 1;
            }
        }
        proof {
            take_all(all);
        }
        self.events = kept;

        let mut rows: Vec<NodeRow> = Vec::new();
        core::mem::swap(&mut self.nodes, &mut rows);
        let ghost all = rows.deep_view();
        let ghost keep = keep_node(cutoff_unix_ns);
        let mut kept: Vec<NodeRow> = Vec::new();
        let n: usize = rows.len();
        proof {
            filter_map_start(all, keep);
            assert(kept.deep_view() =~= Seq::<NodeRowView>::empty());
        }
        for row in it: rows
            invariant
                it.seq() == rows@,
                all == rows.deep_view(),
                n == rows@.len(),
                keep == keep_node(cutoff_unix_ns),
                kept.deep_view() == all.take(it.index() as int).filter_map(keep),
                report.nodes_deleted + kept@.len() == it.index(),
                report.edges_deleted == 0,
                report.events_deleted == start.events.len() - self@.events.len(),
        {
            proof {
                filter_map_step(all, keep, it.index() as int);
                assert(all[it.index() as int] == row.deep_view());
            }
            if row.last_seen >= cutoff_unix_ns {
                push_item(&mut kept, row);
            } else {
                report.nodes_deleted = report.nodes_deleted + 1;
            }
        }
        proof {
            take_all(all);
        }
        self.nodes = kept;

        let mut rows: Vec<EdgeRow> = Vec::new();
        core::mem::swap(&mut self.edges, &mut rows);
        let ghost all = rows.deep_view();
        let ghost nodes = self.nodes.deep_view();
        let ghost keep = keep_edge(cutoff_unix_ns, nodes);
        let mut kept: Vec<EdgeRow> = Vec::new();
        let n: usize = rows.len();
        proof {
            filter_map_start(all, keep);
            assert(kept.deep_view() =~= Seq::<EdgeRowView>::empty());
        }
        for row in it: rows
            invariant
                it.seq() == rows@,
                all == rows.deep_view(),
                n == rows@.len(),
                nodes == self.nodes.deep_view(),
                keep == keep_edge(cutoff_unix_ns, nodes),
                kept.deep_view() == all.take(it.index() as int).filter_map(keep),
                report.edges_deleted + kept@.len() == it.index(),
                report.nodes_deleted == start.nodes.len() - self@.nodes.len(),
                report.events_deleted == start.events.len() - self@.events.len(),
        {
            proof {
                filter_map_step(all, keep, it.index() as int);
                assert(all[it.index() as int] == row.deep_view());
            }
            let from_there: bool = find_node(
                &self.nodes,
                row.from_kind,
                row.from_id.as_str(),
            ).is_some();
            let to_there: bool = find_node(&self.nodes, row.to_kind, row.to_id.as_str()).is_some();
            if row.last_seen >= cutoff_unix_ns && from_there && to_there {
                push_item(&mut kept, row);
            } else {
                report.edges_deleted = report.edges_deleted + 1;
            }
        }
        proof {
            take_all(all);
        }
        self.edges = kept;
        Ok(report)
    }
}

// ---------- overview ---------------------------------------------------------

/// Row counts per kind, the span of time covered, and the number of events.
#[derive(Debug)]
pub struct StoreSummary {
    pub node_counts: Vec<(String, u64)>,
    pub edge_counts: Vec<(String, u64)>,
    pub first_seen_unix_ns: Option<i64>,
    pub last_seen_unix_ns: Option<i64>,
    pub event_count: u64,
}

impl Clone for StoreSummary {
    fn clone(&self) -> (r: Self)
        ensures
            r.node_counts.deep_view() == self.node_counts.deep_view(),
            r.edge_counts.deep_view() == self.edge_counts.deep_view(),
            r.first_seen_unix_ns == self.first_seen_unix_ns,
            r.last_seen_unix_ns == self.last_seen_unix_ns,
            r.event_count == self.event_count,
    {
        StoreSummary {
            node_counts: copy_counts(&self.node_counts),
            edge_counts: copy_counts(&self.edge_counts),
            first_seen_unix_ns: self.first_seen_unix_ns,
            last_seen_unix_ns: self.last_seen_unix_ns,
            event_count: self.event_count,
        }
    }
}

impl Default for StoreSummary {
    fn default() -> (r: Self)
        ensures
            r.node_counts@.len() == 0,
            r.edge_counts@.len() == 0,
            r.first_seen_unix_ns == None::<i64>,
            r.last_seen_unix_ns == None::<i64>,
            r.event_count == 0,
    {
        StoreSummary {
            node_counts: Vec::new(),
            edge_counts: Vec::new(),
            first_seen_unix_ns: None,
            last_seen_unix_ns: None,
            event_count: 0,
        }
    }
}

/// A copy of a count.
fn copy_count(p: &(String, u64)) -> (r: (String, u64))
    ensures
        r.deep_view() == p.deep_view(),
{
    (p.0.clone(), p.1)
}

/// A copy of counts.
fn copy_counts(v: &Vec<(String, u64)>) -> (r: Vec<(String, u64)>)
    ensures
        r.deep_view() == v.deep_view(),
{
    let r: Vec<(String, u64)> = convert(
        whole(v),
        copy_count,
        Ghost(|p: (Seq<char>, u64)| p),
    );
    assert(r.deep_view() =~= v.deep_view());
    r
}

/// How many nodes of a kind a table has.
pub open spec fn node_count(nodes: Seq<NodeRowView>, kind: NodeKind) -> nat
    decreases nodes.len(),
{
    if nodes.len() == 0 {
        0
    } else {
        node_count(nodes.drop_last(), kind) + if nodes.last().kind == kind {
            1nat
        } else {
            0nat
        }
    }
}

/// How many edges of a kind a table has.
pub open spec fn edge_count(edges: Seq<EdgeRowView>, kind: EdgeKind) -> nat
    decreases edges.len(),
{
    if edges.len() == 0 {
        0
    } else {
        edge_count(edges.drop_last(), kind) + if edges.last().kind == kind {
            1nat
        } else {
            0nat
        }
    }
}

/// When the earliest node was first seen.
pub open spec fn earliest(nodes: Seq<NodeRowView>) -> Option<i64>
    decreases nodes.len(),
{
    if nodes.len() == 0 {
        None
    } else {
        match earliest(nodes.drop_last()) {
            Some(t) => Some(min_time(t, nodes.last().first_seen)),
            None => Some(nodes.last().first_seen),
        }
    }
}

/// When the latest node was last seen.
pub open spec fn latest(nodes: Seq<NodeRowView>) -> Option<i64>
    decreases nodes.len(),
{
    if nodes.len() == 0 {
        None
    } else {
        match latest(nodes.drop_last()) {
            Some(t) => Some(max_time(t, nodes.last().last_seen)),
            None => Some(nodes.last().last_seen),
        }
    }
}

/// The node kinds.
pub open spec fn node_kinds() -> Seq<NodeKind> {
    seq![NodeKind::Process, NodeKind::App, NodeKind::Socket, NodeKind::File, NodeKind::Domain]
}

/// The edge kinds.
pub open spec fn edge_kinds() -> Seq<EdgeKind> {
    seq![
        EdgeKind::ParentOf,
        EdgeKind::FrontmostDuring,
        EdgeKind::OpenedSocket,
        EdgeKind::QueriedDomain,
    ]
}

/// A node kind with its count, if there is any.
pub open spec fn count_node_kind(nodes: Seq<NodeRowView>) -> spec_fn(NodeKind) -> Option<
    (Seq<char>, u64),
> {
    |k: NodeKind|
        if node_count(nodes, k) > 0 {
            Some((k.spec_name(), node_count(nodes, k) as u64))
        } else {
            None
        }
}

/// An edge kind with its count, if there is any.
pub open spec fn count_edge_kind(edges: Seq<EdgeRowView>) -> spec_fn(EdgeKind) -> Option<
    (Seq<char>, u64),
> {
    |k: EdgeKind|
        if edge_count(edges, k) > 0 {
            Some((k.spec_name(), edge_count(edges, k) as u64))
        } else {
            None
        }
}

/// Orders counts from the largest.
pub open spec fn by_count() -> spec_fn((Seq<char>, u64)) -> int {
    |c: (Seq<char>, u64)| -(c.1 as int)
}

/// How many nodes of a kind a table has.
fn count_nodes(nodes: &Vec<NodeRow>, kind: NodeKind) -> (r: u64)
    ensures
        r == node_count(nodes.deep_view(), kind),
{
    let ghost all = nodes.deep_view();
    let mut n: u64 = 0;
    let mut i: usize = 0;
    while i < nodes.len()
        invariant
            all == nodes.deep_view(),
            i <= nodes@.len(),
            n == node_count(all.take(i as int), kind),
            n <= i,
        decreases nodes@.len() - i,
    {
        assert(all.take(i + 1).drop_last() =~= all.take(i as int));
        assert(all.take(i + 1).last() == nodes@[i as int].deep_view());
        if nodes[i].kind == kind {
            n = n + 1;
        }
        i = i + 1;
    }
    proof {
        take_all(all);
    }
    n
}

/// How many edges of a kind a table has.
fn count_edges(edges: &Vec<EdgeRow>, kind: EdgeKind) -> (r: u64)
    ensures
        r == edge_count(edges.deep_view(), kind),
{
    let ghost all = edges.deep_view();
    let mut n: u64 = 0;
    let mut i: usize = 0;
    while i < edges.len()
        invariant
            all == edges.deep_view(),
            i <= edges@.len(),
            n == edge_count(all.take(i as int), kind),
            n <= i,
        decreases edges@.len() - i,
    {
        assert(all.take(i + 1).drop_last() =~= all.take(i as int));
        assert(all.take(i + 1).last() == edges@[i as int].deep_view());
        if edges[i].kind == kind {
            n = n + 1;
        }
        i = i + 1;
    }
    proof {
        take_all(all);
    }
    n
}

/// When the earliest node was first seen, and the latest last.
pub(crate) fn node_span(nodes: &Vec<NodeRow>) -> (r: (Option<i64>, Option<i64>))
    ensures
        r.0 == earliest(nodes.deep_view()),
        r.1 == latest(nodes.deep_view()),
{
    let ghost all = nodes.deep_view();
    let mut first: Option<i64> = None;
    let mut last: Option<i64> = None;
    let mut i: usize = 0;
    while i < nodes.len()
        invariant
            all == nodes.deep_view(),
            i <= nodes@.len(),
            first == earliest(all.take(i as int)),
            last == latest(all.take(i as int)),
        decreases nodes@.len() - i,
    {
        assert(all.take(i + 1).drop_last() =~= all.take(i as int));
        assert(all.take(i + 1).last() == nodes@[i as int].deep_view());
        let f: i64 = nodes[i].first_seen;
        let l: i64 = nodes[i].last_seen;
        first = match first {
            Some(t) => Some(
                if t <= f {
                    t
                } else {
                    f
                },
            ),
            None => Some(f),
        };
        last = match last {
            Some(t) => Some(
                if t >= l {
                    t
                } else {
                    l
                },
            ),
            None => Some(l),
        };
        i = i + 1;
    }
    proof {
        take_all(all);
    }
    (first, last)
}

impl Store {
    /// What the store holds: row counts per kind, largest first, the span of
    /// time that the nodes cover, and the number of events.
    pub fn summary(&self) -> (r: Result<StoreSummary, StoreError>)
        ensures
            r is Ok,
            r->Ok_0.node_counts.deep_view() == sort_by_key(
                node_kinds().filter_map(count_node_kind(self@.nodes)),
                by_count(),
            ),
            r->Ok_0.edge_counts.deep_view() == sort_by_key(
                edge_kinds().filter_map(count_edge_kind(self@.edges)),
                by_count(),
            ),
            r->Ok_0.first_seen_unix_ns == earliest(self@.nodes),
            r->Ok_0.last_seen_unix_ns == latest(self@.nodes),
            r->Ok_0.event_count == self@.events.len(),
    {
        let kinds = [
            NodeKind::Process,
            NodeKind::App,
            NodeKind::Socket,
            NodeKind::File,
            NodeKind::Domain,
        ];
        assert(kinds@ =~= node_kinds());
        let ghost count = count_node_kind(self@.nodes);
        let mut node_counts: Vec<(String, u64)> = Vec::new();
        let mut keys: Vec<i128> = Vec::new();
        let mut i: usize = 0;
        proof {
            filter_map_start(node_kinds(), count);
            assert(node_counts.deep_view() =~= Seq::<(Seq<char>, u64)>::empty());
        }
        while i < 5
            invariant
                kinds@ == node_kinds(),
                count == count_node_kind(self@.nodes),
                i <= 5,
                keyed(node_counts.deep_view(), by_count(), keys@),
                node_counts.deep_view() == sort_by_key(
                    node_kinds().take(i as int).filter_map(count),
                    by_count(),
                ),
            decreases 5 - i,
        {
            proof {
                filter_map_step(node_kinds(), count, i as int);
            }
            let n: u64 = count_nodes(&self.nodes, kinds[i]);
            if n > 0 {
                let row = (kinds[i].name().to_owned(), n);
                let ghost f = node_kinds().take(i as int).filter_map(count);
                assert(f.push(row.deep_view()).drop_last() =~= f);
                insert_row(&mut node_counts, &mut keys, row, -(n as i128), Ghost(by_count()));
            }
            i = i + 1;
        }
        proof {
            take_all(node_kinds());
        }

        let kinds = [
            EdgeKind::ParentOf,
            EdgeKind::FrontmostDuring,
            EdgeKind::OpenedSocket,
            EdgeKind::QueriedDomain,
        ];
        assert(kinds@ =~= edge_kinds());
        let ghost count = count_edge_kind(self@.edges);
        let mut edge_counts: Vec<(String, u64)> = Vec::new();
        let mut keys: Vec<i128> = Vec::new();
        let mut i: usize = 0;
        proof {
            filter_map_start(edge_kinds(), count);
            assert(edge_counts.deep_view() =~= Seq::<(Seq<char>, u64)>::empty());
        }
        while i < 4
            invariant
                kinds@ == edge_kinds(),
                count == count_edge_kind(self@.edges),
                i <= 4,
                keyed(edge_counts.deep_view(), by_count(), keys@),
                edge_counts.deep_view() == sort_by_key(
                    edge_kinds().take(i as int).filter_map(count),
                    by_count(),
                ),
            decreases 4 - i,
        {
            proof {
                filter_map_step(edge_kinds(), count, i as int);
            }
            let n: u64 = count_edges(&self.edges, kinds[i]);
            if n > 0 {
                let row = (kinds[i].name().to_owned(), n);
                let ghost f = edge_kinds().take(i as int).filter_map(count);
                assert(f.push(row.deep_view()).drop_last() =~= f);
                insert_row(&mut edge_counts, &mut keys, row, -(n as i128), Ghost(by_count()));
            }
            i = i + 1;
        }
        proof {
            take_all(edge_kinds());
        }

        let (first_seen_unix_ns, last_seen_unix_ns) = node_span(&self.nodes);
        Ok(
            StoreSummary {
                node_counts,
                edge_counts,
                first_seen_unix_ns,
                last_seen_unix_ns,
                event_count: self.events.len() as u64,
            },
        )
    }
}

} // verus!
