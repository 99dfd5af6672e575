//! Reading the store back: the whole graph, the slice of it that overlaps a
//! window of time, and the event history.

use vstd::prelude::*;
use vstd::string::*;

use crate::events::{Event, EventKind, EventView};
use crate::graph::{
    AppNodeView, DomainNodeView, Edge, EdgeView, FileNodeView, Graph, GraphView, Interval,
    ProcessNode, ProcessNodeView, SocketNodeView,
};
use crate::json::JsonView;
use crate::observation::Timestamp;
use crate::order::{first_n, insert_row, keyed, sort_by_key};
use crate::seqs::{filter_map_start, filter_map_step, push_item, take_all};
use crate::store::{
    column, column_ts, from_column, process_id_from_string, process_id_of, process_id_text,
    process_id_to_string, socket_id_from_string, socket_id_of, socket_id_text, socket_id_to_string,
    to_column, EdgeKind, EdgeRow, EdgeRowView, EventRow, EventRowView, NodeKind, NodeRow,
    NodeRowView, Store, StoreError, StoreView,
};
use crate::store_rows::{
    app_from_row, app_of_row, domain_from_row, domain_of_row, file_from_row, file_of_row,
    interval_from_json, interval_of, process_from_row, process_of_row, socket_from_row,
    socket_of_row,
};
use crate::text::str_eq;

verus! {

// ---------- nodes ------------------------------------------------------------

/// Whether a row's lifetime overlaps a window, both ends counted; without a
/// window every row does.
pub open spec fn overlaps(r: NodeRowView, window: Option<(i64, i64)>) -> bool {
    match window {
        Some((from, to)) => r.first_seen <= to && r.last_seen >= from,
        None => true,
    }
}

/// Picks the processes.
pub open spec fn pick_process(w: Option<(i64, i64)>) -> spec_fn(NodeRowView) -> Option<
    ProcessNodeView,
> {
    |r: NodeRowView|
        if r.kind == NodeKind::Process && overlaps(r, w) {
            Some(process_of_row(r))
        } else {
            None
        }
}

/// Picks the applications.
pub open spec fn pick_app(w: Option<(i64, i64)>) -> spec_fn(NodeRowView) -> Option<AppNodeView> {
    |r: NodeRowView|
        if r.kind == NodeKind::App && overlaps(r, w) {
            Some(app_of_row(r))
        } else {
            None
        }
}

/// Picks the connections.
pub open spec fn pick_socket(w: Option<(i64, i64)>) -> spec_fn(NodeRowView) -> Option<
    SocketNodeView,
> {
    |r: NodeRowView|
        if r.kind == NodeKind::Socket && overlaps(r, w) {
            Some(socket_of_row(r))
        } else {
            None
        }
}

/// Picks the files.
pub open spec fn pick_file(w: Option<(i64, i64)>) -> spec_fn(NodeRowView) -> Option<FileNodeView> {
    |r: NodeRowView|
        if r.kind == NodeKind::File && overlaps(r, w) {
            Some(file_of_row(r))
        } else {
            None
        }
}

/// Picks the names.
pub open spec fn pick_domain(w: Option<(i64, i64)>) -> spec_fn(NodeRowView) -> Option<
    DomainNodeView,
> {
    |r: NodeRowView|
        if r.kind == NodeKind::Domain && overlaps(r, w) {
            Some(domain_of_row(r))
        } else {
            None
        }
}

/// The nodes of a table that overlap a window, as a graph without edges.
pub open spec fn nodes_in(nodes: Seq<NodeRowView>, w: Option<(i64, i64)>) -> GraphView {
    GraphView {
        processes: nodes.filter_map(pick_process(w)),
        apps: nodes.filter_map(pick_app(w)),
        sockets: nodes.filter_map(pick_socket(w)),
        files: nodes.filter_map(pick_file(w)),
        domains: nodes.filter_map(pick_domain(w)),
        edges: Seq::empty(),
    }
}

/// Whether a row's lifetime overlaps a window.
fn row_overlaps(r: &NodeRow, w: Option<(i64, i64)>) -> (b: bool)
    ensures
        b == overlaps(r.deep_view(), w),
{
    match w {
        Some((from, to)) => r.first_seen <= to && r.last_seen >= from,
        None => true,
    }
}

/// The nodes of a table that overlap a window.
fn read_nodes(nodes: &Vec<NodeRow>, w: Option<(i64, i64)>) -> (g: Graph)
    ensures
        g.deep_view() == nodes_in(nodes.deep_view(), w),
{
    let ghost all = nodes.deep_view();
    let mut g = Graph::default();
    let mut i: usize = 0;
    proof {
        filter_map_start(all, pick_process(w));
        filter_map_start(all, pick_app(w));
        filter_map_start(all, pick_socket(w));
        filter_map_start(all, pick_file(w));
        filter_map_start(all, pick_domain(w));
        assert(g.edges.deep_view() =~= Seq::<EdgeView>::empty());
    }
    while i < nodes.len()
        invariant
            all == nodes.deep_view(),
            i <= nodes@.len(),
            g.processes.deep_view() == all.take(i as int).filter_map(pick_process(w)),
            g.apps.deep_view() == all.take(i as int).filter_map(pick_app(w)),
            g.sockets.deep_view() == all.take(i as int).filter_map(pick_socket(w)),
            g.files.deep_view() == all.take(i as int).filter_map(pick_file(w)),
            g.domains.deep_view() == all.take(i as int).filter_map(pick_domain(w)),
            g.edges.deep_view() == Seq::<EdgeView>::empty(),
        decreases nodes@.len() - i,
    {
        let r: &NodeRow = &nodes[i];
        proof {
            filter_map_step(all, pick_process(w), i as int);
            filter_map_step(all, pick_app(w), i as int);
            filter_map_step(all, pick_socket(w), i as int);
            filter_map_step(all, pick_file(w), i as int);
            filter_map_step(all, pick_domain(w), i as int);
        }
        if row_overlaps(r, w) {
            match r.kind {
                NodeKind::Process => push_item(&mut g.processes, process_from_row(r)),
                NodeKind::App => push_item(&mut g.apps, app_from_row(r)),
                NodeKind::Socket => push_item(&mut g.sockets, socket_from_row(r)),
                NodeKind::File => push_item(&mut g.files, file_from_row(r)),
                NodeKind::Domain => push_item(&mut g.domains, domain_from_row(r)),
            }
        }
        i = i + 1;
    }
    proof {
        take_all(all);
    }
    g
}

// ---------- edges ------------------------------------------------------------

/// The overlap of an edge's attributes, or an open one from time zero.
pub open spec fn overlap_of(attrs: JsonView) -> Interval {
    let none = Interval { from: Timestamp { mono_ns: 0, wall_anchor_ns: 0 }, to: None };
    match attrs.get("overlap"@) {
        Some(j) => match interval_of(j) {
            Some(i) => i,
            None => none,
        },
        None => none,
    }
}

/// The edge that a row describes; none for a connection whose id does not
/// have three parts.
pub open spec fn edge_of_row(r: EdgeRowView) -> Option<EdgeView> {
    match r.kind {
        EdgeKind::ParentOf => Some(
            EdgeView::ParentOf { parent: process_id_of(r.from_id), child: process_id_of(r.to_id) },
        ),
        EdgeKind::FrontmostDuring => Some(
            EdgeView::FrontmostDuring {
                app: r.from_id,
                process: process_id_of(r.to_id),
                overlap: overlap_of(r.attrs),
            },
        ),
        EdgeKind::OpenedSocket => match socket_id_of(r.to_id) {
            Some(socket) => Some(
                EdgeView::OpenedSocket { process: process_id_of(r.from_id), socket },
            ),
            None => None,
        },
        EdgeKind::QueriedDomain => Some(
            EdgeView::QueriedDomain {
                process: process_id_of(r.from_id),
                domain: r.to_id,
                count: match r.attrs.u64_at("queries"@) {
                    Some(n) => n,
                    None => 1,
                },
            },
        ),
    }
}

/// Every edge that a row describes.
pub open spec fn pick_edge() -> spec_fn(EdgeRowView) -> Option<EdgeView> {
    |r: EdgeRowView| edge_of_row(r)
}

/// Whether a graph has the node of a kind with an id.
pub open spec fn has_node(g: GraphView, kind: NodeKind, id: Seq<char>) -> bool {
    match kind {
        NodeKind::Process => exists|i: int|
            0 <= i < g.processes.len() && process_id_text((#[trigger] g.processes[i]).id) == id,
        NodeKind::App => exists|i: int| 0 <= i < g.apps.len() && (#[trigger] g.apps[i]).id == id,
        NodeKind::Socket => exists|i: int|
            0 <= i < g.sockets.len() && socket_id_text((#[trigger] g.sockets[i]).id) == id,
        NodeKind::File => exists|i: int|
            0 <= i < g.files.len() && (#[trigger] g.files[i]).path == id,
        NodeKind::Domain => exists|i: int|
            0 <= i < g.domains.len() && (#[trigger] g.domains[i]).name == id,
    }
}

/// Every edge that a row describes, if the graph has both of its ends.
pub open spec fn pick_edge_within(g: GraphView) -> spec_fn(EdgeRowView) -> Option<EdgeView> {
    |r: EdgeRowView|
        if has_node(g, r.from_kind, r.from_id) && has_node(g, r.to_kind, r.to_id) {
            edge_of_row(r)
        } else {
            None
        }
}

/// The edge that a row describes.
fn edge_from_row(r: &EdgeRow) -> (e: Option<Edge>)
    ensures
        e.deep_view() == edge_of_row(r.deep_view()),
{
    match r.kind {
        EdgeKind::ParentOf => Some(
            Edge::ParentOf {
                parent: process_id_from_string(r.from_id.as_str()),
                child: process_id_from_string(r.to_id.as_str()),
            },
        ),
        EdgeKind::FrontmostDuring => {
            let none = Interval { from: Timestamp { mono_ns: 0, wall_anchor_ns: 0 }, to: None };
            let overlap = match r.attrs.get("overlap") {
                Some(j) => match interval_from_json(j) {
                    Some(i) => i,
                    None => none,
                },
                None => none,
            };
            Some(
                Edge::FrontmostDuring {
                    app: r.from_id.clone(),
                    process: process_id_from_string(r.to_id.as_str()),
                    overlap,
                },
            )
        },
        EdgeKind::OpenedSocket => match socket_id_from_string(r.to_id.as_str()) {
            Some(socket) => Some(
                Edge::OpenedSocket { process: process_id_from_string(r.from_id.as_str()), socket },
            ),
            None => None,
        },
        EdgeKind::QueriedDomain => Some(
            Edge::QueriedDomain {
                process: process_id_from_string(r.from_id.as_str()),
                domain: r.to_id.clone(),
                count: match r.attrs.u64_at("queries") {
                    Some(n) => n,
                    None => 1,
                },
            },
        ),
    }
}

/// Whether a graph has the node of a kind with an id.
fn graph_has(g: &Graph, kind: NodeKind, id: &str) -> (r: bool)
    ensures
        r == has_node(g.deep_view(), kind, id@),
{
    let ghost gv = g.deep_view();
    let mut i: usize = 0;
    match kind {
        NodeKind::Process => {
            while i < g.processes.len()
                invariant
                    kind == NodeKind::Process,
                    gv == g.deep_view(),
                    i <= g.processes@.len(),
                    forall|k: int|
                        0 <= k < i ==> process_id_text((#[trigger] gv.processes[k]).id) != id@,
                decreases g.processes@.len() - i,
            {
                assert(gv.processes[i as int] == g.processes@[i as int].deep_view());
                if str_eq(process_id_to_string(&g.processes[i].id).as_str(), id) {
                    return true;
                }
                i = i + 1;
            }
        },
        NodeKind::App => {
            while i < g.apps.len()
                invariant
                    kind == NodeKind::App,
                    gv == g.deep_view(),
                    i <= g.apps@.len(),
                    forall|k: int| 0 <= k < i ==> (#[trigger] gv.apps[k]).id != id@,
                decreases g.apps@.len() - i,
            {
                assert(gv.apps[i as int] == g.apps@[i as int].deep_view());
                if str_eq(g.apps[i].id.as_str(), id) {
                    return true;
                }
                i = i + 1;
            }
        },
        NodeKind::Socket => {
            while i < g.sockets.len()
                invariant
                    kind == NodeKind::Socket,
                    gv == g.deep_view(),
                    i <= g.sockets@.len(),
                    forall|k: int|
                        0 <= k < i ==> socket_id_text((#[trigger] gv.sockets[k]).id) != id@,
                decreases g.sockets@.len() - i,
            {
                assert(gv.sockets[i as int] == g.sockets@[i as int].deep_view());
                if str_eq(socket_id_to_string(&g.sockets[i].id).as_str(), id) {
                    return true;
                }
                i = i + 1;
            }
        },
        NodeKind::File => {
            while i < g.files.len()
                invariant
                    kind == NodeKind::File,
                    gv == g.deep_view(),
                    i <= g.files@.len(),
                    forall|k: int| 0 <= k < i ==> (#[trigger] gv.files[k]).path != id@,
                decreases g.files@.len() - i,
            {
                assert(gv.files[i as int] == g.files@[i as int].deep_view());
                if str_eq(g.files[i].path.as_str(), id) {
                    return true;
                }
                i = i + 1;
            }
        },
        NodeKind::Domain => {
            while i < g.domains.len()
                invariant
                    kind == NodeKind::Domain,
                    gv == g.deep_view(),
                    i <= g.domains@.len(),
                    forall|k: int| 0 <= k < i ==> (#[trigger] gv.domains[k]).name != id@,
                decreases g.domains@.len() - i,
            {
                assert(gv.domains[i as int] == g.domains@[i as int].deep_view());
                if str_eq(g.domains[i].name.as_str(), id) {
                    return true;
                }
                i = i + 1;
            }
        },
    }
    false
}

/// The graph that the tables hold.
pub open spec fn loaded(s: StoreView) -> GraphView {
    GraphView { edges: s.edges.filter_map(pick_edge()), ..nodes_in(s.nodes, None) }
}

/// The slice of the graph whose nodes overlap a window, with the edges whose
/// two ends are both in it.
pub open spec fn windowed(s: StoreView, from: i64, to: i64) -> GraphView {
    let g = nodes_in(s.nodes, Some((from, to)));
    GraphView { edges: s.edges.filter_map(pick_edge_within(g)), ..g }
}

/// Picks the processes that were last seen at or after a time.
pub open spec fn seen_since(since_ns: u64) -> spec_fn(NodeRowView) -> Option<ProcessNodeView> {
    |r: NodeRowView|
        if r.kind == NodeKind::Process && r.last_seen >= since_ns {
            Some(process_of_row(r))
        } else {
            None
        }
}

impl Store {
    /// Reconstructs the graph from the tables.
    pub fn load_graph(&self) -> (r: Result<Graph, StoreError>)
        ensures
            r is Ok,
            r->Ok_0.deep_view() == loaded(self@),
    {
        let mut g = read_nodes(&self.nodes, None);
        let ghost base = g.deep_view();
        let ghost all = self.edges.deep_view();
        let mut i: usize = 0;
        proof {
            filter_map_start(all, pick_edge());
        }
        while i < self.edges.len()
            invariant
                all == self.edges.deep_view(),
                i <= self.edges@.len(),
                g.deep_view() == (GraphView {
                    edges: all.take(i as int).filter_map(pick_edge()),
                    ..base
                }),
            decreases self.edges@.len() - i,
        {
            proof {
                filter_map_step(all, pick_edge(), i as int);
            }
            match edge_from_row(&self.edges[i]) {
                Some(e) => push_item(&mut g.edges, e),
                None => {},
            }
            i = i + 1;
        }
        proof {
            take_all(all);
        }
        Ok(g)
    }

    /// The slice of the graph whose nodes overlap `[from_unix_ns, to_unix_ns]`.
    /// An edge belongs to it if both of its ends do.
    pub fn graph_in_window(&self, from_unix_ns: i64, to_unix_ns: i64) -> (r: Result<
        Graph,
        StoreError,
    >)
        ensures
            r is Ok,
            r->Ok_0.deep_view() == windowed(self@, from_unix_ns, to_unix_ns),
    {
        let nodes = read_nodes(&self.nodes, Some((from_unix_ns, to_unix_ns)));
        let ghost base = nodes.deep_view();
        let ghost all = self.edges.deep_view();
        let mut edges: Vec<Edge> = Vec::new();
        let mut i: usize = 0;
        proof {
            filter_map_start(all, pick_edge_within(base));
            assert(edges.deep_view() =~= Seq::<EdgeView>::empty());
        }
        while i < self.edges.len()
            invariant
                all == self.edges.deep_view(),
                base == nodes.deep_view(),
                i <= self.edges@.len(),
                edges.deep_view() == all.take(i as int).filter_map(pick_edge_within(base)),
            decreases self.edges@.len() - i,
        {
            proof {
                filter_map_step(all, pick_edge_within(base), i as int);
            }
            let row: &EdgeRow = &self.edges[i];
            if graph_has(&nodes, row.from_kind, row.from_id.as_str()) && graph_has(
                &nodes,
                row.to_kind,
                row.to_id.as_str(),
            ) {
                match edge_from_row(row) {
                    Some(e) => push_item(&mut edges, e),
                    None => {},
                }
            }
            i = i + 1;
        }
        proof {
            take_all(all);
        }
        let mut g = nodes;
        g.edges = edges;
        Ok(g)
    }

    /// The processes that were last seen at or after `since_ns`, in unix
    /// nanoseconds.
    pub fn processes_seen_since(&self, since_ns: u64) -> (r: Result<Vec<ProcessNode>, StoreError>)
        ensures
            r is Ok,
            r->Ok_0.deep_view() == self@.nodes.filter_map(seen_since(since_ns)),
    {
        let ghost all = self.nodes.deep_view();
        let mut out: Vec<ProcessNode> = Vec::new();
        let mut i: usize = 0;
        proof {
            filter_map_start(all, seen_since(since_ns));
            assert(out.deep_view() =~= Seq::<ProcessNodeView>::empty());
        }
        while i < self.nodes.len()
            invariant
                all == self.nodes.deep_view(),
                i <= self.nodes@.len(),
                out.deep_view() == all.take(i as int).filter_map(seen_since(since_ns)),
            decreases self.nodes@.len() - i,
        {
            proof {
                filter_map_step(all, seen_since(since_ns), i as int);
            }
            let r: &NodeRow = &self.nodes[i];
            assert(all[i as int] == r.deep_view());
            if r.kind == NodeKind::Process && r.last_seen as i128 >= since_ns as i128 {
                push_item(&mut out, process_from_row(r));
            }
            i = i + 1;
        }
        proof {
            take_all(all);
        }
        Ok(out)
    }
}

// ---------- events -----------------------------------------------------------

/// An event as a row of the history.
pub open spec fn event_row(e: EventView) -> EventRowView {
    EventRowView {
        ts_unix_ns: column(e.timestamp),
        kind: e.kind,
        pid: e.pid,
        schema_version: e.schema_version,
        payload: e.payload,
    }
}

/// The event that a row describes: its unix time stands in the monotonic part.
pub open spec fn event_of_row(r: EventRowView) -> EventView {
    EventView {
        schema_version: r.schema_version,
        timestamp: column_ts(r.ts_unix_ns),
        kind: r.kind,
        pid: r.pid,
        payload: r.payload,
    }
}

/// Picks the rows of a window, of the given kinds where some are given.
pub open spec fn pick_event(from: i64, to: i64, kinds: Option<Seq<EventKind>>) -> spec_fn(
    EventRowView,
) -> Option<EventRowView> {
    |r: EventRowView|
        if from <= r.ts_unix_ns <= to && (kinds matches Some(ks) ==> ks.contains(r.kind)) {
            Some(r)
        } else {
            None
        }
}

/// A row's time.
pub open spec fn event_time() -> spec_fn(EventRowView) -> int {
    |r: EventRowView| r.ts_unix_ns as int
}

/// The events of a window, oldest first, at most `limit` of them.
pub open spec fn events_between(
    rows: Seq<EventRowView>,
    from: i64,
    to: i64,
    kinds: Option<Seq<EventKind>>,
    limit: int,
) -> Seq<EventView> {
    let hits = first_n(sort_by_key(rows.filter_map(pick_event(from, to, kinds)), event_time()), limit);
    Seq::new(hits.len(), |i: int| event_of_row(hits[i]))
}

/// The kinds of an optional list.
pub open spec fn kinds_view(kinds: Option<&[EventKind]>) -> Option<Seq<EventKind>> {
    match kinds {
        Some(ks) => Some(ks@),
        None => None,
    }
}

/// Whether a list of kinds has a kind.
fn has_kind(kinds: &[EventKind], kind: EventKind) -> (r: bool)
    ensures
        r == kinds@.contains(kind),
{
    let mut i: usize = 0;
    while i < kinds.len()
        invariant
            i <= kinds@.len(),
            forall|k: int| 0 <= k < i ==> kinds@[k] != kind,
        decreases kinds@.len() - i,
    {
        if kinds[i] == kind {
            return true;
        }
        i = i + 1;
    }
    false
}

impl Store {
    /// Appends events to the history. Returns the number of rows written.
    pub fn append_events(&mut self, events: &[Event]) -> (r: Result<u64, StoreError>)
        ensures
            final(self)@ == (StoreView {
                events: old(self)@.events + Seq::new(
                    events@.len(),
                    |i: int| event_row(events@[i].deep_view()),
                ),
                ..old(self)@
            }),
            r is Ok,
            r->Ok_0 == events@.len(),
    {
        let ghost start = self@;
        let ghost new = Seq::new(events@.len(), |i: int| event_row(events@[i].deep_view()));
        let mut i: usize = 0;
        assert(start.events + new.take(0) =~= start.events);
        while i < events.len()
            invariant
                i <= events@.len(),
                new == Seq::new(events@.len(), |i: int| event_row(events@[i].deep_view())),
                self@ == (StoreView { events: start.events + new.take(i as int), ..start }),
            decreases events@.len() - i,
        {
            let e: &Event = &events[i];
            push_item(
                &mut self.events,
                EventRow {
                    ts_unix_ns: to_column(e.timestamp),
                    kind: e.kind,
                    pid: e.pid,
                    schema_version: e.schema_version,
                    payload: e.payload.clone(),
                },
            );
            i = i + 1;
            assert(self@.events =~= start.events + new.take(i as int));
        }
        assert(new.take(new.len() as int) =~= new);
        Ok(i as u64)
    }

    /// The events whose time falls in `[from_unix_ns, to_unix_ns]`, oldest
    /// first, of the given kinds where some are given, at most `limit` of
    /// them.
    pub fn events_in_window(
        &self,
        from_unix_ns: i64,
        to_unix_ns: i64,
        kinds: Option<&[EventKind]>,
        limit: usize,
    ) -> (r: Result<Vec<Event>, StoreError>)
        ensures
            r is Ok,
            r->Ok_0.deep_view() == events_between(
                self@.events,
                from_unix_ns,
                to_unix_ns,
                kinds_view(kinds),
                limit as int,
            ),
    {
        let ghost all = self.events.deep_view();
        let ghost pick = pick_event(from_unix_ns, to_unix_ns, kinds_view(kinds));
        let mut hits: Vec<&EventRow> = Vec::new();
        let mut keys: Vec<i128> = Vec::new();
        let mut i: usize = 0;
        proof {
            filter_map_start(all, pick);
            assert(hits.deep_view() =~= Seq::<EventRowView>::empty());
        }
        while i < self.events.len()
            invariant
                all == self.events.deep_view(),
                pick == pick_event(from_unix_ns, to_unix_ns, kinds_view(kinds)),
                i <= self.events@.len(),
                keyed(hits.deep_view(), event_time(), keys@),
                hits.deep_view() == sort_by_key(all.take(i as int).filter_map(pick), event_time()),
            decreases self.events@.len() - i,
        {
            proof {
                filter_map_step(all, pick, i as int);
            }
            let row: &EventRow = &self.events[i];
            let wanted: bool = match kinds {
                Some(ks) => has_kind(ks, row.kind),
                None => true,
            };
            if from_unix_ns <= row.ts_unix_ns && row.ts_unix_ns <= to_unix_ns && wanted {
                let ghost f = all.take(i as int).filter_map(pick);
                assert(f.push(row.deep_view()).drop_last() =~= f);
                insert_row(&mut hits, &mut keys, row, row.ts_unix_ns as i128, Ghost(event_time()));
            }
            i = i + 1;
        }
        proof {
            take_all(all);
        }
        let ghost sorted = hits.deep_view();
        let ghost picked = first_n(sorted, limit as int);
        let ghost result = Seq::new(picked.len(), |i: int| event_of_row(picked[i]));
        let mut out: Vec<Event> = Vec::new();
        let mut k: usize = 0;
        assert(out.deep_view() =~= result.take(0));
        while k < hits.len() && k < limit
            invariant
                k <= hits@.len(),
                k <= limit,
                sorted == hits.deep_view(),
                picked == first_n(sorted, limit as int),
                result == Seq::new(picked.len(), |i: int| event_of_row(picked[i])),
                out.deep_view() == result.take(k as int),
            decreases hits@.len() - k,
        {
            let row: &EventRow = hits[k];
            assert(sorted[k as int] == row.deep_view());
            assert(picked[k as int] == sorted[k as int]);
            push_item(
                &mut out,
                Event {
                    schema_version: row.schema_version,
                    timestamp: from_column(row.ts_unix_ns),
                    kind: row.kind,
                    pid: row.pid,
                    payload: row.payload.clone(),
                },
            );
            assert(result.take(k as int).push(result[k as int]) =~= result.take(k + 1));
            k = k + 1;
        }
        assert(result.take(k as int) =~= result);
        Ok(out)
    }
}

} // verus!
