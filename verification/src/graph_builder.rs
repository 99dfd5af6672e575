//! Building the graph from events, in the order of their arrival.

use vstd::prelude::*;
use vstd::string::*;

use crate::events::{Event, EventKind, EventView};
use crate::fsevents_coalesce::{add_texts, read_texts, texts_at, union_texts};
use crate::graph::{
    copy_intervals, same_socket, AppNode, AppNodeView, Edge, EdgeView, FileNode, FileNodeView,
    Graph, GraphView, Interval, ProcessId, ProcessNode, ProcessNodeView, SocketId, SocketIdView,
    SocketNode, SocketNodeView,
};
use crate::json::{copy_opt, Json};
use crate::observation::{Observation, Timestamp};
use crate::seqs::{
    copy_all, filter_map_keeps, filter_map_start, filter_map_step, first_where, first_where_from,
    push_item, take_all,
};
use crate::text::str_eq;

verus! {

/// Streaming builder: feed it events and observations as they arrive, then
/// build the graph.
#[derive(Debug)]
pub struct GraphBuilder {
    processes: Vec<ProcessNode>,
    apps: Vec<AppNode>,
    sockets: Vec<SocketNode>,
    files: Vec<FileNode>,
    /// The frontmost application and since when it is in front.
    current_frontmost: Option<(String, Timestamp)>,
    /// When the last event or observation came.
    last_ts: Option<Timestamp>,
}

/// What the builder holds.
#[verifier::ext_equal]
pub struct BuilderView {
    pub processes: Seq<ProcessNodeView>,
    pub apps: Seq<AppNodeView>,
    pub sockets: Seq<SocketNodeView>,
    pub files: Seq<FileNodeView>,
    pub current_frontmost: Option<(Seq<char>, Timestamp)>,
    pub last_ts: Option<Timestamp>,
}

impl View for GraphBuilder {
    type V = BuilderView;

    closed spec fn view(&self) -> BuilderView {
        BuilderView {
            processes: self.processes.deep_view(),
            apps: self.apps.deep_view(),
            sockets: self.sockets.deep_view(),
            files: self.files.deep_view(),
            current_frontmost: self.current_frontmost.deep_view(),
            last_ts: self.last_ts,
        }
    }
}

// ---------- identities -------------------------------------------------------------

/// The process that an event is of; none without an id and a start time.
pub open spec fn process_of(ev: EventView) -> Option<ProcessId> {
    match (ev.pid, ev.payload.u64_at("start_unix_secs"@)) {
        (Some(pid), Some(start_unix_secs)) => Some(ProcessId { pid, start_unix_secs }),
        _ => None,
    }
}

/// The connection that an event is of; none without a protocol and both
/// addresses.
pub open spec fn socket_of(ev: EventView) -> Option<SocketIdView> {
    match (
        ev.payload.str_at("proto"@),
        ev.payload.str_at("local_addr"@),
        ev.payload.str_at("foreign_addr"@),
    ) {
        (Some(proto), Some(local_addr), Some(foreign_addr)) => Some(
            SocketIdView { proto, local_addr, foreign_addr },
        ),
        _ => None,
    }
}

/// A text that is there and not empty.
pub open spec fn nonempty(s: Option<Seq<char>>) -> Option<Seq<char>> {
    match s {
        Some(t) if t.len() > 0 => Some(t),
        _ => None,
    }
}

/// The application that comes to the front: its bundle id or, without one, its
/// executable path.
pub open spec fn focus_id(ev: EventView) -> Option<Seq<char>> {
    match nonempty(ev.payload.str_at("to_bundle_id"@)) {
        Some(s) => Some(s),
        None => nonempty(ev.payload.str_at("to_exec_path"@)),
    }
}

/// Whether a node is of a process.
pub open spec fn is_process(id: ProcessId) -> spec_fn(ProcessNodeView) -> bool {
    |p: ProcessNodeView| p.id == id
}

/// Whether a node is of an application.
pub open spec fn is_app(id: Seq<char>) -> spec_fn(AppNodeView) -> bool {
    |a: AppNodeView| a.id == id
}

/// Whether a node is of a connection.
pub open spec fn is_socket(id: SocketIdView) -> spec_fn(SocketNodeView) -> bool {
    |s: SocketNodeView| s.id == id
}

/// Whether a node is of a file.
pub open spec fn is_file(path: Seq<char>) -> spec_fn(FileNodeView) -> bool {
    |f: FileNodeView| f.path == path
}

// ---------- events -----------------------------------------------------------------

/// The node of a process that an event describes.
pub open spec fn process_node(ev: EventView, id: ProcessId, death: Option<Timestamp>) -> ProcessNodeView {
    ProcessNodeView {
        id,
        comm: ev.payload.str_at("comm"@),
        name: ev.payload.str_at("name"@),
        exec_path: ev.payload.str_at("exec_path"@),
        ppid: ev.payload.u32_at("ppid"@),
        uid: ev.payload.u32_at("uid"@),
        birth: ev.timestamp,
        death,
    }
}

/// The node of a connection that an event describes.
pub open spec fn socket_node(ev: EventView, id: SocketIdView, closed: Option<Timestamp>) -> SocketNodeView {
    SocketNodeView {
        id,
        state: ev.payload.str_at("state"@),
        process_name: ev.payload.str_at("process_name"@),
        pid_at_open: ev.pid,
        opened: ev.timestamp,
        closed,
        rxbytes_last: ev.payload.u64_at("rxbytes"@),
        txbytes_last: ev.payload.u64_at("txbytes"@),
    }
}

/// The newer of two counters: the second where there is one.
pub open spec fn newer(old: Option<u64>, new: Option<u64>) -> Option<u64> {
    if new is Some {
        new
    } else {
        old
    }
}

/// Intervals of which the last is closed at a time, if it was open.
pub open spec fn close_last(v: Seq<Interval>, at: Option<Timestamp>) -> Seq<Interval> {
    if v.len() > 0 && v.last().to is None {
        v.update(v.len() - 1, Interval { from: v.last().from, to: at })
    } else {
        v
    }
}

/// The applications after the last interval of one was closed at a time.
pub open spec fn close_app(apps: Seq<AppNodeView>, id: Seq<char>, at: Option<Timestamp>) -> Seq<
    AppNodeView,
> {
    match first_where(apps, is_app(id)) {
        Some(i) => apps.update(
            i,
            AppNodeView { intervals: close_last(apps[i].intervals, at), ..apps[i] },
        ),
        None => apps,
    }
}

/// The applications after one got an open interval.
pub open spec fn open_app(apps: Seq<AppNodeView>, id: Seq<char>, from: Timestamp) -> Seq<
    AppNodeView,
> {
    match first_where(apps, is_app(id)) {
        Some(i) => apps.update(
            i,
            AppNodeView {
                intervals: apps[i].intervals.push(Interval { from, to: None }),
                ..apps[i]
            },
        ),
        None => apps,
    }
}

/// The applications with one more, or with what is missing of it filled in.
pub open spec fn know_app(
    apps: Seq<AppNodeView>,
    id: Seq<char>,
    name: Option<Seq<char>>,
    exec_path: Option<Seq<char>>,
) -> Seq<AppNodeView> {
    match first_where(apps, is_app(id)) {
        Some(i) => apps.update(
            i,
            AppNodeView {
                name: if apps[i].name is None {
                    name
                } else {
                    apps[i].name
                },
                exec_path: if apps[i].exec_path is None {
                    exec_path
                } else {
                    apps[i].exec_path
                },
                ..apps[i]
            },
        ),
        None => apps.push(AppNodeView { id, name, exec_path, intervals: Seq::empty() }),
    }
}

/// A sum that wraps around at the largest `u64`.
pub open spec fn wrapping_sum(a: u64, b: u64) -> u64 {
    ((a + b) % 0x1_0000_0000_0000_0000) as u64
}

/// A count, or zero.
pub open spec fn count_of(ev: EventView) -> u64 {
    match ev.payload.u64_at("count"@) {
        Some(n) => n,
        None => 0,
    }
}

impl BuilderView {
    /// The builder after a birth: the node replaces one of the same process.
    pub open spec fn after_birth(self, ev: EventView) -> BuilderView {
        match process_of(ev) {
            None => self,
            Some(id) => BuilderView {
                processes: match first_where(self.processes, is_process(id)) {
                    Some(i) => self.processes.update(i, process_node(ev, id, None)),
                    None => self.processes.push(process_node(ev, id, None)),
                },
                ..self
            },
        }
    }

    /// The builder after a death: a known process gets its time of death, an
    /// unknown one a node that was born and died then.
    pub open spec fn after_death(self, ev: EventView) -> BuilderView {
        match process_of(ev) {
            None => self,
            Some(id) => BuilderView {
                processes: match first_where(self.processes, is_process(id)) {
                    Some(i) => self.processes.update(
                        i,
                        ProcessNodeView { death: Some(ev.timestamp), ..self.processes[i] },
                    ),
                    None => self.processes.push(process_node(ev, id, Some(ev.timestamp))),
                },
                ..self
            },
        }
    }

    /// The builder after a change of focus: the application in front until now
    /// has its interval closed, the one that comes to the front gets an open
    /// one. Where it is the same, the interval goes on from when it began.
    pub open spec fn after_focus(self, ev: EventView) -> BuilderView {
        match focus_id(ev) {
            None => self,
            Some(id) => {
                let closed = match self.current_frontmost {
                    Some((prev, from)) => close_app(self.apps, prev, Some(ev.timestamp)),
                    None => self.apps,
                };
                match self.current_frontmost {
                    Some((prev, from)) if prev == id => BuilderView {
                        apps: open_app(closed, prev, from),
                        current_frontmost: Some((id, from)),
                        ..self
                    },
                    _ => BuilderView {
                        apps: open_app(
                            know_app(
                                closed,
                                id,
                                ev.payload.str_at("to_name"@),
                                ev.payload.str_at("to_exec_path"@),
                            ),
                            id,
                            ev.timestamp,
                        ),
                        current_frontmost: Some((id, ev.timestamp)),
                        ..self
                    },
                }
            },
        }
    }

    /// The builder after an opening: the node replaces one of the same
    /// connection.
    pub open spec fn after_opened(self, ev: EventView) -> BuilderView {
        match socket_of(ev) {
            None => self,
            Some(id) => BuilderView {
                sockets: match first_where(self.sockets, is_socket(id)) {
                    Some(i) => self.sockets.update(i, socket_node(ev, id, None)),
                    None => self.sockets.push(socket_node(ev, id, None)),
                },
                ..self
            },
        }
    }

    /// The builder after a closing: a known connection gets its time of
    /// closing and the newer counters, an unknown one a node of its own.
    pub open spec fn after_closed(self, ev: EventView) -> BuilderView {
        match socket_of(ev) {
            None => self,
            Some(id) => BuilderView {
                sockets: match first_where(self.sockets, is_socket(id)) {
                    Some(i) => self.sockets.update(
                        i,
                        SocketNodeView {
                            closed: Some(ev.timestamp),
                            rxbytes_last: newer(
                                self.sockets[i].rxbytes_last,
                                ev.payload.u64_at("rxbytes"@),
                            ),
                            txbytes_last: newer(
                                self.sockets[i].txbytes_last,
                                ev.payload.u64_at("txbytes"@),
                            ),
                            ..self.sockets[i]
                        },
                    ),
                    None => self.sockets.push(socket_node(ev, id, Some(ev.timestamp))),
                },
                ..self
            },
        }
    }

    /// The builder after a change of a file: its flags are joined and its
    /// touches counted.
    pub open spec fn after_change(self, ev: EventView) -> BuilderView {
        let flags = texts_at(ev.payload, "flags"@);
        match ev.payload.str_at("path"@) {
            None => self,
            Some(path) => BuilderView {
                files: match first_where(self.files, is_file(path)) {
                    Some(i) => self.files.update(
                        i,
                        FileNodeView {
                            flags: union_texts(self.files[i].flags, flags),
                            last_seen: ev.timestamp,
                            touch_count: wrapping_sum(self.files[i].touch_count, count_of(ev)),
                            ..self.files[i]
                        },
                    ),
                    None => self.files.push(
                        FileNodeView {
                            path,
                            flags: union_texts(Seq::empty(), flags),
                            first_seen: ev.timestamp,
                            last_seen: ev.timestamp,
                            touch_count: count_of(ev),
                        },
                    ),
                },
                ..self
            },
        }
    }

    /// The builder after an event. Summaries of connections and name lookups
    /// only move the time on.
    pub open spec fn after(self, ev: EventView) -> BuilderView {
        let timed = BuilderView { last_ts: Some(ev.timestamp), ..self };
        match ev.kind {
            EventKind::ProcessBirth => timed.after_birth(ev),
            EventKind::ProcessDeath => timed.after_death(ev),
            EventKind::AppFocus => timed.after_focus(ev),
            EventKind::ConnectionOpened => timed.after_opened(ev),
            EventKind::ConnectionClosed => timed.after_closed(ev),
            EventKind::FileChanged => timed.after_change(ev),
            EventKind::ConnectionCompleted | EventKind::DnsQuery => timed,
        }
    }
}

// ---------- edges ------------------------------------------------------------------

/// The last of the processes that has an id.
pub open spec fn last_with_pid(ps: Seq<ProcessNodeView>, pid: u32) -> Option<ProcessNodeView>
    decreases ps.len(),
{
    if ps.len() == 0 {
        None
    } else if ps.last().id.pid == pid {
        Some(ps.last())
    } else {
        last_with_pid(ps.drop_last(), pid)
    }
}

/// The edge from a process's parent, if the parent is among the processes and
/// another one.
pub open spec fn parent_edge(ps: Seq<ProcessNodeView>) -> spec_fn(ProcessNodeView) -> Option<
    EdgeView,
> {
    |child: ProcessNodeView|
        match child.ppid {
            Some(ppid) => match last_with_pid(ps, ppid) {
                Some(parent) if parent.id != child.id => Some(
                    EdgeView::ParentOf { parent: parent.id, child: child.id },
                ),
                _ => None,
            },
            None => None,
        }
}

/// The end of an open interval or lifetime: later than any time.
pub open spec fn end_of_time() -> Timestamp {
    Timestamp { mono_ns: u64::MAX, wall_anchor_ns: 0 }
}

/// A time, or the end of time.
pub open spec fn or_end(t: Option<Timestamp>) -> Timestamp {
    match t {
        Some(x) => x,
        None => end_of_time(),
    }
}

/// The earlier of two times.
pub open spec fn earlier(a: Timestamp, b: Timestamp) -> Timestamp {
    if a.mono_ns <= b.mono_ns {
        a
    } else {
        b
    }
}

/// The later of two times.
pub open spec fn later(a: Timestamp, b: Timestamp) -> Timestamp {
    if a.mono_ns >= b.mono_ns {
        a
    } else {
        b
    }
}

/// The edge from an application to a process whose lifetime overlaps one of
/// its intervals, with the overlap.
pub open spec fn overlap_edge(app: Seq<char>, i: Interval) -> spec_fn(ProcessNodeView) -> Option<
    EdgeView,
> {
    |p: ProcessNodeView|
        {
            let from = later(i.from, p.birth);
            let to = earlier(or_end(i.to), or_end(p.death));
            if from.mono_ns < to.mono_ns {
                Some(
                    EdgeView::FrontmostDuring {
                        app,
                        process: p.id,
                        overlap: Interval {
                            from,
                            to: if to.mono_ns == u64::MAX {
                                None
                            } else {
                                Some(to)
                            },
                        },
                    },
                )
            } else {
                None
            }
        }
}

/// The edges from an application over its intervals.
pub open spec fn app_edges(app: Seq<char>, intervals: Seq<Interval>, ps: Seq<ProcessNodeView>) -> Seq<
    EdgeView,
>
    decreases intervals.len(),
{
    if intervals.len() == 0 {
        Seq::empty()
    } else {
        app_edges(app, intervals.drop_last(), ps) + ps.filter_map(
            overlap_edge(app, intervals.last()),
        )
    }
}

/// The edges from all applications.
pub open spec fn focus_edges(apps: Seq<AppNodeView>, ps: Seq<ProcessNodeView>) -> Seq<EdgeView>
    decreases apps.len(),
{
    if apps.len() == 0 {
        Seq::empty()
    } else {
        focus_edges(apps.drop_last(), ps) + app_edges(apps.last().id, apps.last().intervals, ps)
    }
}

/// Whether a process had an id when a connection was opened.
pub open spec fn lived_at(p: ProcessNodeView, pid: u32, opened: Timestamp) -> bool {
    p.id.pid == pid && p.birth.mono_ns <= opened.mono_ns && (p.death matches Some(d) ==> d.mono_ns
        >= opened.mono_ns)
}

/// The process that opened a connection: of those that had the id then, the
/// one born last.
pub open spec fn opener(ps: Seq<ProcessNodeView>, pid: u32, opened: Timestamp) -> Option<
    ProcessNodeView,
>
    decreases ps.len(),
{
    if ps.len() == 0 {
        None
    } else {
        let best = opener(ps.drop_last(), pid, opened);
        let p = ps.last();
        if lived_at(p, pid, opened) && (best matches Some(b) ==> b.birth.mono_ns <= p.birth.mono_ns) {
            Some(p)
        } else {
            best
        }
    }
}

/// The edge from the process that opened a connection.
pub open spec fn opener_edge(ps: Seq<ProcessNodeView>) -> spec_fn(SocketNodeView) -> Option<
    EdgeView,
> {
    |s: SocketNodeView|
        match s.pid_at_open {
            Some(pid) => match opener(ps, pid, s.opened) {
                Some(p) => Some(EdgeView::OpenedSocket { process: p.id, socket: s.id }),
                None => None,
            },
            None => None,
        }
}

impl BuilderView {
    /// The applications, with the interval of the one in front closed when the
    /// last event or observation came.
    pub open spec fn final_apps(self) -> Seq<AppNodeView> {
        match self.current_frontmost {
            Some((id, from)) => close_app(self.apps, id, self.last_ts),
            None => self.apps,
        }
    }

    /// The graph: every node, then the edges from parents, from applications
    /// and to connections.
    pub open spec fn graph(self) -> GraphView {
        GraphView {
            processes: self.processes,
            apps: self.final_apps(),
            sockets: self.sockets,
            files: self.files,
            domains: Seq::empty(),
            edges: self.processes.filter_map(parent_edge(self.processes)) + focus_edges(
                self.final_apps(),
                self.processes,
            ) + self.sockets.filter_map(opener_edge(self.processes)),
        }
    }
}

// ---------- the builder ------------------------------------------------------------

fn process_id_from_event(ev: &Event) -> (r: Option<ProcessId>)
    ensures
        r == process_of(ev.deep_view()),
{
    match ev.pid {
        Some(pid) => match ev.payload.u64_at("start_unix_secs") {
            Some(start_unix_secs) => Some(ProcessId { pid, start_unix_secs }),
            None => None,
        },
        None => None,
    }
}

fn socket_id_from_event(ev: &Event) -> (r: Option<SocketId>)
    ensures
        r.deep_view() == socket_of(ev.deep_view()),
{
    let proto: String = match ev.payload.string_at("proto") {
        Some(s) => s,
        None => return None,
    };
    let local_addr: String = match ev.payload.string_at("local_addr") {
        Some(s) => s,
        None => return None,
    };
    let foreign_addr: String = match ev.payload.string_at("foreign_addr") {
        Some(s) => s,
        None => return None,
    };
    Some(SocketId { proto, local_addr, foreign_addr })
}

fn nonempty_at(p: &Json, key: &str) -> (r: Option<String>)
    ensures
        r.deep_view() == nonempty(p@.str_at(key@)),
{
    match p.string_at(key) {
        Some(s) => if s.as_str().is_empty() {
            None
        } else {
            Some(s)
        },
        None => None,
    }
}

fn min_ts(a: Timestamp, b: Timestamp) -> (r: Timestamp)
    ensures
        r == earlier(a, b),
{
    if a.mono_ns <= b.mono_ns {
        a
    } else {
        b
    }
}

fn max_ts(a: Timestamp, b: Timestamp) -> (r: Timestamp)
    ensures
        r == later(a, b),
{
    if a.mono_ns >= b.mono_ns {
        a
    } else {
        b
    }
}

fn node_of_process(ev: &Event, id: ProcessId, death: Option<Timestamp>) -> (r: ProcessNode)
    ensures
        r.deep_view() == process_node(ev.deep_view(), id, death),
{
    ProcessNode {
        id,
        comm: ev.payload.string_at("comm"),
        name: ev.payload.string_at("name"),
        exec_path: ev.payload.string_at("exec_path"),
        ppid: ev.payload.u32_at("ppid"),
        uid: ev.payload.u32_at("uid"),
        birth: ev.timestamp,
        death,
    }
}

fn node_of_socket(ev: &Event, id: SocketId, closed: Option<Timestamp>) -> (r: SocketNode)
    ensures
        r.deep_view() == socket_node(ev.deep_view(), id.deep_view(), closed),
{
    SocketNode {
        id,
        state: ev.payload.string_at("state"),
        process_name: ev.payload.string_at("process_name"),
        pid_at_open: ev.pid,
        opened: ev.timestamp,
        closed,
        rxbytes_last: ev.payload.u64_at("rxbytes"),
        txbytes_last: ev.payload.u64_at("txbytes"),
    }
}

fn find_app(apps: &Vec<AppNode>, id: &str) -> (r: Option<usize>)
    ensures
        match r {
            Some(i) => first_where(apps.deep_view(), is_app(id@)) == Some(i as int) && i
                < apps@.len(),
            None => first_where(apps.deep_view(), is_app(id@)) is None,
        },
{
    let ghost all = apps.deep_view();
    let mut i: usize = 0;
    while i < apps.len()
        invariant
            all == apps.deep_view(),
            i <= apps@.len(),
            first_where(all, is_app(id@)) == first_where_from(all, is_app(id@), i as int),
        decreases apps@.len() - i,
    {
        assert(all[i as int] == apps@[i as int].deep_view());
        if str_eq(apps[i].id.as_str(), id) {
            return Some(i);
        }
        i = i + 1;
    }
    None
}

/// Closes the last interval of an application.
fn close_interval(apps: &mut Vec<AppNode>, id: &str, at: Option<Timestamp>)
    ensures
        final(apps).deep_view() == close_app(old(apps).deep_view(), id@, at),
{
    match find_app(apps, id) {
        Some(i) => {
            let ghost before = apps.deep_view();
            let a: &AppNode = &apps[i];
            let mut intervals = copy_intervals(&a.intervals);
            let n: usize = intervals.len();
            if n > 0 && intervals[n - 1].to.is_none() {
                let from: Timestamp = intervals[n - 1].from;
                intervals[n - 1] = Interval { from, to: at };
            }
            assert(intervals@ =~= close_last(a.intervals@, at));
            let node = AppNode {
                id: a.id.clone(),
                name: copy_opt(&a.name),
                exec_path: copy_opt(&a.exec_path),
                intervals,
            };
            let ghost nv = node.deep_view();
            apps[i] = node;
            assert(apps.deep_view() =~= before.update(i as int, nv));
        },
        None => {},
    }
}

/// Gives an application an open interval.
fn open_interval(apps: &mut Vec<AppNode>, id: &str, from: Timestamp)
    ensures
        final(apps).deep_view() == open_app(old(apps).deep_view(), id@, from),
{
    match find_app(apps, id) {
        Some(i) => {
            let ghost before = apps.deep_view();
            let a: &AppNode = &apps[i];
            let mut intervals = copy_intervals(&a.intervals);
            intervals.push(Interval { from, to: None });
            let node = AppNode {
                id: a.id.clone(),
                name: copy_opt(&a.name),
                exec_path: copy_opt(&a.exec_path),
                intervals,
            };
            let ghost nv = node.deep_view();
            apps[i] = node;
            assert(apps.deep_view() =~= before.update(i as int, nv));
        },
        None => {},
    }
}

/// Adds an application, or fills in what is missing of it.
fn remember_app(
    apps: &mut Vec<AppNode>,
    id: &str,
    name: Option<String>,
    exec_path: Option<String>,
)
    ensures
        final(apps).deep_view() == know_app(
            old(apps).deep_view(),
            id@,
            name.deep_view(),
            exec_path.deep_view(),
        ),
{
    match find_app(apps, id) {
        Some(i) => {
            let ghost before = apps.deep_view();
            let a: &AppNode = &apps[i];
            let node = AppNode {
                id: a.id.clone(),
                name: if a.name.is_none() {
                    name
                } else {
                    copy_opt(&a.name)
                },
                exec_path: if a.exec_path.is_none() {
                    exec_path
                } else {
                    copy_opt(&a.exec_path)
                },
                intervals: copy_intervals(&a.intervals),
            };
            let ghost nv = node.deep_view();
            apps[i] = node;
            assert(apps.deep_view() =~= before.update(i as int, nv));
        },
        None => {
            let node = AppNode { id: id.to_owned(), name, exec_path, intervals: Vec::new() };
            assert(node.deep_view().intervals =~= Seq::<Interval>::empty());
            push_item(apps, node);
        },
    }
}

impl GraphBuilder {
    /// A builder that has seen nothing.
    pub fn new() -> (r: Self)
        ensures
            r@ == (BuilderView {
                processes: Seq::empty(),
                apps: Seq::empty(),
                sockets: Seq::empty(),
                files: Seq::empty(),
                current_frontmost: None,
                last_ts: None,
            }),
    {
        let r = GraphBuilder {
            processes: Vec::new(),
            apps: Vec::new(),
            sockets: Vec::new(),
            files: Vec::new(),
            current_frontmost: None,
            last_ts: None,
        };
        assert(r@ =~= (BuilderView {
            processes: Seq::empty(),
            apps: Seq::empty(),
            sockets: Seq::empty(),
            files: Seq::empty(),
            current_frontmost: None,
            last_ts: None,
        }));
        r
    }

    /// Feeds one event.
    pub fn on_event(&mut self, ev: &Event)
        ensures
            final(self)@ == old(self)@.after(ev.deep_view()),
    {
        self.last_ts = Some(ev.timestamp);
        match ev.kind {
            EventKind::ProcessBirth => self.on_process_birth(ev),
            EventKind::ProcessDeath => self.on_process_death(ev),
            EventKind::AppFocus => self.on_app_focus(ev),
            EventKind::ConnectionOpened => self.on_connection_opened(ev),
            EventKind::ConnectionClosed => self.on_connection_closed(ev),
            EventKind::FileChanged => self.on_file_changed(ev),
            EventKind::ConnectionCompleted | EventKind::DnsQuery => {},
        }
    }

    /// Feeds one observation. It only moves the time on, so that open
    /// intervals close when the input ends.
    pub fn on_observation(&mut self, obs: &Observation)
        ensures
            final(self)@ == (BuilderView {
                last_ts: Some(obs.deep_view().timestamp),
                ..old(self)@
            }),
    {
        self.last_ts = Some(obs.timestamp);
    }

    fn find_process(&self, id: ProcessId) -> (r: Option<usize>)
        ensures
            match r {
                Some(i) => first_where(self@.processes, is_process(id)) == Some(i as int) && i
                    < self@.processes.len(),
                None => first_where(self@.processes, is_process(id)) is None,
            },
    {
        let ghost all = self.processes.deep_view();
        let mut i: usize = 0;
        while i < self.processes.len()
            invariant
                all == self.processes.deep_view(),
                i <= self.processes@.len(),
                first_where(all, is_process(id)) == first_where_from(all, is_process(id), i as int),
            decreases self.processes@.len() - i,
        {
            assert(all[i as int] == self.processes@[i as int].deep_view());
            if self.processes[i].id == id {
                return Some(i);
            }
            i = i + 1;
        }
        None
    }

    fn find_socket(&self, id: &SocketId) -> (r: Option<usize>)
        ensures
            match r {
                Some(i) => first_where(self@.sockets, is_socket(id.deep_view())) == Some(i as int)
                    && i < self@.sockets.len(),
                None => first_where(self@.sockets, is_socket(id.deep_view())) is None,
            },
    {
        let ghost all = self.sockets.deep_view();
        let ghost p = is_socket(id.deep_view());
        let mut i: usize = 0;
        while i < self.sockets.len()
            invariant
                all == self.sockets.deep_view(),
                p == is_socket(id.deep_view()),
                i <= self.sockets@.len(),
                first_where(all, p) == first_where_from(all, p, i as int),
            decreases self.sockets@.len() - i,
        {
            assert(all[i as int] == self.sockets@[i as int].deep_view());
            if same_socket(&self.sockets[i].id, id) {
                return Some(i);
            }
            i = i + 1;
        }
        None
    }

    fn find_file(&self, path: &str) -> (r: Option<usize>)
        ensures
            match r {
                Some(i) => first_where(self@.files, is_file(path@)) == Some(i as int) && i
                    < self@.files.len(),
                None => first_where(self@.files, is_file(path@)) is None,
            },
    {
        let ghost all = self.files.deep_view();
        let mut i: usize = 0;
        while i < self.files.len()
            invariant
                all == self.files.deep_view(),
                i <= self.files@.len(),
                first_where(all, is_file(path@)) == first_where_from(all, is_file(path@), i as int),
            decreases self.files@.len() - i,
        {
            assert(all[i as int] == self.files@[i as int].deep_view());
            if str_eq(self.files[i].path.as_str(), path) {
                return Some(i);
            }
            i = i + 1;
        }
        None
    }

    fn on_process_birth(&mut self, ev: &Event)
        ensures
            final(self)@ == old(self)@.after_birth(ev.deep_view()),
    {
        let id: ProcessId = match process_id_from_event(ev) {
            Some(id) => id,
            None => return,
        };
        let node = node_of_process(ev, id, None);
        let ghost nv = node.deep_view();
        let ghost before = self.processes.deep_view();
        match self.find_process(id) {
            Some(i) => {
                self.processes[i] = node;
                assert(self.processes.deep_view() =~= before.update(i as int, nv));
            },
            None => {
                push_item(&mut self.processes, node);
            },
        }
    }

    fn on_process_death(&mut self, ev: &Event)
        ensures
            final(self)@ == old(self)@.after_death(ev.deep_view()),
    {
        let id: ProcessId = match process_id_from_event(ev) {
            Some(id) => id,
            None => return,
        };
        let ghost before = self.processes.deep_view();
        match self.find_process(id) {
            Some(i) => {
                let mut node = self.processes[i].clone();
                node.death = Some(ev.timestamp);
                let ghost nv = node.deep_view();
                self.processes[i] = node;
                assert(self.processes.deep_view() =~= before.update(i as int, nv));
            },
            None => {
                push_item(&mut self.processes, node_of_process(ev, id, Some(ev.timestamp)));
            },
        }
    }

    fn on_app_focus(&mut self, ev: &Event)
        ensures
            final(self)@ == old(self)@.after_focus(ev.deep_view()),
    {
        let id: String = match nonempty_at(&ev.payload, "to_bundle_id") {
            Some(s) => s,
            None => match nonempty_at(&ev.payload, "to_exec_path") {
                Some(s) => s,
                None => return,
            },
        };
        let name: Option<String> = ev.payload.string_at("to_name");
        let exec_path: Option<String> = ev.payload.string_at("to_exec_path");
        let front: Option<(String, Timestamp)> = self.current_frontmost.take();
        match front {
            Some((prev, from)) => {
                close_interval(&mut self.apps, prev.as_str(), Some(ev.timestamp));
                if str_eq(prev.as_str(), id.as_str()) {
                    open_interval(&mut self.apps, prev.as_str(), from);
                    self.current_frontmost = Some((id, from));
                    return;
                }
            },
            None => {},
        }
        remember_app(&mut self.apps, id.as_str(), name, exec_path);
        open_interval(&mut self.apps, id.as_str(), ev.timestamp);
        self.current_frontmost = Some((id, ev.timestamp));
    }

    fn on_connection_opened(&mut self, ev: &Event)
        ensures
            final(self)@ == old(self)@.after_opened(ev.deep_view()),
    {
        let id: SocketId = match socket_id_from_event(ev) {
            Some(id) => id,
            None => return,
        };
        let at: Option<usize> = self.find_socket(&id);
        let node = node_of_socket(ev, id, None);
        let ghost nv = node.deep_view();
        let ghost before = self.sockets.deep_view();
        match at {
            Some(i) => {
                self.sockets[i] = node;
                assert(self.sockets.deep_view() =~= before.update(i as int, nv));
            },
            None => {
                push_item(&mut self.sockets, node);
            },
        }
    }

    fn on_connection_closed(&mut self, ev: &Event)
        ensures
            final(self)@ == old(self)@.after_closed(ev.deep_view()),
    {
        let id: SocketId = match socket_id_from_event(ev) {
            Some(id) => id,
            None => return,
        };
        let ghost before = self.sockets.deep_view();
        match self.find_socket(&id) {
            Some(i) => {
                let mut node = self.sockets[i].clone();
                node.closed = Some(ev.timestamp);
                match ev.payload.u64_at("rxbytes") {
                    Some(rx) => {
                        node.rxbytes_last = Some(rx);
                    },
                    None => {},
                }
                match ev.payload.u64_at("txbytes") {
                    Some(tx) => {
                        node.txbytes_last = Some(tx);
                    },
                    None => {},
                }
                let ghost nv = node.deep_view();
                self.sockets[i] = node;
                assert(self.sockets.deep_view() =~= before.update(i as int, nv));
            },
            None => {
                push_item(&mut self.sockets, node_of_socket(ev, id, Some(ev.timestamp)));
            },
        }
    }

    fn on_file_changed(&mut self, ev: &Event)
        ensures
            final(self)@ == old(self)@.after_change(ev.deep_view()),
    {
        let path: String = match ev.payload.string_at("path") {
            Some(s) => s,
            None => return,
        };
        let flags: Vec<String> = read_texts(&ev.payload, "flags");
        let count: u64 = match ev.payload.u64_at("count") {
            Some(n) => n,
            None => 0,
        };
        let ghost before = self.files.deep_view();
        match self.find_file(path.as_str()) {
            Some(i) => {
                let mut node = self.files[i].clone();
                node.last_seen = ev.timestamp;
                node.touch_count = node.touch_count.wrapping_add(count);
                add_texts(&mut node.flags, &flags);
                let ghost nv = node.deep_view();
                self.files[i] = node;
                assert(self.files.deep_view() =~= before.update(i as int, nv));
            },
            None => {
                let mut all: Vec<String> = Vec::new();
                assert(all.deep_view() =~= Seq::<Seq<char>>::empty());
                add_texts(&mut all, &flags);
                push_item(
                    &mut self.files,
                    FileNode {
                        path,
                        flags: all,
                        first_seen: ev.timestamp,
                        last_seen: ev.timestamp,
                        touch_count: count,
                    },
                );
            },
        }
    }

    /// Builds the graph. The interval of the application in front is closed
    /// when the last event or observation came.
    pub fn build(self) -> (r: Graph)
        ensures
            r.deep_view() == self@.graph(),
    {
        self.snapshot()
    }

    /// The graph as it would be built now; the builder goes on.
    pub fn snapshot(&self) -> (r: Graph)
        ensures
            r.deep_view() == self@.graph(),
    {
        let processes = copy_all(&self.processes);
        let mut apps = copy_all(&self.apps);
        match &self.current_frontmost {
            Some((id, _)) => {
                close_interval(&mut apps, id.as_str(), self.last_ts);
            },
            None => {},
        }
        let sockets = copy_all(&self.sockets);
        let files = copy_all(&self.files);
        let mut edges: Vec<Edge> = Vec::new();
        assert(edges.deep_view() =~= Seq::<EdgeView>::empty());
        add_parent_edges(&processes, &mut edges);
        add_focus_edges(&apps, &processes, &mut edges);
        add_opener_edges(&sockets, &processes, &mut edges);
        let r = Graph { processes, apps, sockets, files, domains: Vec::new(), edges };
        assert(r.deep_view() =~= self@.graph());
        r
    }
}

impl Default for GraphBuilder {
    fn default() -> (r: Self)
        ensures
            r@ == (BuilderView {
                processes: Seq::empty(),
                apps: Seq::empty(),
                sockets: Seq::empty(),
                files: Seq::empty(),
                current_frontmost: None,
                last_ts: None,
            }),
    {
        GraphBuilder::new()
    }
}

/// The position of the last process that has an id.
fn find_last_with_pid(ps: &Vec<ProcessNode>, pid: u32) -> (r: Option<usize>)
    ensures
        match r {
            Some(i) => i < ps@.len() && last_with_pid(ps.deep_view(), pid) == Some(
                ps@[i as int].deep_view(),
            ),
            None => last_with_pid(ps.deep_view(), pid) is None,
        },
{
    let ghost all = ps.deep_view();
    let mut i: usize = ps.len();
    proof {
        take_all(all);
    }
    while i > 0
        invariant
            all == ps.deep_view(),
            i <= ps@.len(),
            last_with_pid(all, pid) == last_with_pid(all.take(i as int), pid),
        decreases i,
    {
        assert(all.take(i as int).drop_last() =~= all.take(i - 1));
        assert(all.take(i as int).last() == ps@[i - 1].deep_view());
        if ps[i - 1].id.pid == pid {
            return Some(i - 1);
        }
        i = i - 1;
    }
    None
}

fn add_parent_edges(ps: &Vec<ProcessNode>, edges: &mut Vec<Edge>)
    ensures
        final(edges).deep_view() == old(edges).deep_view() + ps.deep_view().filter_map(
            parent_edge(ps.deep_view()),
        ),
{
    let ghost all = ps.deep_view();
    let ghost f = parent_edge(all);
    let ghost start = edges.deep_view();
    let mut i: usize = 0;
    proof {
        filter_map_start(all, f);
        assert(start + Seq::<EdgeView>::empty() =~= start);
    }
    while i < ps.len()
        invariant
            all == ps.deep_view(),
            f == parent_edge(all),
            i <= ps@.len(),
            edges.deep_view() == start + all.take(i as int).filter_map(f),
        decreases ps@.len() - i,
    {
        proof {
            filter_map_step(all, f, i as int);
        }
        let ghost sofar = all.take(i as int).filter_map(f);
        let child: &ProcessNode = &ps[i];
        assert(all[i as int] == child.deep_view());
        match child.ppid {
            Some(ppid) => match find_last_with_pid(ps, ppid) {
                Some(k) => {
                    if ps[k].id != child.id {
                        let e = Edge::ParentOf { parent: ps[k].id, child: child.id };
                        let ghost ev = e.deep_view();
                        push_item(edges, e);
                        assert((start + sofar).push(ev) =~= start + sofar.push(ev));
                    }
                },
                None => {},
            },
            None => {},
        }
        i = i + 1;
    }
    proof {
        take_all(all);
    }
}

fn add_interval_edges(app: &String, interval: Interval, ps: &Vec<ProcessNode>, edges: &mut Vec<Edge>)
    ensures
        final(edges).deep_view() == old(edges).deep_view() + ps.deep_view().filter_map(
            overlap_edge(app@, interval),
        ),
{
    let ghost all = ps.deep_view();
    let ghost f = overlap_edge(app@, interval);
    let ghost start = edges.deep_view();
    let mut i: usize = 0;
    proof {
        filter_map_start(all, f);
        assert(start + Seq::<EdgeView>::empty() =~= start);
    }
    let interval_to: Timestamp = match interval.to {
        Some(t) => t,
        None => Timestamp { mono_ns: u64::MAX, wall_anchor_ns: 0 },
    };
    while i < ps.len()
        invariant
            all == ps.deep_view(),
            f == overlap_edge(app@, interval),
            interval_to == or_end(interval.to),
            i <= ps@.len(),
            edges.deep_view() == start + all.take(i as int).filter_map(f),
        decreases ps@.len() - i,
    {
        proof {
            filter_map_step(all, f, i as int);
        }
        let ghost sofar = all.take(i as int).filter_map(f);
        let p: &ProcessNode = &ps[i];
        assert(all[i as int] == p.deep_view());
        let proc_to: Timestamp = match p.death {
            Some(t) => t,
            None => Timestamp { mono_ns: u64::MAX, wall_anchor_ns: 0 },
        };
        let from: Timestamp = max_ts(interval.from, p.birth);
        let to: Timestamp = min_ts(interval_to, proc_to);
        if from.mono_ns < to.mono_ns {
            let e = Edge::FrontmostDuring {
                app: app.clone(),
                process: p.id,
                overlap: Interval {
                    from,
                    to: if to.mono_ns == u64::MAX {
                        None
                    } else {
                        Some(to)
                    },
                },
            };
            let ghost ev = e.deep_view();
            push_item(edges, e);
            assert((start + sofar).push(ev) =~= start + sofar.push(ev));
        }
        i = i + 1;
    }
    proof {
        take_all(all);
    }
}

fn add_focus_edges(apps: &Vec<AppNode>, ps: &Vec<ProcessNode>, edges: &mut Vec<Edge>)
    ensures
        final(edges).deep_view() == old(edges).deep_view() + focus_edges(
            apps.deep_view(),
            ps.deep_view(),
        ),
{
    let ghost av = apps.deep_view();
    let ghost pv = ps.deep_view();
    let ghost start = edges.deep_view();
    let mut i: usize = 0;
    assert(start + focus_edges(av.take(0), pv) =~= start);
    while i < apps.len()
        invariant
            av == apps.deep_view(),
            pv == ps.deep_view(),
            i <= apps@.len(),
            edges.deep_view() == start + focus_edges(av.take(i as int), pv),
        decreases apps@.len() - i,
    {
        assert(av.take(i + 1).drop_last() =~= av.take(i as int));
        let a: &AppNode = &apps[i];
        assert(av[i as int] == a.deep_view());
        let ghost base = edges.deep_view();
        let ghost iv = a.intervals@;
        let mut k: usize = 0;
        assert(base + app_edges(a.id@, iv.take(0), pv) =~= base);
        while k < a.intervals.len()
            invariant
                pv == ps.deep_view(),
                iv == a.intervals@,
                k <= a.intervals@.len(),
                edges.deep_view() == base + app_edges(a.id@, iv.take(k as int), pv),
            decreases a.intervals@.len() - k,
        {
            assert(iv.take(k + 1).drop_last() =~= iv.take(k as int));
            let ghost sofar = app_edges(a.id@, iv.take(k as int), pv);
            add_interval_edges(&a.id, a.intervals[k], ps, edges);
            assert((base + sofar) + pv.filter_map(overlap_edge(a.id@, iv[k as int])) =~= base + (
            sofar + pv.filter_map(overlap_edge(a.id@, iv[k as int]))));
            k = k + 1;
        }
        proof {
            take_all(iv);
        }
        let ghost sofar = focus_edges(av.take(i as int), pv);
        assert((start + sofar) + app_edges(a.id@, iv, pv) =~= start + (sofar + app_edges(
            a.id@,
            iv,
            pv,
        )));
        i = i + 1;
    }
    proof {
        take_all(av);
    }
}

/// The position of the process that opened a connection.
fn find_opener(ps: &Vec<ProcessNode>, pid: u32, opened: Timestamp) -> (r: Option<usize>)
    ensures
        match r {
            Some(i) => i < ps@.len() && opener(ps.deep_view(), pid, opened) == Some(
                ps@[i as int].deep_view(),
            ),
            None => opener(ps.deep_view(), pid, opened) is None,
        },
{
    let ghost all = ps.deep_view();
    let mut best: Option<usize> = None;
    let mut i: usize = 0;
    while i < ps.len()
        invariant
            all == ps.deep_view(),
            i <= ps@.len(),
            match best {
                Some(b) => b < i && opener(all.take(i as int), pid, opened) == Some(
                    ps@[b as int].deep_view(),
                ),
                None => opener(all.take(i as int), pid, opened) is None,
            },
        decreases ps@.len() - i,
    {
        assert(all.take(i + 1).drop_last() =~= all.take(i as int));
        let p: &ProcessNode = &ps[i];
        assert(all[i as int] == p.deep_view());
        let alive: bool = match p.death {
            Some(d) => d.mono_ns >= opened.mono_ns,
            None => true,
        };
        if p.id.pid == pid && p.birth.mono_ns <= opened.mono_ns && alive {
            let better: bool = match best {
                Some(b) => ps[b].birth.mono_ns <= p.birth.mono_ns,
                None => true,
            };
            if better {
                best = Some(i);
            }
        }
        i = i + 1;
    }
    proof {
        take_all(all);
    }
    best
}

fn add_opener_edges(sockets: &Vec<SocketNode>, ps: &Vec<ProcessNode>, edges: &mut Vec<Edge>)
    ensures
        final(edges).deep_view() == old(edges).deep_view() + sockets.deep_view().filter_map(
            opener_edge(ps.deep_view()),
        ),
{
    let ghost all = sockets.deep_view();
    let ghost f = opener_edge(ps.deep_view());
    let ghost start = edges.deep_view();
    let mut i: usize = 0;
    proof {
        filter_map_start(all, f);
        assert(start + Seq::<EdgeView>::empty() =~= start);
    }
    while i < sockets.len()
        invariant
            all == sockets.deep_view(),
            f == opener_edge(ps.deep_view()),
            i <= sockets@.len(),
            edges.deep_view() == start + all.take(i as int).filter_map(f),
        decreases sockets@.len() - i,
    {
        proof {
            filter_map_step(all, f, i as int);
        }
        let ghost sofar = all.take(i as int).filter_map(f);
        let s: &SocketNode = &sockets[i];
        assert(all[i as int] == s.deep_view());
        match s.pid_at_open {
            Some(pid) => match find_opener(ps, pid, s.opened) {
                Some(k) => {
                    let e = Edge::OpenedSocket { process: ps[k].id, socket: s.id.clone() };
                    let ghost ev = e.deep_view();
                    push_item(edges, e);
                    assert((start + sofar).push(ev) =~= start + sofar.push(ev));
                },
                None => {},
            },
            None => {},
        }
        i = i + 1;
    }
    proof {
        take_all(all);
    }
}

// ---------- laws -------------------------------------------------------------------

/// Whether a process is among the nodes.
pub open spec fn has_process(ps: Seq<ProcessNodeView>, id: ProcessId) -> bool {
    exists|i: int| 0 <= i < ps.len() && (#[trigger] ps[i]).id == id
}

/// Whether both ends of an edge are among the nodes of a graph.
pub open spec fn has_ends(g: GraphView, e: EdgeView) -> bool {
    match e {
        EdgeView::ParentOf { parent, child } => has_process(g.processes, parent) && has_process(
            g.processes,
            child,
        ),
        EdgeView::FrontmostDuring { app, process, overlap } => has_process(g.processes, process)
            && exists|i: int| 0 <= i < g.apps.len() && (#[trigger] g.apps[i]).id == app,
        EdgeView::OpenedSocket { process, socket } => has_process(g.processes, process) && exists|
            i: int,
        |
            0 <= i < g.sockets.len() && (#[trigger] g.sockets[i]).id == socket,
        EdgeView::QueriedDomain { process, domain, count } => has_process(g.processes, process)
            && exists|i: int| 0 <= i < g.domains.len() && (#[trigger] g.domains[i]).name == domain,
    }
}

pub(crate) proof fn last_with_pid_is_there(ps: Seq<ProcessNodeView>, pid: u32)
    ensures
        last_with_pid(ps, pid) matches Some(p) ==> has_process(ps, p.id) && p.id.pid == pid,
    decreases ps.len(),
{
    if ps.len() > 0 {
        let t = ps.drop_last();
        last_with_pid_is_there(t, pid);
        if ps.last().id.pid == pid {
            assert(ps[ps.len() - 1].id == ps.last().id);
        } else {
            match last_with_pid(t, pid) {
                Some(p) => {
                    let i = choose|i: int| 0 <= i < t.len() && (#[trigger] t[i]).id == p.id;
                    assert(ps[i].id == p.id);
                },
                None => {},
            }
        }
    }
}

/// The opener of a connection had the id when it was opened, and of those that
/// did, none was born later.
pub proof fn opener_lived_then(ps: Seq<ProcessNodeView>, pid: u32, opened: Timestamp)
    ensures
        match opener(ps, pid, opened) {
            Some(p) => {
                &&& has_process(ps, p.id)
                &&& lived_at(p, pid, opened)
                &&& forall|i: int|
                    0 <= i < ps.len() && lived_at(#[trigger] ps[i], pid, opened)
                        ==> ps[i].birth.mono_ns <= p.birth.mono_ns
            },
            None => forall|i: int|
                0 <= i < ps.len() ==> !lived_at(#[trigger] ps[i], pid, opened),
        },
    decreases ps.len(),
{
    if ps.len() > 0 {
        let t = ps.drop_last();
        let n = ps.len() - 1;
        opener_lived_then(t, pid, opened);
        assert forall|i: int| 0 <= i < n implies ps[i] == t[i] by {}
        match opener(ps, pid, opened) {
            Some(p) => {
                if p == ps[n] && lived_at(ps[n], pid, opened) {
                    assert(ps[n].id == p.id);
                }
                match opener(t, pid, opened) {
                    Some(b) => {
                        let k = choose|k: int| 0 <= k < t.len() && (#[trigger] t[k]).id == b.id;
                        assert(ps[k].id == b.id);
                        assert forall|i: int|
                            0 <= i < ps.len() && lived_at(
                                #[trigger] ps[i],
                                pid,
                                opened,
                            ) implies ps[i].birth.mono_ns <= p.birth.mono_ns by {
                            if i < n {
                                assert(t[i] == ps[i]);
                            }
                        }
                    },
                    None => {
                        assert(p == ps[n]);
                        assert forall|i: int|
                            0 <= i < ps.len() && lived_at(
                                #[trigger] ps[i],
                                pid,
                                opened,
                            ) implies ps[i].birth.mono_ns <= p.birth.mono_ns by {
                            if i < n {
                                assert(t[i] == ps[i]);
                            }
                        }
                    },
                }
            },
            None => {
                assert forall|i: int| 0 <= i < ps.len() implies !lived_at(
                    #[trigger] ps[i],
                    pid,
                    opened,
                ) by {
                    if i < n {
                        assert(t[i] == ps[i]);
                    }
                }
            },
        }
    }
}

proof fn app_edge_ends(app: Seq<char>, intervals: Seq<Interval>, ps: Seq<ProcessNodeView>, i: int)
    requires
        0 <= i < app_edges(app, intervals, ps).len(),
    ensures
        app_edges(app, intervals, ps)[i] matches EdgeView::FrontmostDuring { app: a, process, overlap }
            && a == app && has_process(ps, process),
    decreases intervals.len(),
{
    let t = intervals.drop_last();
    let rest = app_edges(app, t, ps);
    let f = overlap_edge(app, intervals.last());
    if i < rest.len() {
        app_edge_ends(app, t, ps, i);
    } else {
        let e = ps.filter_map(f)[i - rest.len()];
        assert(ps.filter_map(f).contains(e));
        ps.lemma_filter_map_contains(f, e);
        let p = choose|p: ProcessNodeView| #[trigger] ps.contains(p) && f(p) == Some(e);
        let k = choose|k: int| 0 <= k < ps.len() && ps[k] == p;
        assert(ps[k].id == p.id);
    }
}

proof fn focus_edge_ends(apps: Seq<AppNodeView>, ps: Seq<ProcessNodeView>, i: int)
    requires
        0 <= i < focus_edges(apps, ps).len(),
    ensures
        focus_edges(apps, ps)[i] matches EdgeView::FrontmostDuring { app, process, overlap }
            && has_process(ps, process) && exists|k: int|
            0 <= k < apps.len() && (#[trigger] apps[k]).id == app,
    decreases apps.len(),
{
    let t = apps.drop_last();
    let rest = focus_edges(t, ps);
    let n = apps.len() - 1;
    if i < rest.len() {
        focus_edge_ends(t, ps, i);
        let app = rest[i]->FrontmostDuring_app;
        let k = choose|k: int| 0 <= k < t.len() && (#[trigger] t[k]).id == app;
        assert(apps[k].id == app);
    } else {
        app_edge_ends(apps.last().id, apps.last().intervals, ps, i - rest.len());
        assert(apps[n].id == apps.last().id);
    }
}

/// Every edge of the graph has both of its ends among the nodes.
pub proof fn built_edges_have_both_ends(b: BuilderView, i: int)
    requires
        0 <= i < b.graph().edges.len(),
    ensures
        has_ends(b.graph(), b.graph().edges[i]),
{
    let g = b.graph();
    let ps = b.processes;
    let parents = ps.filter_map(parent_edge(ps));
    let focus = focus_edges(b.final_apps(), ps);
    let opens = b.sockets.filter_map(opener_edge(ps));
    if i < parents.len() {
        let e = parents[i];
        assert(g.edges[i] == e);
        assert(parents.contains(e));
        ps.lemma_filter_map_contains(parent_edge(ps), e);
        let c = choose|c: ProcessNodeView|
            #[trigger] ps.contains(c) && parent_edge(ps)(c) == Some(e);
        let k = choose|k: int| 0 <= k < ps.len() && ps[k] == c;
        assert(ps[k].id == c.id);
        last_with_pid_is_there(ps, c.ppid->0);
    } else if i < parents.len() + focus.len() {
        assert(g.edges[i] == focus[i - parents.len()]);
        focus_edge_ends(b.final_apps(), ps, i - parents.len());
    } else {
        let j = i - parents.len() - focus.len();
        let e = opens[j];
        assert(g.edges[i] == e);
        assert(opens.contains(e));
        b.sockets.lemma_filter_map_contains(opener_edge(ps), e);
        let s = choose|s: SocketNodeView|
            #[trigger] b.sockets.contains(s) && opener_edge(ps)(s) == Some(e);
        let k = choose|k: int| 0 <= k < b.sockets.len() && b.sockets[k] == s;
        assert(b.sockets[k].id == s.id);
        opener_lived_then(ps, s.pid_at_open->0, s.opened);
    }
}

// ---------- letting go -------------------------------------------------------------

/// Whether something ended before a time.
pub open spec fn ended_before(end: Option<Timestamp>, cutoff: Timestamp) -> bool {
    match end {
        Some(t) => t.mono_ns < cutoff.mono_ns,
        None => false,
    }
}

/// A process that has not ended before a time.
pub open spec fn keep_process(cutoff: Timestamp) -> spec_fn(ProcessNodeView) -> Option<
    ProcessNodeView,
> {
    |p: ProcessNodeView|
        if ended_before(p.death, cutoff) {
            None
        } else {
            Some(p)
        }
}

/// An application that was in front at or after a time.
pub open spec fn keep_app(cutoff: Timestamp) -> spec_fn(AppNodeView) -> Option<AppNodeView> {
    |a: AppNodeView|
        if a.intervals.len() == 0 || ended_before(a.intervals.last().to, cutoff) {
            None
        } else {
            Some(a)
        }
}

/// A connection that has not closed before a time.
pub open spec fn keep_socket(cutoff: Timestamp) -> spec_fn(SocketNodeView) -> Option<
    SocketNodeView,
> {
    |s: SocketNodeView|
        if ended_before(s.closed, cutoff) {
            None
        } else {
            Some(s)
        }
}

/// A file that was touched at or after a time.
pub open spec fn keep_file(cutoff: Timestamp) -> spec_fn(FileNodeView) -> Option<FileNodeView> {
    |f: FileNodeView|
        if ended_before(Some(f.last_seen), cutoff) {
            None
        } else {
            Some(f)
        }
}

impl BuilderView {
    /// A builder without what was quiet since before a time.
    pub open spec fn trimmed(self, cutoff: Timestamp) -> BuilderView {
        BuilderView {
            processes: self.processes.filter_map(keep_process(cutoff)),
            apps: self.apps.filter_map(keep_app(cutoff)),
            sockets: self.sockets.filter_map(keep_socket(cutoff)),
            files: self.files.filter_map(keep_file(cutoff)),
            ..self
        }
    }

    /// How many nodes a builder holds.
    pub open spec fn size(self) -> nat {
        self.processes.len() + self.apps.len() + self.sockets.len() + self.files.len()
    }
}

fn is_before(end: Option<Timestamp>, cutoff: Timestamp) -> (r: bool)
    ensures
        r == ended_before(end, cutoff),
{
    match end {
        Some(t) => t.mono_ns < cutoff.mono_ns,
        None => false,
    }
}

impl GraphBuilder {
    /// Lets go of what was quiet since before a time: processes that ended,
    /// connections that closed, applications that were last in front and files
    /// that were last touched before it. Returns how many nodes went. What
    /// still lives stays, however old it is.
    pub fn trim_before(&mut self, cutoff: Timestamp) -> (r: u128)
        ensures
            final(self)@ == old(self)@.trimmed(cutoff),
            r == old(self)@.size() - final(self)@.size(),
    {
        let ghost start = self@;
        let mut gone: u128 = 0;

        let mut rows: Vec<ProcessNode> = Vec::new();
        core::mem::swap(&mut self.processes, &mut rows);
        let n: usize = rows.len();
        let ghost all = rows.deep_view();
        let ghost keep = keep_process(cutoff);
        let mut kept: Vec<ProcessNode> = Vec::new();
        proof {
            filter_map_start(all, keep);
            assert(kept.deep_view() =~= Seq::<ProcessNodeView>::empty());
        }
        for row in it: rows
            invariant
                it.seq() == rows@,
                all == rows.deep_view(),
                all == start.processes,
                n == rows@.len(),
                keep == keep_process(cutoff),
                kept.deep_view() == all.take(it.index() as int).filter_map(keep),
                gone + kept@.len() == it.index(),
        {
            proof {
                filter_map_step(all, keep, it.index() as int);
                assert(all[it.index() as int] == row.deep_view());
            }
            if is_before(row.death, cutoff) {
                gone = gone + 1;
            } else {
                push_item(&mut kept, row);
            }
        }
        proof {
            take_all(all);
        }
        let ghost a = gone;
        self.processes = kept;

        let mut rows: Vec<AppNode> = Vec::new();
        core::mem::swap(&mut self.apps, &mut rows);
        let n: usize = rows.len();
        let ghost all = rows.deep_view();
        let ghost keep = keep_app(cutoff);
        let mut kept: Vec<AppNode> = Vec::new();
        proof {
            filter_map_start(all, keep);
            assert(kept.deep_view() =~= Seq::<AppNodeView>::empty());
        }
        for row in it: rows
            invariant
                it.seq() == rows@,
                all == rows.deep_view(),
                all == start.apps,
                a <= usize::MAX,
                n == rows@.len(),
                keep == keep_app(cutoff),
                kept.deep_view() == all.take(it.index() as int).filter_map(keep),
                gone + kept@.len() == a + it.index(),
        {
            proof {
                filter_map_step(all, keep, it.index() as int);
                assert(all[it.index() as int] == row.deep_view());
            }
            let k: usize = row.intervals.len();
            if k == 0 || is_before(row.intervals[k - 1].to, cutoff) {
                gone = gone + 1;
            } else {
                push_item(&mut kept, row);
            }
        }
        proof {
            take_all(all);
        }
        let ghost b = gone;
        self.apps = kept;

        let mut rows: Vec<SocketNode> = Vec::new();
        core::mem::swap(&mut self.sockets, &mut rows);
        let n: usize = rows.len();
        let ghost all = rows.deep_view();
        let ghost keep = keep_socket(cutoff);
        let mut kept: Vec<SocketNode> = Vec::new();
        proof {
            filter_map_start(all, keep);
            assert(kept.deep_view() =~= Seq::<SocketNodeView>::empty());
        }
        for row in it: rows
            invariant
                it.seq() == rows@,
                all == rows.deep_view(),
                all == start.sockets,
                b <= 2 * usize::MAX,
                n == rows@.len(),
                keep == keep_socket(cutoff),
                kept.deep_view() == all.take(it.index() as int).filter_map(keep),
                gone + kept@.len() == b + it.index(),
        {
            proof {
                filter_map_step(all, keep, it.index() as int);
                assert(all[it.index() as int] == row.deep_view());
            }
            if is_before(row.closed, cutoff) {
                gone = gone + 1;
            } else {
                push_item(&mut kept, row);
            }
        }
        proof {
            take_all(all);
        }
        let ghost c = gone;
        self.sockets = kept;

        let mut rows: Vec<FileNode> = Vec::new();
        core::mem::swap(&mut self.files, &mut rows);
        let n: usize = rows.len();
        let ghost all = rows.deep_view();
        let ghost keep = keep_file(cutoff);
        let mut kept: Vec<FileNode> = Vec::new();
        proof {
            filter_map_start(all, keep);
            assert(kept.deep_view() =~= Seq::<FileNodeView>::empty());
        }
        for row in it: rows
            invariant
                it.seq() == rows@,
                all == rows.deep_view(),
                all == start.files,
                c <= 3 * usize::MAX,
                n == rows@.len(),
                keep == keep_file(cutoff),
                kept.deep_view() == all.take(it.index() as int).filter_map(keep),
                gone + kept@.len() == c + it.index(),
        {
            proof {
                filter_map_step(all, keep, it.index() as int);
                assert(all[it.index() as int] == row.deep_view());
            }
            if is_before(Some(row.last_seen), cutoff) {
                gone = gone + 1;
            } else {
                push_item(&mut kept, row);
            }
        }
        proof {
            take_all(all);
        }
        self.files = kept;
        assert(self@ =~= start.trimmed(cutoff));
        gone
    }
}

/// What still lives is never let go.
pub proof fn trimming_keeps_the_living(b: BuilderView, cutoff: Timestamp, i: int)
    requires
        0 <= i < b.processes.len(),
        b.processes[i].death is None,
    ensures
        b.trimmed(cutoff).processes.contains(b.processes[i]),
{
    filter_map_keeps(b.processes, keep_process(cutoff), i);
}

} // verus!
