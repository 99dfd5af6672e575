//! The world-model graph: processes, applications, connections, files and
//! names, and the relations between them.

use vstd::prelude::*;
use vstd::string::*;

use crate::json::{copy_opt, copy_strings};
use crate::observation::Timestamp;
use crate::seqs::copy_all;
use crate::text::str_eq;

verus! {

/// The identity of a process: process ids are reused, start times tell the
/// runs apart.
#[derive(Debug, Clone, Copy, PartialEq, Eq, Hash, Structural)]
pub struct ProcessId {
    pub pid: u32,
    pub start_unix_secs: u64,
}

impl DeepView for ProcessId {
    type V = ProcessId;

    open spec fn deep_view(&self) -> ProcessId {
        *self
    }
}

/// A closed-open interval of time.
#[derive(Debug, Clone, Copy, PartialEq, Eq, Structural)]
pub struct Interval {
    pub from: Timestamp,
    /// None where it is still open at the end of input.
    pub to: Option<Timestamp>,
}

impl DeepView for Interval {
    type V = Interval;

    open spec fn deep_view(&self) -> Interval {
        *self
    }
}

/// Copies a list of intervals.
pub fn copy_intervals(v: &Vec<Interval>) -> (r: Vec<Interval>)
    ensures
        r@ == v@,
{
    let mut out: Vec<Interval> = Vec::new();
    let mut i: usize = 0;
    while i < v.len()
        invariant
            i <= v@.len(),
            out@ == v@.take(i as int),
        decreases v@.len() - i,
    {
        out.push(v[i]);
        i = i + 1;
        assert(out@ =~= v@.take(i as int));
    }
    assert(out@ =~= v@);
    out
}

/// A process: one run of a program.
#[derive(Debug)]
pub struct ProcessNode {
    pub id: ProcessId,
    pub comm: Option<String>,
    pub name: Option<String>,
    pub exec_path: Option<String>,
    pub ppid: Option<u32>,
    pub uid: Option<u32>,
    pub birth: Timestamp,
    pub death: Option<Timestamp>,
}

/// What a `ProcessNode` holds.
pub struct ProcessNodeView {
    pub id: ProcessId,
    pub comm: Option<Seq<char>>,
    pub name: Option<Seq<char>>,
    pub exec_path: Option<Seq<char>>,
    pub ppid: Option<u32>,
    pub uid: Option<u32>,
    pub birth: Timestamp,
    pub death: Option<Timestamp>,
}

impl DeepView for ProcessNode {
    type V = ProcessNodeView;

    open spec fn deep_view(&self) -> ProcessNodeView {
        ProcessNodeView {
            id: self.id,
            comm: self.comm.deep_view(),
            name: self.name.deep_view(),
            exec_path: self.exec_path.deep_view(),
            ppid: self.ppid,
            uid: self.uid,
            birth: self.birth,
            death: self.death,
        }
    }
}

impl Clone for ProcessNode {
    fn clone(&self) -> (r: Self)
        ensures
            r.deep_view() == self.deep_view(),
            r == *self,
    {
        ProcessNode {
            id: self.id,
            comm: copy_opt(&self.comm),
            name: copy_opt(&self.name),
            exec_path: copy_opt(&self.exec_path),
            ppid: self.ppid,
            uid: self.uid,
            birth: self.birth,
            death: self.death,
        }
    }
}

/// An application: its bundle id or, without one, its executable path, and
/// the intervals in which it was frontmost.
#[derive(Debug)]
pub struct AppNode {
    pub id: String,
    pub name: Option<String>,
    pub exec_path: Option<String>,
    pub intervals: Vec<Interval>,
}

/// What a `AppNode` holds.
pub struct AppNodeView {
    pub id: Seq<char>,
    pub name: Option<Seq<char>>,
    pub exec_path: Option<Seq<char>>,
    pub intervals: Seq<Interval>,
}

impl DeepView for AppNode {
    type V = AppNodeView;

    open spec fn deep_view(&self) -> AppNodeView {
        AppNodeView {
            id: self.id@,
            name: self.name.deep_view(),
            exec_path: self.exec_path.deep_view(),
            intervals: self.intervals@,
        }
    }
}

impl Clone for AppNode {
    fn clone(&self) -> (r: Self)
        ensures
            r.deep_view() == self.deep_view(),
    {
        AppNode {
            id: self.id.clone(),
            name: copy_opt(&self.name),
            exec_path: copy_opt(&self.exec_path),
            intervals: copy_intervals(&self.intervals),
        }
    }
}

/// The identity of a connection.
#[derive(Debug, PartialEq, Eq, Hash)]
pub struct SocketId {
    pub proto: String,
    pub local_addr: String,
    pub foreign_addr: String,
}

/// What a `SocketId` holds.
pub struct SocketIdView {
    pub proto: Seq<char>,
    pub local_addr: Seq<char>,
    pub foreign_addr: Seq<char>,
}

impl DeepView for SocketId {
    type V = SocketIdView;

    open spec fn deep_view(&self) -> SocketIdView {
        SocketIdView {
            proto: self.proto@,
            local_addr: self.local_addr@,
            foreign_addr: self.foreign_addr@,
        }
    }
}

impl Clone for SocketId {
    fn clone(&self) -> (r: Self)
        ensures
            r.deep_view() == self.deep_view(),
            r == *self,
    {
        SocketId {
            proto: self.proto.clone(),
            local_addr: self.local_addr.clone(),
            foreign_addr: self.foreign_addr.clone(),
        }
    }
}

/// A connection.
#[derive(Debug)]
pub struct SocketNode {
    pub id: SocketId,
    pub state: Option<String>,
    pub process_name: Option<String>,
    pub pid_at_open: Option<u32>,
    pub opened: Timestamp,
    pub closed: Option<Timestamp>,
    pub rxbytes_last: Option<u64>,
    pub txbytes_last: Option<u64>,
}

/// What a `SocketNode` holds.
pub struct SocketNodeView {
    pub id: SocketIdView,
    pub state: Option<Seq<char>>,
    pub process_name: Option<Seq<char>>,
    pub pid_at_open: Option<u32>,
    pub opened: Timestamp,
    pub closed: Option<Timestamp>,
    pub rxbytes_last: Option<u64>,
    pub txbytes_last: Option<u64>,
}

impl DeepView for SocketNode {
    type V = SocketNodeView;

    open spec fn deep_view(&self) -> SocketNodeView {
        SocketNodeView {
            id: self.id.deep_view(),
            state: self.state.deep_view(),
            process_name: self.process_name.deep_view(),
            pid_at_open: self.pid_at_open,
            opened: self.opened,
            closed: self.closed,
            rxbytes_last: self.rxbytes_last,
            txbytes_last: self.txbytes_last,
        }
    }
}

impl Clone for SocketNode {
    fn clone(&self) -> (r: Self)
        ensures
            r.deep_view() == self.deep_view(),
    {
        SocketNode {
            id: self.id.clone(),
            state: copy_opt(&self.state),
            process_name: copy_opt(&self.process_name),
            pid_at_open: self.pid_at_open,
            opened: self.opened,
            closed: self.closed,
            rxbytes_last: self.rxbytes_last,
            txbytes_last: self.txbytes_last,
        }
    }
}

/// A file: the union of the flags reported of it and how often it was touched.
#[derive(Debug)]
pub struct FileNode {
    pub path: String,
    pub flags: Vec<String>,
    pub first_seen: Timestamp,
    pub last_seen: Timestamp,
    pub touch_count: u64,
}

/// What a `FileNode` holds.
pub struct FileNodeView {
    pub path: Seq<char>,
    pub flags: Seq<Seq<char>>,
    pub first_seen: Timestamp,
    pub last_seen: Timestamp,
    pub touch_count: u64,
}

impl DeepView for FileNode {
    type V = FileNodeView;

    open spec fn deep_view(&self) -> FileNodeView {
        FileNodeView {
            path: self.path@,
            flags: self.flags.deep_view(),
            first_seen: self.first_seen,
            last_seen: self.last_seen,
            touch_count: self.touch_count,
        }
    }
}

impl Clone for FileNode {
    fn clone(&self) -> (r: Self)
        ensures
            r.deep_view() == self.deep_view(),
    {
        FileNode {
            path: self.path.clone(),
            flags: copy_strings(&self.flags),
            first_seen: self.first_seen,
            last_seen: self.last_seen,
            touch_count: self.touch_count,
        }
    }
}

/// A name that was looked up.
#[derive(Debug)]
pub struct DomainNode {
    pub name: String,
    pub qtypes: Vec<String>,
    pub masked: bool,
    pub first_seen: Timestamp,
    pub last_seen: Timestamp,
    pub query_count: u64,
}

/// What a `DomainNode` holds.
pub struct DomainNodeView {
    pub name: Seq<char>,
    pub qtypes: Seq<Seq<char>>,
    pub masked: bool,
    pub first_seen: Timestamp,
    pub last_seen: Timestamp,
    pub query_count: u64,
}

impl DeepView for DomainNode {
    type V = DomainNodeView;

    open spec fn deep_view(&self) -> DomainNodeView {
        DomainNodeView {
            name: self.name@,
            qtypes: self.qtypes.deep_view(),
            masked: self.masked,
            first_seen: self.first_seen,
            last_seen: self.last_seen,
            query_count: self.query_count,
        }
    }
}

impl Clone for DomainNode {
    fn clone(&self) -> (r: Self)
        ensures
            r.deep_view() == self.deep_view(),
    {
        DomainNode {
            name: self.name.clone(),
            qtypes: copy_strings(&self.qtypes),
            masked: self.masked,
            first_seen: self.first_seen,
            last_seen: self.last_seen,
            query_count: self.query_count,
        }
    }
}

/// A relation between two nodes.
#[derive(Debug)]
pub enum Edge {
    ParentOf { parent: ProcessId, child: ProcessId },
    FrontmostDuring { app: String, process: ProcessId, overlap: Interval },
    OpenedSocket { process: ProcessId, socket: SocketId },
    QueriedDomain { process: ProcessId, domain: String, count: u64 },
}

/// What an `Edge` holds.
pub enum EdgeView {
    ParentOf { parent: ProcessId, child: ProcessId },
    FrontmostDuring { app: Seq<char>, process: ProcessId, overlap: Interval },
    OpenedSocket { process: ProcessId, socket: SocketIdView },
    QueriedDomain { process: ProcessId, domain: Seq<char>, count: u64 },
}

impl DeepView for Edge {
    type V = EdgeView;

    open spec fn deep_view(&self) -> EdgeView {
        match self {
            Edge::ParentOf { parent, child } => EdgeView::ParentOf {
                parent: *parent,
                child: *child,
            },
            Edge::FrontmostDuring { app, process, overlap } => EdgeView::FrontmostDuring {
                app: app@,
                process: *process,
                overlap: *overlap,
            },
            Edge::OpenedSocket { process, socket } => EdgeView::OpenedSocket {
                process: *process,
                socket: socket.deep_view(),
            },
            Edge::QueriedDomain { process, domain, count } => EdgeView::QueriedDomain {
                process: *process,
                domain: domain@,
                count: *count,
            },
        }
    }
}

impl Clone for Edge {
    fn clone(&self) -> (r: Self)
        ensures
            r.deep_view() == self.deep_view(),
    {
        match self {
            Edge::ParentOf { parent, child } => Edge::ParentOf { parent: *parent, child: *child },
            Edge::FrontmostDuring { app, process, overlap } => Edge::FrontmostDuring {
                app: app.clone(),
                process: *process,
                overlap: *overlap,
            },
            Edge::OpenedSocket { process, socket } => Edge::OpenedSocket {
                process: *process,
                socket: socket.clone(),
            },
            Edge::QueriedDomain { process, domain, count } => Edge::QueriedDomain {
                process: *process,
                domain: domain.clone(),
                count: *count,
            },
        }
    }
}

/// The graph: nodes of five kinds and the edges between them.
#[derive(Debug)]
pub struct Graph {
    pub processes: Vec<ProcessNode>,
    pub apps: Vec<AppNode>,
    pub sockets: Vec<SocketNode>,
    pub files: Vec<FileNode>,
    pub domains: Vec<DomainNode>,
    pub edges: Vec<Edge>,
}

/// What a `Graph` holds.
#[verifier::ext_equal]
pub struct GraphView {
    pub processes: Seq<ProcessNodeView>,
    pub apps: Seq<AppNodeView>,
    pub sockets: Seq<SocketNodeView>,
    pub files: Seq<FileNodeView>,
    pub domains: Seq<DomainNodeView>,
    pub edges: Seq<EdgeView>,
}

impl DeepView for Graph {
    type V = GraphView;

    open spec fn deep_view(&self) -> GraphView {
        GraphView {
            processes: self.processes.deep_view(),
            apps: self.apps.deep_view(),
            sockets: self.sockets.deep_view(),
            files: self.files.deep_view(),
            domains: self.domains.deep_view(),
            edges: self.edges.deep_view(),
        }
    }
}

impl GraphView {
    /// The graph with no node and no edge.
    pub open spec fn empty() -> GraphView {
        GraphView {
            processes: Seq::empty(),
            apps: Seq::empty(),
            sockets: Seq::empty(),
            files: Seq::empty(),
            domains: Seq::empty(),
            edges: Seq::empty(),
        }
    }
}

impl Default for Graph {
    fn default() -> (r: Self)
        ensures
            r.deep_view() == GraphView::empty(),
    {
        let r = Graph {
            processes: Vec::new(),
            apps: Vec::new(),
            sockets: Vec::new(),
            files: Vec::new(),
            domains: Vec::new(),
            edges: Vec::new(),
        };
        assert(r.deep_view() =~= GraphView::empty());
        r
    }
}

impl Clone for Graph {
    fn clone(&self) -> (r: Self)
        ensures
            r.deep_view() == self.deep_view(),
    {
        Graph {
            processes: copy_all(&self.processes),
            apps: copy_all(&self.apps),
            sockets: copy_all(&self.sockets),
            files: copy_all(&self.files),
            domains: copy_all(&self.domains),
            edges: copy_all(&self.edges),
        }
    }
}

/// Whether two connection identities are the same.
pub fn same_socket(a: &SocketId, b: &SocketId) -> (r: bool)
    ensures
        r == (a.deep_view() == b.deep_view()),
{
    str_eq(a.proto.as_str(), b.proto.as_str()) && str_eq(
        a.local_addr.as_str(),
        b.local_addr.as_str(),
    ) && str_eq(a.foreign_addr.as_str(), b.foreign_addr.as_str())
}

} // verus!
