//! Events folded into a graph.

use agentworld::events::{Event, EventKind, SCHEMA_VERSION};
use agentworld::graph::Edge;
use agentworld::graph_builder::GraphBuilder;
use agentworld::json::Json;
use agentworld::observation::Timestamp;

fn obj(fields: Vec<(&str, Json)>) -> Json {
    Json::Object(fields.into_iter().map(|(k, v)| (k.to_string(), v)).collect())
}

trait IntoJson {
    fn json(self) -> Json;
}

impl IntoJson for &str {
    fn json(self) -> Json {
        Json::Str(self.to_string())
    }
}

impl IntoJson for String {
    fn json(self) -> Json {
        Json::Str(self)
    }
}

impl IntoJson for u32 {
    fn json(self) -> Json {
        Json::U64(self as u64)
    }
}

impl IntoJson for u64 {
    fn json(self) -> Json {
        Json::U64(self)
    }
}

impl IntoJson for bool {
    fn json(self) -> Json {
        Json::Bool(self)
    }
}

impl IntoJson for Json {
    fn json(self) -> Json {
        self
    }
}

impl<T: IntoJson> IntoJson for Option<T> {
    fn json(self) -> Json {
        match self {
            Some(v) => v.json(),
            None => Json::Null,
        }
    }
}

impl IntoJson for &[&str] {
    fn json(self) -> Json {
        Json::Array(self.iter().map(|s| Json::Str(s.to_string())).collect())
    }
}

fn jv(v: impl IntoJson) -> Json {
    v.json()
}

fn ts(n: u64) -> Timestamp { Timestamp { mono_ns: n, wall_anchor_ns: 0 } }

fn birth(pid: u32, start: u64, comm: &str, ppid: u32, mono: u64) -> Event {
    Event {
        schema_version: SCHEMA_VERSION,
        timestamp: ts(mono),
        kind: EventKind::ProcessBirth,
        pid: Some(pid),
        payload: obj(vec![("comm", jv(comm)), ("name", jv(comm)), ("ppid", jv(ppid)), ("uid", jv(501u64)), ("start_unix_secs", jv(start)), ("exec_path", jv(format!("/bin/{comm}")))]),
    }
}

fn death(pid: u32, start: u64, mono: u64) -> Event {
    Event {
        schema_version: SCHEMA_VERSION,
        timestamp: ts(mono),
        kind: EventKind::ProcessDeath,
        pid: Some(pid),
        payload: obj(vec![("start_unix_secs", jv(start))]),
    }
}

fn conn_open(pid: u32, proto: &str, local: &str, foreign: &str, mono: u64) -> Event {
    Event {
        schema_version: SCHEMA_VERSION,
        timestamp: ts(mono),
        kind: EventKind::ConnectionOpened,
        pid: Some(pid),
        payload: obj(vec![("proto", jv(proto)), ("local_addr", jv(local)), ("foreign_addr", jv(foreign)), ("state", jv("ESTABLISHED")), ("process_name", jv("test")), ("rxbytes", jv(0u64)), ("txbytes", jv(0u64))]),
    }
}

fn conn_close(pid: u32, proto: &str, local: &str, foreign: &str, mono: u64) -> Event {
    Event {
        schema_version: SCHEMA_VERSION,
        timestamp: ts(mono),
        kind: EventKind::ConnectionClosed,
        pid: Some(pid),
        payload: obj(vec![("proto", jv(proto)), ("local_addr", jv(local)), ("foreign_addr", jv(foreign)), ("state", jv("ESTABLISHED")), ("process_name", jv("test")), ("rxbytes", jv(100u64)), ("txbytes", jv(200u64))]),
    }
}

fn file_changed(path: &str, flags: &[&str], count: u64, mono: u64) -> Event {
    Event {
        schema_version: SCHEMA_VERSION,
        timestamp: ts(mono),
        kind: EventKind::FileChanged,
        pid: None,
        payload: obj(vec![("path", jv(path)), ("flags", jv(flags)), ("count", jv(count)), ("event_ids", Json::Array(vec![jv(1u64)]))]),
    }
}

fn focus(bundle: &str, name: &str, mono: u64) -> Event {
    Event {
        schema_version: SCHEMA_VERSION,
        timestamp: ts(mono),
        kind: EventKind::AppFocus,
        pid: Some(999),
        payload: obj(vec![("from_bundle_id", Json::Null), ("from_name", Json::Null), ("to_bundle_id", jv(bundle)), ("to_name", jv(name)), ("to_exec_path", jv(format!("/Applications/{name}.app/Contents/MacOS/{name}")))]),
    }
}

#[test]
fn process_birth_creates_node() {
    let mut b = GraphBuilder::new();
    b.on_event(&birth(100, 1000, "shell", 1, 10));
    let g = b.build();
    assert_eq!(g.processes.len(), 1);
    assert_eq!(g.processes[0].id.pid, 100);
    assert_eq!(g.processes[0].comm.as_deref(), Some("shell"));
    assert!(g.processes[0].death.is_none());
}

#[test]
fn process_death_records_death_time() {
    let mut b = GraphBuilder::new();
    b.on_event(&birth(100, 1000, "shell", 1, 10));
    b.on_event(&death(100, 1000, 20));
    let g = b.build();
    assert_eq!(g.processes[0].death, Some(ts(20)));
}

#[test]
fn parent_of_edge_built_from_ppid() {
    let mut b = GraphBuilder::new();
    b.on_event(&birth(100, 1000, "parent", 1, 10));
    b.on_event(&birth(200, 1001, "child", 100, 11)); // ppid = 100
    let g = b.build();
    let parent_edges: Vec<_> = g.edges.iter().filter(|e| matches!(e, Edge::ParentOf { .. })).collect();
    assert_eq!(parent_edges.len(), 1);
    match parent_edges[0] {
        Edge::ParentOf { parent, child } => {
            assert_eq!(parent.pid, 100);
            assert_eq!(child.pid, 200);
        }
        _ => panic!(),
    }
}

#[test]
fn parent_outside_node_set_drops_edge() {
    let mut b = GraphBuilder::new();
    b.on_event(&birth(200, 1001, "orphan", 999, 11)); // ppid 999 not in graph
    let g = b.build();
    assert!(!g.edges.iter().any(|e| matches!(e, Edge::ParentOf { .. })));
}

#[test]
fn app_focus_creates_app_with_interval() {
    let mut b = GraphBuilder::new();
    b.on_event(&focus("com.app.a", "AppA", 10));
    b.on_event(&focus("com.app.b", "AppB", 20));
    let g = b.build();
    let app_a = g.apps.iter().find(|a| a.id == "com.app.a").unwrap();
    // A's interval should be [10, 20).
    assert_eq!(app_a.intervals.len(), 1);
    assert_eq!(app_a.intervals[0].from, ts(10));
    assert_eq!(app_a.intervals[0].to, Some(ts(20)));
}

#[test]
fn frontmost_during_edge_when_intervals_overlap() {
    let mut b = GraphBuilder::new();
    // App A is frontmost [10, 30); process P alive [15, 25). They overlap.
    b.on_event(&focus("com.app.a", "AppA", 10));
    b.on_event(&birth(100, 1000, "p", 1, 15));
    b.on_event(&death(100, 1000, 25));
    b.on_event(&focus("com.app.b", "AppB", 30));
    let g = b.build();
    let fronts: Vec<_> = g.edges.iter().filter(|e| matches!(e, Edge::FrontmostDuring { .. })).collect();
    // AppA overlaps with process p. AppB starts after p died, so no overlap.
    assert_eq!(fronts.len(), 1);
    if let Edge::FrontmostDuring { app, process, overlap } = fronts[0] {
        assert_eq!(app, "com.app.a");
        assert_eq!(process.pid, 100);
        assert_eq!(overlap.from, ts(15));
        assert_eq!(overlap.to, Some(ts(25)));
    }
}

#[test]
fn open_intervals_close_at_last_timestamp() {
    let mut b = GraphBuilder::new();
    b.on_event(&focus("com.app.a", "AppA", 10));
    b.on_event(&birth(100, 1000, "p", 1, 12)); // bumps last_ts to 12
    let g = b.build();
    let app_a = &g.apps[0];
    assert_eq!(app_a.intervals[0].to, Some(ts(12)));
}

#[test]
fn connection_opened_creates_socket_node() {
    let mut b = GraphBuilder::new();
    b.on_event(&conn_open(100, "tcp4", "10.0.0.1.50", "1.2.3.4.443", 20));
    let g = b.build();
    assert_eq!(g.sockets.len(), 1);
    assert_eq!(g.sockets[0].id.proto, "tcp4");
    assert_eq!(g.sockets[0].pid_at_open, Some(100));
    assert!(g.sockets[0].closed.is_none());
}

#[test]
fn connection_closed_records_close_time() {
    let mut b = GraphBuilder::new();
    b.on_event(&conn_open(100, "tcp4", "a", "b", 20));
    b.on_event(&conn_close(100, "tcp4", "a", "b", 30));
    let g = b.build();
    assert_eq!(g.sockets[0].closed, Some(ts(30)));
    assert_eq!(g.sockets[0].rxbytes_last, Some(100));
    assert_eq!(g.sockets[0].txbytes_last, Some(200));
}

#[test]
fn opened_socket_edge_built_when_process_present() {
    let mut b = GraphBuilder::new();
    // Process is born first, then opens a socket.
    b.on_event(&birth(100, 1000, "curl", 1, 10));
    b.on_event(&conn_open(100, "tcp4", "a", "b", 20));
    let g = b.build();
    let edges: Vec<_> = g.edges.iter()
        .filter(|e| matches!(e, Edge::OpenedSocket { .. }))
        .collect();
    assert_eq!(edges.len(), 1);
    match edges[0] {
        Edge::OpenedSocket { process, socket } => {
            assert_eq!(process.pid, 100);
            assert_eq!(socket.proto, "tcp4");
        }
        _ => unreachable!(),
    }
}

#[test]
fn opened_socket_edge_dropped_when_process_absent() {
    let mut b = GraphBuilder::new();
    // No process node — socket has nothing to attach to.
    b.on_event(&conn_open(999, "tcp4", "a", "b", 20));
    let g = b.build();
    assert!(!g.edges.iter().any(|e| matches!(e, Edge::OpenedSocket { .. })));
}

#[test]
fn file_changed_creates_file_node_and_unions_flags() {
    let mut b = GraphBuilder::new();
    b.on_event(&file_changed("/tmp/foo", &["created", "is_file"], 2, 10));
    b.on_event(&file_changed("/tmp/foo", &["modified", "is_file"], 3, 20));
    let g = b.build();
    assert_eq!(g.files.len(), 1);
    assert_eq!(g.files[0].path, "/tmp/foo");
    assert_eq!(g.files[0].touch_count, 5);
    assert!(g.files[0].flags.contains(&"created".to_string()));
    assert!(g.files[0].flags.contains(&"modified".to_string()));
    // Flag should appear once even though it was observed twice.
    assert_eq!(g.files[0].flags.iter().filter(|f| **f == "is_file").count(), 1);
}

#[test]
fn pid_reuse_picks_recent_process_for_socket_edge() {
    let mut b = GraphBuilder::new();
    // Pid 100 lives [10, 30) then is reused with a new start time [40, _).
    b.on_event(&birth(100, 1000, "old", 1, 10));
    b.on_event(&death(100, 1000, 30));
    b.on_event(&birth(100, 1001, "new", 1, 40));
    // Socket opens at t=50 while the new process is alive.
    b.on_event(&conn_open(100, "tcp4", "a", "b", 50));
    let g = b.build();
    let edges: Vec<_> = g.edges.iter()
        .filter_map(|e| match e {
            Edge::OpenedSocket { process, .. } => Some(process.start_unix_secs),
            _ => None,
        })
        .collect();
    assert_eq!(edges, vec![1001], "should attach to the newer process");
}

#[test]
fn each_relation_is_told_once() {
    let mut b = GraphBuilder::new();
    b.on_event(&birth(10, 1, "shell", 99, 1));
    b.on_event(&birth(20, 1, "ls", 10, 2));
    b.on_event(&birth(20, 1, "ls", 10, 3));
    b.on_event(&focus("com.a", "A", 4));
    b.on_event(&death(20, 1, 5));
    b.on_event(&focus("com.b", "B", 6));
    b.on_event(&conn_open(10, "tcp4", "l", "f", 7));
    b.on_event(&conn_open(20, "tcp4", "m", "f", 8));
    let g = b.build();
    let count = |f: &dyn Fn(&Edge) -> bool| g.edges.iter().filter(|e| f(e)).count();
    assert_eq!(count(&|e| matches!(e, Edge::ParentOf { parent, child } if parent.pid == 10 && child.pid == 20)), 1);
    assert_eq!(count(&|e| matches!(e, Edge::ParentOf { .. })), 1);
    // The shell lived through both intervals, the other process through one.
    assert_eq!(count(&|e| matches!(e, Edge::FrontmostDuring { process, .. } if process.pid == 10)), 2);
    assert_eq!(count(&|e| matches!(e, Edge::FrontmostDuring { process, .. } if process.pid == 20)), 1);
    // The second connection came after its process had died.
    assert_eq!(count(&|e| matches!(e, Edge::OpenedSocket { .. })), 1);
}

#[test]
fn many_changes_of_a_path_add_up() {
    let mut b = GraphBuilder::new();
    b.on_event(&file_changed("/a", &["x", "y"], 2, 1));
    b.on_event(&file_changed("/b", &["q"], 9, 2));
    b.on_event(&file_changed("/a", &["y", "z"], 3, 3));
    b.on_event(&file_changed("/a", &["x"], 5, 4));
    let g = b.build();
    let a = g.files.iter().find(|f| f.path == "/a").unwrap();
    assert_eq!((a.touch_count, a.flags.len()), (10, 3));
    assert_eq!(a.flags, ["x", "y", "z"]);
    assert_eq!((a.first_seen.mono_ns, a.last_seen.mono_ns), (1, 4));
    assert_eq!(format!("{:?}", g.clone()), format!("{g:?}"));
}

