//! The store.

use agentworld::events::{Event, EventKind, SCHEMA_VERSION};
use agentworld::graph::{AppNode, DomainNode, Edge, FileNode, Graph, Interval, ProcessId, ProcessNode, SocketId, SocketNode};
use agentworld::json::Json;
use agentworld::json_parse::parse_json;
use agentworld::observation::Timestamp;
use agentworld::store::{EdgeKind, MergeReport, NodeKind, Store};
use agentworld::store_admin::{PruneReport, StoreSummary};
use agentworld::store_history::{NoveltyReport, NOVELTY_CAP_PER_KIND};

fn j(text: &str) -> Json {
    parse_json(text).expect("a JSON document")
}

fn obj(fields: Vec<(&str, Json)>) -> Json {
    Json::Object(fields.into_iter().map(|(k, v)| (k.to_string(), v)).collect())
}

trait IntoJson {
    fn json(self) -> Json;
}

impl IntoJson for &str {
    fn json(self) -> Json {
        Json::Str(self.to_string())
    }
}

impl IntoJson for String {
    fn json(self) -> Json {
        Json::Str(self)
    }
}

impl IntoJson for u32 {
    fn json(self) -> Json {
        Json::U64(self as u64)
    }
}

impl IntoJson for u64 {
    fn json(self) -> Json {
        Json::U64(self)
    }
}

impl IntoJson for bool {
    fn json(self) -> Json {
        Json::Bool(self)
    }
}

impl IntoJson for Json {
    fn json(self) -> Json {
        self
    }
}

impl<T: IntoJson> IntoJson for Option<T> {
    fn json(self) -> Json {
        match self {
            Some(v) => v.json(),
            None => Json::Null,
        }
    }
}

impl IntoJson for &[&str] {
    fn json(self) -> Json {
        Json::Array(self.iter().map(|s| Json::Str(s.to_string())).collect())
    }
}

fn jv(v: impl IntoJson) -> Json {
    v.json()
}

fn ts(n: u64) -> Timestamp {
    Timestamp {
        mono_ns: n,
        wall_anchor_ns: 0,
    }
}

fn small_graph() -> Graph {
    let parent_id = ProcessId {
        pid: 1,
        start_unix_secs: 1000,
    };
    let child_id = ProcessId {
        pid: 42,
        start_unix_secs: 1001,
    };
    let sock_id = SocketId {
        proto: "tcp4".into(),
        local_addr: "10.0.0.1.50000".into(),
        foreign_addr: "1.2.3.4.443".into(),
    };
    Graph {
        processes: vec![
            ProcessNode {
                id: parent_id.clone(),
                comm: Some("launchd".into()),
                name: None,
                exec_path: Some("/sbin/launchd".into()),
                ppid: None,
                uid: Some(0),
                birth: ts(10),
                death: None,
            },
            ProcessNode {
                id: child_id.clone(),
                comm: Some("curl".into()),
                name: None,
                exec_path: Some("/usr/bin/curl".into()),
                ppid: Some(1),
                uid: Some(501),
                birth: ts(20),
                death: Some(ts(50)),
            },
        ],
        apps: vec![],
        sockets: vec![SocketNode {
            id: sock_id.clone(),
            state: Some("ESTABLISHED".into()),
            process_name: Some("curl".into()),
            pid_at_open: Some(42),
            opened: ts(25),
            closed: Some(ts(45)),
            rxbytes_last: Some(1024),
            txbytes_last: Some(512),
        }],
        files: vec![FileNode {
            path: "/tmp/x".into(),
            flags: vec!["created".into(), "modified".into()],
            first_seen: ts(30),
            last_seen: ts(40),
            touch_count: 3,
        }],
        domains: vec![],
        edges: vec![
            Edge::ParentOf {
                parent: parent_id.clone(),
                child: child_id.clone(),
            },
            Edge::OpenedSocket {
                process: child_id.clone(),
                socket: sock_id.clone(),
            },
        ],
    }
}

#[test]
fn schema_is_created_with_version() {
    let s = Store::open_in_memory().unwrap();
    assert_eq!(s.schema_version().unwrap(), 1);
}

#[test]
fn merge_inserts_nodes_and_edges() {
    let mut s = Store::open_in_memory().unwrap();
    let r = s.merge_graph(&small_graph()).unwrap();
    assert_eq!(r.edges_inserted, 2);
    assert_eq!(r.edges_updated, 0);
}

#[test]
fn merging_same_graph_twice_bumps_edge_count() {
    let mut s = Store::open_in_memory().unwrap();
    s.merge_graph(&small_graph()).unwrap();
    let r2 = s.merge_graph(&small_graph()).unwrap();
    assert_eq!(
        r2.edges_updated, 2,
        "every edge should be updated, not inserted; got {r2:?}"
    );
    // Verify count actually bumped in the row.
    let c = s
        .edge_rows()
        .iter()
        .find(|r| r.kind == EdgeKind::ParentOf)
        .unwrap()
        .count;
    assert_eq!(c, 2);
}

#[test]
fn load_graph_round_trips_processes() {
    let mut s = Store::open_in_memory().unwrap();
    let original = small_graph();
    s.merge_graph(&original).unwrap();
    let loaded = s.load_graph().unwrap();
    assert_eq!(loaded.processes.len(), 2);
    let curl = loaded.processes.iter().find(|p| p.id.pid == 42).unwrap();
    assert_eq!(curl.comm.as_deref(), Some("curl"));
    assert_eq!(curl.exec_path.as_deref(), Some("/usr/bin/curl"));
    assert_eq!(curl.ppid, Some(1));
}

#[test]
fn load_graph_round_trips_sockets_and_files() {
    let mut s = Store::open_in_memory().unwrap();
    s.merge_graph(&small_graph()).unwrap();
    let loaded = s.load_graph().unwrap();
    assert_eq!(loaded.sockets.len(), 1);
    let sock = &loaded.sockets[0];
    assert_eq!(sock.id.proto, "tcp4");
    assert_eq!(sock.id.foreign_addr, "1.2.3.4.443");
    assert_eq!(sock.pid_at_open, Some(42));

    assert_eq!(loaded.files.len(), 1);
    let f = &loaded.files[0];
    assert_eq!(f.path, "/tmp/x");
    assert!(f.flags.contains(&"created".to_string()));
    assert_eq!(f.touch_count, 3);
}

#[test]
fn load_graph_round_trips_edges() {
    let mut s = Store::open_in_memory().unwrap();
    s.merge_graph(&small_graph()).unwrap();
    let loaded = s.load_graph().unwrap();
    let parent_of = loaded
        .edges
        .iter()
        .filter(|e| matches!(e, Edge::ParentOf { .. }))
        .count();
    let opened_socket = loaded
        .edges
        .iter()
        .filter(|e| matches!(e, Edge::OpenedSocket { .. }))
        .count();
    assert_eq!(parent_of, 1);
    assert_eq!(opened_socket, 1);
}

#[test]
fn first_seen_is_minimum_across_merges() {
    let mut s = Store::open_in_memory().unwrap();
    let mut g = small_graph();
    // First merge with high birth time.
    g.processes[1].birth = ts(100);
    s.merge_graph(&g).unwrap();
    // Second merge with lower birth time — first_seen should hold the older value.
    g.processes[1].birth = ts(20);
    s.merge_graph(&g).unwrap();
    let first_seen = s
        .node_rows()
        .iter()
        .find(|r| r.kind == NodeKind::Process && r.id == "42:1001")
        .unwrap()
        .first_seen;
    assert_eq!(first_seen, 20);
}

/// Build a graph with a configurable parent/child uid/exec mix so the
/// suspicion-query tests are self-contained.
fn suspicion_graph() -> Graph {
    let init = ProcessNode {
        id: ProcessId {
            pid: 1,
            start_unix_secs: 1000,
        },
        comm: Some("launchd".into()),
        name: None,
        exec_path: Some("/sbin/launchd".into()),
        ppid: None,
        uid: Some(0),
        birth: ts(1),
        death: None,
    };
    // Non-root user shell.
    let shell = ProcessNode {
        id: ProcessId {
            pid: 100,
            start_unix_secs: 1001,
        },
        comm: Some("zsh".into()),
        name: None,
        exec_path: Some("/bin/zsh".into()),
        ppid: Some(1),
        uid: Some(501),
        birth: ts(2),
        death: None,
    };
    // Root child of the non-root shell — the suspicious one.
    let suspicious = ProcessNode {
        id: ProcessId {
            pid: 200,
            start_unix_secs: 1002,
        },
        comm: Some("rooted".into()),
        name: None,
        exec_path: Some("/tmp/rooted".into()),
        ppid: Some(100),
        uid: Some(0),
        birth: ts(3),
        death: None,
    };
    // Boring user process in /usr/bin — should NOT be flagged by either query.
    let curl = ProcessNode {
        id: ProcessId {
            pid: 300,
            start_unix_secs: 1003,
        },
        comm: Some("curl".into()),
        name: None,
        exec_path: Some("/usr/bin/curl".into()),
        ppid: Some(100),
        uid: Some(501),
        birth: ts(4),
        death: None,
    };
    Graph {
        processes: vec![
            init.clone(),
            shell.clone(),
            suspicious.clone(),
            curl.clone(),
        ],
        apps: vec![],
        sockets: vec![],
        files: vec![],
        domains: vec![],
        edges: vec![
            Edge::ParentOf {
                parent: init.id.clone(),
                child: shell.id.clone(),
            },
            Edge::ParentOf {
                parent: shell.id.clone(),
                child: suspicious.id.clone(),
            },
            Edge::ParentOf {
                parent: shell.id.clone(),
                child: curl.id.clone(),
            },
        ],
    }
}

#[test]
fn root_under_user_parent_finds_only_the_escalation() {
    let mut s = Store::open_in_memory().unwrap();
    s.merge_graph(&suspicion_graph()).unwrap();
    let hits = s.processes_root_under_user_parent(0).unwrap();
    assert_eq!(
        hits.len(),
        1,
        "expected exactly one escalation; got {hits:?}"
    );
    assert_eq!(hits[0].id.pid, 200);
    assert_eq!(hits[0].comm.as_deref(), Some("rooted"));
}

#[test]
fn outside_paths_excludes_trusted_prefixes() {
    let mut s = Store::open_in_memory().unwrap();
    s.merge_graph(&suspicion_graph()).unwrap();
    // /sbin/, /bin/, /usr/bin/ all trusted — only /tmp/rooted should remain.
    let hits = s
        .processes_outside_paths(&["/sbin/", "/bin/", "/usr/bin/"], 0)
        .unwrap();
    assert_eq!(hits.len(), 1, "expected only /tmp/rooted; got {hits:?}");
    assert_eq!(hits[0].exec_path.as_deref(), Some("/tmp/rooted"));
}

#[test]
fn parents_with_many_children_respects_threshold() {
    let mut s = Store::open_in_memory().unwrap();
    s.merge_graph(&suspicion_graph()).unwrap();
    // shell (pid 100) has 2 children; launchd (pid 1) has 1.
    let hits = s.parents_with_many_children(2, 0).unwrap();
    assert_eq!(hits.len(), 1, "only shell crosses threshold; got {hits:?}");
    assert_eq!(hits[0].0.id.pid, 100);
    assert_eq!(hits[0].1, 2);
    // Lower the bar — both parents qualify, sorted by child count desc.
    let all = s.parents_with_many_children(1, 0).unwrap();
    assert_eq!(all.len(), 2);
    assert_eq!(all[0].0.id.pid, 100); // 2 children first
    assert_eq!(all[1].0.id.pid, 1); // then launchd with 1
}

#[test]
fn parents_with_many_children_since_counts_only_recent_children() {
    let mut s = Store::open_in_memory().unwrap();
    s.merge_graph(&suspicion_graph()).unwrap();
    // Children's last_seen: rooted=3ns, curl=4ns, shell=2ns. From t=4 only
    // curl still counts, so shell drops below a threshold of 2...
    let hits = s.parents_with_many_children(2, 4).unwrap();
    assert!(hits.is_empty(), "old children must not count: {hits:?}");
    // ...but still qualifies at 1, on the strength of curl alone.
    let hits = s.parents_with_many_children(1, 4).unwrap();
    assert_eq!(hits.len(), 1);
    assert_eq!(hits[0].0.id.pid, 100);
    assert_eq!(hits[0].1, 1);
}

// ---------- batch 2 query tests --------------------------------------

/// 1s spaced timestamps in unix nanoseconds; wall_anchor is 0 so
/// `mono_ns` itself is the unix-ns value (matches round-trip convention).
fn unix_ts(secs: u64) -> Timestamp {
    Timestamp {
        mono_ns: secs * 1_000_000_000,
        wall_anchor_ns: 0,
    }
}

/// Build a richer fixture than `small_graph` / `suspicion_graph`:
/// 3 processes in a chain (1 → 100 → 200), one frontmost app over
/// t=10..50s, two sockets owned by pid 200 with known byte counters,
/// and a single file.
fn windowed_graph() -> Graph {
    // NOTE: `merge_graph` collapses `last_seen` to `birth` when `death`
    // is None, so for tests we set an explicit death past the windows
    // we'll query. In a real long-running capture each process would
    // see its `last_seen` bumped on every re-merge.
    let p1 = ProcessNode {
        id: ProcessId {
            pid: 1,
            start_unix_secs: 1,
        },
        comm: Some("launchd".into()),
        name: None,
        exec_path: Some("/sbin/launchd".into()),
        ppid: None,
        uid: Some(0),
        birth: unix_ts(0),
        death: Some(unix_ts(60)),
    };
    let p100 = ProcessNode {
        id: ProcessId {
            pid: 100,
            start_unix_secs: 2,
        },
        comm: Some("Code".into()),
        name: None,
        exec_path: Some("/Applications/Code.app/Code".into()),
        ppid: Some(1),
        uid: Some(501),
        birth: unix_ts(5),
        death: Some(unix_ts(60)),
    };
    let p200 = ProcessNode {
        id: ProcessId {
            pid: 200,
            start_unix_secs: 3,
        },
        comm: Some("curl".into()),
        name: None,
        exec_path: Some("/usr/bin/curl".into()),
        ppid: Some(100),
        uid: Some(501),
        birth: unix_ts(10),
        death: Some(unix_ts(30)),
    };
    let sock_a = SocketId {
        proto: "tcp4".into(),
        local_addr: "10.0.0.1.55001".into(),
        foreign_addr: "1.1.1.1.443".into(),
    };
    let sock_b = SocketId {
        proto: "tcp4".into(),
        local_addr: "10.0.0.1.55002".into(),
        foreign_addr: "2.2.2.2.80".into(),
    };
    let app = AppNode {
        id: "com.microsoft.VSCode".into(),
        name: Some("Code".into()),
        exec_path: Some("/Applications/Code.app/Code".into()),
        intervals: vec![Interval {
            from: unix_ts(10),
            to: Some(unix_ts(50)),
        }],
    };
    Graph {
        processes: vec![p1.clone(), p100.clone(), p200.clone()],
        apps: vec![app],
        sockets: vec![
            SocketNode {
                id: sock_a.clone(),
                state: Some("ESTABLISHED".into()),
                process_name: Some("curl".into()),
                pid_at_open: Some(200),
                opened: unix_ts(15),
                closed: Some(unix_ts(25)),
                rxbytes_last: Some(1_000),
                txbytes_last: Some(200),
            },
            SocketNode {
                id: sock_b.clone(),
                state: Some("ESTABLISHED".into()),
                process_name: Some("curl".into()),
                pid_at_open: Some(200),
                opened: unix_ts(16),
                closed: Some(unix_ts(28)),
                rxbytes_last: Some(5_000),
                txbytes_last: Some(500),
            },
        ],
        files: vec![],
        domains: vec![],
        edges: vec![
            Edge::ParentOf {
                parent: p1.id.clone(),
                child: p100.id.clone(),
            },
            Edge::ParentOf {
                parent: p100.id.clone(),
                child: p200.id.clone(),
            },
            Edge::FrontmostDuring {
                app: "com.microsoft.VSCode".into(),
                process: p100.id.clone(),
                overlap: Interval {
                    from: unix_ts(10),
                    to: Some(unix_ts(50)),
                },
            },
            Edge::OpenedSocket {
                process: p200.id.clone(),
                socket: sock_a.clone(),
            },
            Edge::OpenedSocket {
                process: p200.id.clone(),
                socket: sock_b.clone(),
            },
        ],
    }
}

fn ns(secs: u64) -> i64 {
    (secs * 1_000_000_000) as i64
}

#[test]
fn graph_in_window_keeps_overlapping_nodes_and_drops_outliers() {
    let mut s = Store::open_in_memory().unwrap();
    s.merge_graph(&windowed_graph()).unwrap();

    // Window 20..40s — all three processes overlap (p1 alive 0..60,
    // p100 alive 5..60, p200 alive 10..30), the app overlaps (10..50),
    // and both sockets overlap (15..25, 16..28).
    let g = s.graph_in_window(ns(20), ns(40)).unwrap();
    let pids: Vec<u32> = g.processes.iter().map(|p| p.id.pid).collect();
    assert!(pids.contains(&1));
    assert!(pids.contains(&100));
    assert!(pids.contains(&200));
    assert_eq!(g.apps.len(), 1);
    assert_eq!(g.sockets.len(), 2);

    // All edges survive — every endpoint is in the node set.
    let parent_edges = g
        .edges
        .iter()
        .filter(|e| matches!(e, Edge::ParentOf { .. }))
        .count();
    assert_eq!(
        parent_edges, 2,
        "both parent_of edges should survive: {:?}",
        g.edges
    );

    // Now a tighter window that excludes p200: 35..45 should drop the
    // 10..30 socket-owning curl process and both sockets that ended at
    // 25/28 — proving the filter actually filters.
    let g_late = s.graph_in_window(ns(35), ns(45)).unwrap();
    let late_pids: Vec<u32> = g_late.processes.iter().map(|p| p.id.pid).collect();
    assert!(
        !late_pids.contains(&200),
        "p200 ended at 30s, should be gone: {late_pids:?}"
    );
    assert!(
        g_late.sockets.is_empty(),
        "sockets ended before 35s: {:?}",
        g_late.sockets
    );
}

#[test]
fn graph_in_window_empty_when_window_predates_everything() {
    let mut s = Store::open_in_memory().unwrap();
    s.merge_graph(&windowed_graph()).unwrap();
    // Window ends before anything was seen.
    let g = s.graph_in_window(-2_000_000_000, -1_000_000_000).unwrap();
    assert!(g.processes.is_empty());
    assert!(g.apps.is_empty());
    assert!(g.sockets.is_empty());
    assert!(g.edges.is_empty());
}

#[test]
fn top_endpoints_by_bytes_sorted_desc_with_counts() {
    let mut s = Store::open_in_memory().unwrap();
    s.merge_graph(&windowed_graph()).unwrap();
    let top = s.top_endpoints_by_bytes(10).unwrap();
    assert_eq!(top.len(), 2, "expected both endpoints, got {top:?}");
    // sock_b is bigger (5_500 > 1_200) — comes first.
    assert_eq!(top[0].foreign_addr, "2.2.2.2.80");
    assert_eq!(top[0].total_bytes, 5_500);
    assert_eq!(top[0].distinct_processes, 1);
    assert_eq!(top[0].connection_count, 1);
    assert_eq!(top[1].foreign_addr, "1.1.1.1.443");
    assert_eq!(top[1].total_bytes, 1_200);
}

#[test]
fn top_endpoints_respects_limit() {
    let mut s = Store::open_in_memory().unwrap();
    s.merge_graph(&windowed_graph()).unwrap();
    let top = s.top_endpoints_by_bytes(1).unwrap();
    assert_eq!(top.len(), 1);
    assert_eq!(top[0].foreign_addr, "2.2.2.2.80");
}

#[test]
fn focus_segments_clipped_to_window() {
    let mut s = Store::open_in_memory().unwrap();
    s.merge_graph(&windowed_graph()).unwrap();
    // App was frontmost 10..50s; window 20..40s should yield one
    // segment clipped to 20..40 (duration 20s).
    let segs = s.focus_segments_in_window(ns(20), ns(40)).unwrap();
    assert_eq!(segs.len(), 1, "expected one segment: {segs:?}");
    let seg = &segs[0];
    assert_eq!(seg.app_id, "com.microsoft.VSCode");
    assert_eq!(seg.app_name, "Code");
    assert_eq!(seg.process_pid, 100);
    assert_eq!(seg.from_unix_ns, ns(20));
    assert_eq!(seg.to_unix_ns, ns(40));
    assert_eq!(seg.duration_secs, 20);
}

#[test]
fn focus_segments_skipped_when_window_disjoint() {
    let mut s = Store::open_in_memory().unwrap();
    s.merge_graph(&windowed_graph()).unwrap();
    let segs = s.focus_segments_in_window(ns(100), ns(200)).unwrap();
    assert!(segs.is_empty(), "no overlap → no segments: {segs:?}");
}

#[test]
fn ancestors_of_walks_chain_in_order() {
    let mut s = Store::open_in_memory().unwrap();
    s.merge_graph(&windowed_graph()).unwrap();
    // Chain is 200 → 100 → 1. ancestors_of(200) at depth 5 should
    // return [100, 1] in that order.
    let ancestors = s.ancestors_of("200:3", 5).unwrap();
    let pids: Vec<u32> = ancestors.iter().map(|p| p.id.pid).collect();
    assert_eq!(pids, vec![100, 1], "ancestor chain order: {pids:?}");
}

#[test]
fn ancestors_of_respects_max_depth() {
    let mut s = Store::open_in_memory().unwrap();
    s.merge_graph(&windowed_graph()).unwrap();
    let one = s.ancestors_of("200:3", 1).unwrap();
    assert_eq!(one.len(), 1);
    assert_eq!(one[0].id.pid, 100);
}

#[test]
fn ancestors_of_returns_empty_for_root() {
    let mut s = Store::open_in_memory().unwrap();
    s.merge_graph(&windowed_graph()).unwrap();
    let none = s.ancestors_of("1:1", 5).unwrap();
    assert!(none.is_empty(), "launchd has no parent edge: {none:?}");
}

/// Two processes querying two domains; both edges attributed.
fn dns_graph() -> Graph {
    let curl = ProcessNode {
        id: ProcessId {
            pid: 42,
            start_unix_secs: 1001,
        },
        comm: Some("curl".into()),
        name: None,
        exec_path: Some("/usr/bin/curl".into()),
        ppid: Some(1),
        uid: Some(501),
        birth: unix_ts(10),
        death: Some(unix_ts(60)),
    };
    let node = ProcessNode {
        id: ProcessId {
            pid: 43,
            start_unix_secs: 1002,
        },
        comm: Some("node".into()),
        name: None,
        exec_path: Some("/usr/local/bin/node".into()),
        ppid: Some(1),
        uid: Some(501),
        birth: unix_ts(11),
        death: Some(unix_ts(60)),
    };
    Graph {
        processes: vec![curl.clone(), node.clone()],
        apps: vec![],
        sockets: vec![],
        files: vec![],
        domains: vec![
            DomainNode {
                name: "example.com".into(),
                qtypes: vec!["A".into(), "AAAA".into()],
                masked: false,
                first_seen: unix_ts(20),
                last_seen: unix_ts(40),
                query_count: 7,
            },
            DomainNode {
                name: "hash:abc123".into(),
                qtypes: vec!["HTTPS".into()],
                masked: true,
                first_seen: unix_ts(25),
                last_seen: unix_ts(30),
                query_count: 2,
            },
        ],
        edges: vec![
            Edge::QueriedDomain {
                process: curl.id.clone(),
                domain: "example.com".into(),
                count: 4,
            },
            Edge::QueriedDomain {
                process: node.id.clone(),
                domain: "example.com".into(),
                count: 3,
            },
            Edge::QueriedDomain {
                process: node.id.clone(),
                domain: "hash:abc123".into(),
                count: 2,
            },
        ],
    }
}

#[test]
fn domains_round_trip_through_store() {
    let mut s = Store::open_in_memory().unwrap();
    s.merge_graph(&dns_graph()).unwrap();
    let loaded = s.load_graph().unwrap();
    assert_eq!(loaded.domains.len(), 2);
    let ex = loaded
        .domains
        .iter()
        .find(|d| d.name == "example.com")
        .unwrap();
    assert_eq!(ex.query_count, 7);
    assert!(!ex.masked);
    assert!(ex.qtypes.contains(&"A".to_string()));
    let masked = loaded
        .domains
        .iter()
        .find(|d| d.name == "hash:abc123")
        .unwrap();
    assert!(masked.masked);

    let qd: Vec<(u32, &str, u64)> = loaded
        .edges
        .iter()
        .filter_map(|e| match e {
            Edge::QueriedDomain {
                process,
                domain,
                count,
            } => Some((process.pid, domain.as_str(), *count)),
            _ => None,
        })
        .collect();
    assert_eq!(qd.len(), 3, "all queried_domain edges round-trip: {qd:?}");
    assert!(qd.contains(&(42, "example.com", 4)));
}

#[test]
fn graph_in_window_includes_overlapping_domains() {
    let mut s = Store::open_in_memory().unwrap();
    s.merge_graph(&dns_graph()).unwrap();
    // Window 35..50s: example.com (20..40) overlaps; hash domain (25..30) does not.
    let g = s.graph_in_window(ns(35), ns(50)).unwrap();
    let names: Vec<&str> = g.domains.iter().map(|d| d.name.as_str()).collect();
    assert_eq!(names, vec!["example.com"], "got {names:?}");
    // Both processes survive (alive to 60s), so example.com edges survive
    // but the hash-domain edge must drop with its node.
    let qd_domains: Vec<&str> = g
        .edges
        .iter()
        .filter_map(|e| match e {
            Edge::QueriedDomain { domain, .. } => Some(domain.as_str()),
            _ => None,
        })
        .collect();
    assert_eq!(qd_domains.len(), 2, "got {qd_domains:?}");
    assert!(qd_domains.iter().all(|d| *d == "example.com"));
}

#[test]
fn top_domains_sorted_by_query_count_with_distinct_processes() {
    let mut s = Store::open_in_memory().unwrap();
    s.merge_graph(&dns_graph()).unwrap();
    let top = s.top_domains(10).unwrap();
    assert_eq!(top.len(), 2);
    assert_eq!(top[0].name, "example.com");
    assert_eq!(top[0].query_count, 7);
    assert_eq!(top[0].distinct_processes, 2);
    assert_eq!(top[1].name, "hash:abc123");
    assert_eq!(top[1].distinct_processes, 1);
    let one = s.top_domains(1).unwrap();
    assert_eq!(one.len(), 1);
    assert_eq!(one[0].name, "example.com");
}

#[test]
fn prune_before_deletes_old_nodes_and_dangling_edges() {
    let mut s = Store::open_in_memory().unwrap();
    s.merge_graph(&windowed_graph()).unwrap();
    // Sockets closed at 25s/28s; processes die at 60s, app interval ends
    // at 50s. Cutoff 29s prunes exactly the two sockets.
    let report = s.prune_before(ns(29)).unwrap();
    assert_eq!(report.nodes_deleted, 2, "both sockets pruned: {report:?}");
    let loaded = s.load_graph().unwrap();
    assert!(loaded.sockets.is_empty());
    // opened_socket edges must be gone too (dangling cleanup).
    assert!(!loaded
        .edges
        .iter()
        .any(|e| matches!(e, Edge::OpenedSocket { .. })));
    // Processes and their parent_of edges survive.
    assert_eq!(loaded.processes.len(), 3);
    assert_eq!(
        loaded
            .edges
            .iter()
            .filter(|e| matches!(e, Edge::ParentOf { .. }))
            .count(),
        2
    );
}

#[test]
fn prune_before_is_noop_for_ancient_cutoff() {
    let mut s = Store::open_in_memory().unwrap();
    s.merge_graph(&windowed_graph()).unwrap();
    let report = s.prune_before(0).unwrap();
    assert_eq!(report.nodes_deleted, 0);
    assert_eq!(report.edges_deleted, 0);
}

#[test]
fn summary_reports_counts_and_span() {
    let mut s = Store::open_in_memory().unwrap();
    s.merge_graph(&windowed_graph()).unwrap();
    let sum = s.summary().unwrap();
    let nodes: std::collections::HashMap<String, u64> =
        sum.node_counts.iter().cloned().collect();
    assert_eq!(nodes.get("process"), Some(&3));
    assert_eq!(nodes.get("socket"), Some(&2));
    assert_eq!(nodes.get("app"), Some(&1));
    let edges: std::collections::HashMap<String, u64> =
        sum.edge_counts.iter().cloned().collect();
    assert_eq!(edges.get("parent_of"), Some(&2));
    assert_eq!(edges.get("opened_socket"), Some(&2));
    assert_eq!(sum.first_seen_unix_ns, Some(0));
    assert!(
        sum.last_seen_unix_ns >= Some(ns(50)),
        "got {:?}",
        sum.last_seen_unix_ns
    );
}

#[test]
fn summary_on_empty_store() {
    let s = Store::open_in_memory().unwrap();
    let sum = s.summary().unwrap();
    assert!(sum.node_counts.is_empty());
    assert!(sum.edge_counts.is_empty());
    assert_eq!(sum.first_seen_unix_ns, None);
    assert_eq!(sum.last_seen_unix_ns, None);
}

fn sample_event(secs: u64, kind: EventKind, pid: Option<u32>) -> Event {
    Event {
        schema_version: SCHEMA_VERSION,
        timestamp: unix_ts(secs),
        kind,
        pid,
        payload: obj(vec![("marker", jv(secs))]),
    }
}

fn payload_event(secs: u64, kind: EventKind, payload: Json) -> Event {
    Event {
        schema_version: SCHEMA_VERSION,
        timestamp: unix_ts(secs),
        kind,
        pid: None,
        payload,
    }
}

#[test]
fn hourly_profile_buckets_by_utc_hour() {
    let mut s = Store::open_in_memory().unwrap();
    // Two dns queries in hour 0, one process birth in hour 2 (UTC,
    // relative to the unix epoch since unix_ts starts at 0).
    s.append_events(&[
        sample_event(60, EventKind::DnsQuery, None),
        sample_event(120, EventKind::DnsQuery, None),
        sample_event(2 * 3600 + 5, EventKind::ProcessBirth, Some(1)),
    ])
    .unwrap();

    let profile = s.event_hourly_profile(0).unwrap();
    assert_eq!(profile.len(), 2);
    let dns = profile.iter().find(|r| r.kind == "dns_query").unwrap();
    assert_eq!((dns.hour_of_day, dns.count), (0, 2));
    let birth = profile.iter().find(|r| r.kind == "process_birth").unwrap();
    assert_eq!((birth.hour_of_day, birth.count), (2, 1));
}

#[test]
fn field_window_counts_group_by_value_and_window() {
    let mut s = Store::open_in_memory().unwrap();
    let q = |name: &str| obj(vec![("process_name", jv(name))]);
    s.append_events(&[
        payload_event(10, EventKind::DnsQuery, q("chrome")),
        payload_event(20, EventKind::DnsQuery, q("chrome")),
        payload_event(3610, EventKind::DnsQuery, q("chrome")),
        payload_event(30, EventKind::DnsQuery, q("curl")),
        // Different kind and missing field must both be excluded.
        payload_event(40, EventKind::ProcessBirth, q("chrome")),
        payload_event(50, EventKind::DnsQuery, j(r#"{ "other": 1 }"#)),
    ])
    .unwrap();

    let hour_ns: i64 = 3_600_000_000_000;
    let rows = s
        .event_field_window_counts(EventKind::DnsQuery, "process_name", 0, hour_ns)
        .unwrap();
    assert_eq!(rows.len(), 3);
    let chrome: Vec<_> = rows.iter().filter(|r| r.value == "chrome").collect();
    assert_eq!(chrome.len(), 2, "chrome spans two hour windows");
    assert_eq!(chrome[0].count, 2);
    assert_eq!(chrome[1].count, 1);
    assert_eq!(chrome[1].window_start_unix_ns, hour_ns);
    let curl = rows.iter().find(|r| r.value == "curl").unwrap();
    assert_eq!(curl.count, 1);
}

#[test]
fn edge_rates_read_existing_columns() {
    let mut s = Store::open_in_memory().unwrap();
    let g = small_graph();
    s.merge_graph(&g).unwrap();
    s.merge_graph(&g).unwrap(); // second merge bumps count

    let rates = s.edge_rates("parent_of").unwrap();
    assert_eq!(rates.len(), 1);
    assert!(rates[0].count >= 2, "repeat merge must bump the tally");
    assert!(rates[0].last_seen_unix_ns >= rates[0].first_seen_unix_ns);
}

#[test]
fn events_round_trip_in_order() {
    let mut s = Store::open_in_memory().unwrap();
    let evs = vec![
        sample_event(30, EventKind::DnsQuery, Some(42)),
        sample_event(10, EventKind::ProcessBirth, Some(1)),
        sample_event(20, EventKind::FileChanged, None),
    ];
    assert_eq!(s.append_events(&evs).unwrap(), 3);

    let back = s.events_in_window(ns(0), ns(100), None, 100).unwrap();
    assert_eq!(back.len(), 3);
    // Oldest first regardless of insert order.
    let kinds: Vec<EventKind> = back.iter().map(|e| e.kind).collect();
    assert_eq!(
        kinds,
        vec![
            EventKind::ProcessBirth,
            EventKind::FileChanged,
            EventKind::DnsQuery
        ]
    );
    assert_eq!(back[0].pid, Some(1));
    assert_eq!(
        back[0].payload.get("marker").and_then(|v| v.as_u64()),
        Some(10)
    );
    assert_eq!(back[0].schema_version, SCHEMA_VERSION);
}

#[test]
fn events_window_and_kind_filter_and_limit() {
    let mut s = Store::open_in_memory().unwrap();
    let evs = vec![
        sample_event(10, EventKind::DnsQuery, None),
        sample_event(20, EventKind::DnsQuery, None),
        sample_event(30, EventKind::FileChanged, None),
        sample_event(90, EventKind::DnsQuery, None),
    ];
    s.append_events(&evs).unwrap();

    // Window excludes t=90.
    let in_window = s.events_in_window(ns(0), ns(50), None, 100).unwrap();
    assert_eq!(in_window.len(), 3);

    // Kind filter keeps only DNS.
    let dns_only = s
        .events_in_window(ns(0), ns(50), Some(&[EventKind::DnsQuery]), 100)
        .unwrap();
    assert_eq!(dns_only.len(), 2);
    assert!(dns_only.iter().all(|e| e.kind == EventKind::DnsQuery));

    // Limit caps output (oldest first).
    let capped = s.events_in_window(ns(0), ns(100), None, 1).unwrap();
    assert_eq!(capped.len(), 1);
    assert_eq!(
        capped[0].payload.get("marker").and_then(|v| v.as_u64()),
        Some(10)
    );
}

#[test]
fn prune_deletes_old_events_and_summary_counts_them() {
    let mut s = Store::open_in_memory().unwrap();
    s.append_events(&[
        sample_event(10, EventKind::DnsQuery, None),
        sample_event(50, EventKind::DnsQuery, None),
    ])
    .unwrap();
    assert_eq!(s.summary().unwrap().event_count, 2);

    let report = s.prune_before(ns(30)).unwrap();
    assert_eq!(report.events_deleted, 1);
    assert_eq!(s.summary().unwrap().event_count, 1);
    let left = s.events_in_window(ns(0), ns(100), None, 10).unwrap();
    assert_eq!(left.len(), 1);
    assert_eq!(
        left[0].payload.get("marker").and_then(|v| v.as_u64()),
        Some(50)
    );
}

#[test]
fn meta_round_trip_and_schema_version_guard() {
    let mut s = Store::open_in_memory().unwrap();
    assert_eq!(s.get_meta("daemon_pid").unwrap(), None);
    s.set_meta("daemon_pid", "1234").unwrap();
    assert_eq!(s.get_meta("daemon_pid").unwrap().as_deref(), Some("1234"));
    // Overwrite wins.
    s.set_meta("daemon_pid", "5678").unwrap();
    assert_eq!(s.get_meta("daemon_pid").unwrap().as_deref(), Some("5678"));
    // The store's own key is protected.
    assert!(s.set_meta("schema_version", "99").is_err());
    assert_eq!(s.schema_version().unwrap(), 1);
}

#[test]
fn frontmost_during_edge_preserves_overlap() {
    let mut s = Store::open_in_memory().unwrap();
    let proc_id = ProcessId {
        pid: 100,
        start_unix_secs: 1,
    };
    let g = Graph {
        processes: vec![ProcessNode {
            id: proc_id.clone(),
            comm: Some("p".into()),
            name: None,
            exec_path: None,
            ppid: None,
            uid: None,
            birth: ts(10),
            death: None,
        }],
        apps: vec![AppNode {
            id: "com.app.X".into(),
            name: Some("X".into()),
            exec_path: None,
            intervals: vec![Interval {
                from: ts(5),
                to: Some(ts(50)),
            }],
        }],
        sockets: vec![],
        files: vec![],
        domains: vec![],
        edges: vec![Edge::FrontmostDuring {
            app: "com.app.X".into(),
            process: proc_id.clone(),
            overlap: Interval {
                from: ts(10),
                to: Some(ts(50)),
            },
        }],
    };
    s.merge_graph(&g).unwrap();
    let loaded = s.load_graph().unwrap();
    let fd = loaded
        .edges
        .iter()
        .find(|e| matches!(e, Edge::FrontmostDuring { .. }))
        .unwrap();
    match fd {
        Edge::FrontmostDuring {
            app,
            process,
            overlap,
        } => {
            assert_eq!(app, "com.app.X");
            assert_eq!(process.pid, 100);
            assert_eq!(overlap.from.mono_ns, 10);
            assert_eq!(overlap.to.map(|t| t.mono_ns), Some(50));
        }
        _ => unreachable!(),
    }
}

// ---------- novelty tests ---------------------------------------------

/// Minimal graph with one of each novelty-relevant entity, all stamped
/// at `t_secs` (unix seconds, zero anchor — round-trip convention).
#[allow(clippy::too_many_arguments)]
fn novelty_fixture(
    pid: u32,
    start: u64,
    comm: &str,
    local_port: u16,
    foreign: &str,
    domain: &str,
    masked: bool,
    app: &str,
    t_secs: u64,
) -> Graph {
    let t = unix_ts(t_secs);
    let p = ProcessNode {
        id: ProcessId {
            pid,
            start_unix_secs: start,
        },
        comm: Some(comm.into()),
        name: None,
        exec_path: Some(format!("/usr/bin/{comm}")),
        ppid: Some(1),
        uid: Some(501),
        birth: t,
        death: None,
    };
    let sock = SocketNode {
        id: SocketId {
            proto: "tcp4".into(),
            local_addr: format!("10.0.0.1.{local_port}"),
            foreign_addr: foreign.into(),
        },
        state: Some("ESTABLISHED".into()),
        process_name: Some(comm.into()),
        pid_at_open: Some(pid),
        opened: t,
        closed: None,
        rxbytes_last: Some(1),
        txbytes_last: Some(1),
    };
    let d = DomainNode {
        name: domain.into(),
        qtypes: vec!["A".into()],
        masked,
        first_seen: t,
        last_seen: t,
        query_count: 1,
    };
    let a = AppNode {
        id: app.into(),
        name: Some(app.into()),
        exec_path: None,
        intervals: vec![Interval {
            from: t,
            to: Some(unix_ts(t_secs + 1)),
        }],
    };
    Graph {
        processes: vec![p],
        apps: vec![a],
        sockets: vec![sock],
        files: vec![],
        domains: vec![d],
        edges: vec![],
    }
}

#[test]
fn novel_since_empty_store_reports_nothing_and_no_baseline() {
    let s = Store::open_in_memory().unwrap();
    let r = s.novel_since(0).unwrap();
    assert!(r.new_processes.is_empty());
    assert!(r.new_domains.is_empty());
    assert!(r.new_endpoints.is_empty());
    assert!(r.new_apps.is_empty());
    assert_eq!(r.oldest_first_seen_unix_ns, None);
}

#[test]
fn novel_since_only_reports_entities_first_seen_after_cutoff() {
    let mut s = Store::open_in_memory().unwrap();
    s.merge_graph(&novelty_fixture(
        42,
        1001,
        "curl",
        50000,
        "1.1.1.1.443",
        "old.example",
        false,
        "com.app.Old",
        10,
    ))
    .unwrap();
    s.merge_graph(&novelty_fixture(
        43,
        1002,
        "newtool",
        50001,
        "9.9.9.9.443",
        "new.example",
        false,
        "com.app.New",
        100,
    ))
    .unwrap();

    let r = s.novel_since(ns(50)).unwrap();
    assert_eq!(r.new_processes.len(), 1, "{:?}", r.new_processes);
    assert_eq!(r.new_processes[0].comm.as_deref(), Some("newtool"));
    assert_eq!(r.new_domains, vec!["new.example".to_string()]);
    assert_eq!(r.new_endpoints.len(), 1);
    assert_eq!(r.new_endpoints[0].foreign_addr, "9.9.9.9.443");
    assert_eq!(r.new_apps.len(), 1);
    assert_eq!(r.new_apps[0].id, "com.app.New");
    assert_eq!(r.oldest_first_seen_unix_ns, Some(ns(10)));
}

#[test]
fn novel_since_dedupes_process_identity_across_pid_reuse() {
    let mut s = Store::open_in_memory().unwrap();
    // curl runs at t=10 (pid 42) and again at t=100 as a NEW node row
    // (pid 99, new start time). Same identity -> not new after cutoff 50.
    s.merge_graph(&novelty_fixture(
        42,
        1001,
        "curl",
        50000,
        "1.1.1.1.443",
        "a.example",
        false,
        "com.app.A",
        10,
    ))
    .unwrap();
    s.merge_graph(&novelty_fixture(
        99,
        2000,
        "curl",
        50002,
        "1.1.1.1.443",
        "a.example",
        false,
        "com.app.A",
        100,
    ))
    .unwrap();

    let r = s.novel_since(ns(50)).unwrap();
    assert!(
        r.new_processes.is_empty(),
        "same (comm, exec_path) identity must not re-qualify: {:?}",
        r.new_processes
    );
}

#[test]
fn novel_since_groups_sockets_by_foreign_addr() {
    let mut s = Store::open_in_memory().unwrap();
    // t=10: connection to 1.1.1.1.443. t=100: a DIFFERENT socket node
    // (fresh local port) to the same endpoint — endpoint is not new.
    s.merge_graph(&novelty_fixture(
        42,
        1001,
        "curl",
        50000,
        "1.1.1.1.443",
        "a.example",
        false,
        "com.app.A",
        10,
    ))
    .unwrap();
    s.merge_graph(&novelty_fixture(
        42,
        1001,
        "curl",
        55555,
        "1.1.1.1.443",
        "a.example",
        false,
        "com.app.A",
        100,
    ))
    .unwrap();

    let r = s.novel_since(ns(50)).unwrap();
    assert!(
        r.new_endpoints.is_empty(),
        "known endpoint via a fresh socket must not be new: {:?}",
        r.new_endpoints
    );
}

#[test]
fn novel_since_excludes_masked_domains() {
    let mut s = Store::open_in_memory().unwrap();
    s.merge_graph(&novelty_fixture(
        42,
        1001,
        "curl",
        50000,
        "1.1.1.1.443",
        "hash:abc==",
        true,
        "com.app.A",
        100,
    ))
    .unwrap();
    let r = s.novel_since(ns(50)).unwrap();
    assert!(
        r.new_domains.is_empty(),
        "masked domains are noise: {:?}",
        r.new_domains
    );
}

#[test]
fn novel_since_respects_per_kind_cap() {
    let mut s = Store::open_in_memory().unwrap();
    let mut g = Graph::default();
    for i in 0..25 {
        g.domains.push(DomainNode {
            name: format!("d{i}.example"),
            qtypes: vec![],
            masked: false,
            first_seen: unix_ts(100 + i),
            last_seen: unix_ts(100 + i),
            query_count: 1,
        });
    }
    s.merge_graph(&g).unwrap();
    let r = s.novel_since(0).unwrap();
    assert_eq!(r.new_domains.len(), NOVELTY_CAP_PER_KIND);
    // Oldest first.
    assert_eq!(r.new_domains[0], "d0.example");
}

#[test]
fn remerge_does_not_resurrect_novelty() {
    let mut s = Store::open_in_memory().unwrap();
    let mut g = novelty_fixture(
        42,
        1001,
        "curl",
        50000,
        "1.1.1.1.443",
        "a.example",
        false,
        "com.app.A",
        10,
    );
    s.merge_graph(&g).unwrap();
    // Same entities re-observed later: bump every timestamp to t=100 and
    // re-merge. first_seen is MIN-maintained, so nothing becomes new.
    g.processes[0].birth = unix_ts(100);
    g.sockets[0].opened = unix_ts(100);
    g.domains[0].first_seen = unix_ts(100);
    g.domains[0].last_seen = unix_ts(100);
    g.apps[0].intervals = vec![Interval {
        from: unix_ts(100),
        to: Some(unix_ts(101)),
    }];
    s.merge_graph(&g).unwrap();

    let r = s.novel_since(ns(50)).unwrap();
    assert!(r.new_processes.is_empty(), "{:?}", r.new_processes);
    assert!(r.new_domains.is_empty(), "{:?}", r.new_domains);
    assert!(r.new_endpoints.is_empty(), "{:?}", r.new_endpoints);
    assert!(r.new_apps.is_empty(), "{:?}", r.new_apps);
}

#[test]
fn suspicion_queries_filter_by_last_seen_since() {
    let mut s = Store::open_in_memory().unwrap();
    s.merge_graph(&suspicion_graph()).unwrap();
    // suspicion_graph timestamps are raw mono ns 1..4 — since=0 sees all,
    // a cutoff beyond them sees none.
    assert_eq!(s.processes_root_under_user_parent(0).unwrap().len(), 1);
    assert!(s
        .processes_root_under_user_parent(1_000_000)
        .unwrap()
        .is_empty());

    let trusted = ["/sbin/", "/bin/", "/usr/bin/"];
    assert_eq!(s.processes_outside_paths(&trusted, 0).unwrap().len(), 1);
    assert!(s
        .processes_outside_paths(&trusted, 1_000_000)
        .unwrap()
        .is_empty());
}

#[test]
fn merging_again_updates_everything_and_changes_nothing_loaded() {
    let mut s = Store::open_in_memory().unwrap();
    let g = small_graph();
    s.merge_graph(&g).unwrap();
    let before = format!("{:?}", s.load_graph().unwrap());
    let nodes = g.processes.len() + g.apps.len() + g.sockets.len() + g.files.len() + g.domains.len();
    let r = s.merge_graph(&g).unwrap();
    assert_eq!((r.nodes_inserted, r.nodes_updated), (0, nodes as u64));
    assert_eq!((r.edges_inserted, r.edges_updated), (0, g.edges.len() as u64));
    assert_eq!(format!("{:?}", s.load_graph().unwrap()), before);
}

#[test]
fn novelties_stand_once_with_the_oldest_first() {
    let mut s = Store::open_in_memory().unwrap();
    for (pid, name, t) in [(1, "late", 90), (2, "early", 70), (3, "middle", 80), (4, "late", 95)] {
        let far = format!("9.9.9.{}.443", name.len());
        s.merge_graph(&novelty_fixture(pid, t, name, 50000 + pid as u16, &far, name, false, name, t)).unwrap();
    }
    let r = s.novel_since(ns(50)).unwrap();
    let order = vec!["early", "middle", "late"];
    assert_eq!(r.new_processes.iter().map(|p| p.comm.as_deref().unwrap()).collect::<Vec<_>>(), order);
    assert_eq!(r.new_domains, order);
    assert_eq!(r.new_apps.iter().map(|a| a.id.as_str()).collect::<Vec<_>>(), order);
    let far: Vec<&str> = r.new_endpoints.iter().map(|e| e.foreign_addr.as_str()).collect();
    assert_eq!(far, vec!["9.9.9.5.443", "9.9.9.6.443", "9.9.9.4.443"]);
    assert_eq!(format!("{:?}", r.clone()), format!("{r:?}"));
    let none = NoveltyReport::default();
    assert!(none.new_processes.is_empty() && none.new_domains.is_empty() && none.oldest_first_seen_unix_ns.is_none());
}

#[test]
fn reports_start_at_zero() {
    let m = MergeReport::default();
    assert_eq!((m.nodes_inserted, m.nodes_updated, m.edges_inserted, m.edges_updated), (0, 0, 0, 0));
    let p = PruneReport::default();
    assert_eq!((p.nodes_deleted, p.edges_deleted, p.events_deleted), (0, 0, 0));
    let empty = StoreSummary::default();
    assert!(empty.node_counts.is_empty() && empty.edge_counts.is_empty() && empty.event_count == 0);
    let mut s = Store::open_in_memory().unwrap();
    s.merge_graph(&small_graph()).unwrap();
    let full = s.summary().unwrap();
    assert!(!full.node_counts.is_empty());
    assert_eq!(format!("{:?}", full.clone()), format!("{full:?}"));
}
