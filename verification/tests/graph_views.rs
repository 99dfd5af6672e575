//! The shape of a graph, and how it is drawn.

use agentworld::analytics::{
    component_sizes, connected_components, degree_centrality, same_node, weighted_degree_centrality,
    Adjacency, NodeRef,
};
use agentworld::dot::{escape, to_dot};
use agentworld::graph::{
    AppNode, DomainNode, Edge, FileNode, Graph, Interval, ProcessId, ProcessNode, SocketId, SocketNode,
};
use agentworld::observation::Timestamp;

fn at(v: &[(NodeRef, u64)], n: &NodeRef) -> u64 {
    v.iter().find(|(m, _)| same_node(m, n)).expect("node present").1
}

fn ts(n: u64) -> Timestamp {
    Timestamp {
        mono_ns: n,
        wall_anchor_ns: 0,
    }
}

fn pid(n: u32) -> ProcessId {
    ProcessId {
        pid: n,
        start_unix_secs: 1,
    }
}

fn process_node(id: ProcessId, ppid: Option<u32>) -> ProcessNode {
    ProcessNode {
        id,
        comm: Some("proc".into()),
        name: None,
        exec_path: None,
        ppid,
        uid: Some(501),
        birth: ts(0),
        death: None,
    }
}

#[test]
fn degree_centrality_counts_distinct_neighbors() {
    // parent(1) -> child(2), child(2) -> child(3): a chain.
    let graph = Graph {
        processes: vec![
            process_node(pid(1), None),
            process_node(pid(2), Some(1)),
            process_node(pid(3), Some(2)),
        ],
        apps: vec![],
        sockets: vec![],
        files: vec![],
        domains: vec![],
        edges: vec![
            Edge::ParentOf {
                parent: pid(1),
                child: pid(2),
            },
            Edge::ParentOf {
                parent: pid(2),
                child: pid(3),
            },
        ],
    };
    let adj = Adjacency::from_graph(&graph);
    let degree = degree_centrality(&adj);
    assert_eq!(at(&degree, &NodeRef::Process(pid(1))), 1);
    assert_eq!(at(&degree, &NodeRef::Process(pid(2))), 2);
    assert_eq!(at(&degree, &NodeRef::Process(pid(3))), 1);
}

#[test]
fn weighted_degree_sums_edge_counts() {
    let graph = Graph {
        processes: vec![process_node(pid(1), None)],
        apps: vec![],
        sockets: vec![],
        files: vec![],
        domains: vec![DomainNode {
            name: "example.com".into(),
            qtypes: vec![],
            masked: false,
            first_seen: ts(0),
            last_seen: ts(0),
            query_count: 5,
        }],
        edges: vec![Edge::QueriedDomain {
            process: pid(1),
            domain: "example.com".into(),
            count: 5,
        }],
    };
    let adj = Adjacency::from_graph(&graph);
    let weighted = weighted_degree_centrality(&adj);
    assert_eq!(at(&weighted, &NodeRef::Process(pid(1))), 5);
    assert_eq!(at(&weighted, &NodeRef::Domain("example.com".into())), 5);
    // Unweighted degree is still 1 distinct neighbor each.
    let degree = degree_centrality(&adj);
    assert_eq!(at(&degree, &NodeRef::Process(pid(1))), 1);
}

#[test]
fn connected_components_splits_disjoint_clusters() {
    // Two disjoint parent->child pairs: (1->2) and (10->20).
    let graph = Graph {
        processes: vec![
            process_node(pid(1), None),
            process_node(pid(2), Some(1)),
            process_node(pid(10), None),
            process_node(pid(20), Some(10)),
        ],
        apps: vec![],
        sockets: vec![],
        files: vec![],
        domains: vec![],
        edges: vec![
            Edge::ParentOf {
                parent: pid(1),
                child: pid(2),
            },
            Edge::ParentOf {
                parent: pid(10),
                child: pid(20),
            },
        ],
    };
    let adj = Adjacency::from_graph(&graph);
    let components = connected_components(&adj);
    assert_eq!(components.len(), 2);
    let mut sizes = component_sizes(&components);
    sizes.sort_unstable();
    assert_eq!(sizes, vec![2, 2]);
}

#[test]
fn isolated_node_is_its_own_component() {
    let graph = Graph {
        processes: vec![process_node(pid(1), None)],
        apps: vec![],
        sockets: vec![],
        files: vec![FileNode {
            path: "/tmp/isolated".into(),
            flags: vec![],
            first_seen: ts(0),
            last_seen: ts(0),
            touch_count: 1,
        }],
        domains: vec![],
        edges: vec![],
    };
    let adj = Adjacency::from_graph(&graph);
    let components = connected_components(&adj);
    assert_eq!(components.len(), 2);
    assert!(component_sizes(&components).iter().all(|&s| s == 1));
}

#[test]
fn label_uses_comm_and_pid_for_processes() {
    let graph = Graph {
        processes: vec![process_node(pid(42), None)],
        apps: vec![],
        sockets: vec![],
        files: vec![],
        domains: vec![],
        edges: vec![],
    };
    let node = NodeRef::Process(pid(42));
    assert_eq!(node.label(&graph), "proc (pid 42)");
}

#[test]
fn renders_minimal_graph() {
    let parent_id = ProcessId { pid: 1, start_unix_secs: 100 };
    let child_id = ProcessId { pid: 200, start_unix_secs: 101 };
    let g = Graph {
        processes: vec![
            ProcessNode {
                id: parent_id,
                comm: Some("init".into()),
                name: None,
                exec_path: Some("/sbin/init".into()),
                ppid: None,
                uid: Some(0),
                birth: ts(10),
                death: None,
            },
            ProcessNode {
                id: child_id,
                comm: Some("shell".into()),
                name: None,
                exec_path: Some("/bin/zsh".into()),
                ppid: Some(1),
                uid: Some(501),
                birth: ts(20),
                death: None,
            },
        ],
        apps: vec![AppNode {
            id: "com.apple.Terminal".into(),
            name: Some("Terminal".into()),
            exec_path: Some("/Applications/Terminal.app/Contents/MacOS/Terminal".into()),
            intervals: vec![Interval { from: ts(15), to: None }],
        }],
        sockets: vec![],
        files: vec![],
        domains: vec![],
        edges: vec![
            Edge::ParentOf { parent: parent_id, child: child_id },
            Edge::FrontmostDuring {
                app: "com.apple.Terminal".into(),
                process: child_id,
                overlap: Interval { from: ts(20), to: None },
            },
        ],
    };

    let dot = to_dot(&g);
    assert!(dot.starts_with("digraph agentworld {"));
    assert!(dot.contains("\"p_1_100\""), "missing parent node id: {dot}");
    assert!(dot.contains("\"p_200_101\""), "missing child node id");
    assert!(dot.contains("\"a_com.apple.Terminal\""));
    assert!(dot.contains("\"p_1_100\" -> \"p_200_101\""));
    assert!(dot.contains("\"a_com.apple.Terminal\" -> \"p_200_101\""));
    assert!(dot.contains("style=dashed"));
    // root colour applied to pid 1 (uid 0)
    assert!(dot.contains("#ffd0d0"));
    // user colour applied to pid 200 (uid 501)
    assert!(dot.contains("#d0e6ff"));
}

#[test]
fn renders_sockets_files_and_opened_socket_edge() {
    let proc_id = ProcessId { pid: 100, start_unix_secs: 1 };
    let sock_id = SocketId {
        proto: "tcp4".into(),
        local_addr: "10.0.0.1.50000".into(),
        foreign_addr: "1.2.3.4.443".into(),
    };
    let g = Graph {
        processes: vec![ProcessNode {
            id: proc_id,
            comm: Some("curl".into()),
            name: None,
            exec_path: Some("/usr/bin/curl".into()),
            ppid: None,
            uid: Some(501),
            birth: ts(10),
            death: None,
        }],
        apps: vec![],
        sockets: vec![SocketNode {
            id: sock_id.clone(),
            state: Some("ESTABLISHED".into()),
            process_name: Some("curl".into()),
            pid_at_open: Some(100),
            opened: ts(11),
            closed: None,
            rxbytes_last: Some(0),
            txbytes_last: Some(0),
        }],
        files: vec![FileNode {
            path: "/tmp/output.txt".into(),
            flags: vec!["created".into(), "is_file".into()],
            first_seen: ts(12),
            last_seen: ts(13),
            touch_count: 2,
        }],
        domains: vec![],
        edges: vec![Edge::OpenedSocket { process: proc_id, socket: sock_id.clone() }],
    };
    let dot = to_dot(&g);
    assert!(dot.contains("shape=cylinder"), "missing cylinder for socket");
    assert!(dot.contains("shape=note"), "missing note for file");
    assert!(dot.contains("output.txt"), "missing file basename");
    assert!(dot.contains("\"p_100_1\" -> \"s_tcp4_"), "missing opened_socket edge: {dot}");
    assert!(dot.contains("#3a8a3a"), "missing green color for opened_socket edge");
}

#[test]
fn escapes_dangerous_chars_in_labels() {
    let id = ProcessId { pid: 7, start_unix_secs: 1 };
    let g = Graph {
        processes: vec![ProcessNode {
            id,
            comm: Some("weird \"name\" with\nnewline".into()),
            name: None,
            exec_path: Some("/tmp/with\"quote".into()),
            ppid: None,
            uid: Some(501),
            birth: ts(1),
            death: None,
        }],
        apps: vec![],
        sockets: vec![],
        files: vec![],
        domains: vec![],
        edges: vec![],
    };
    let dot = to_dot(&g);
    // No unescaped quote should appear inside the label="..." value.
    // The escaped sequence \" should appear instead.
    assert!(dot.contains("\\\"name\\\""));
    assert!(dot.contains("\\n"));
}

#[test]
fn repeated_edges_count_one_neighbour() {
    let edge = || Edge::ParentOf { parent: pid(1), child: pid(2) };
    let graph = Graph {
        processes: vec![process_node(pid(1), None), process_node(pid(2), Some(1))],
        edges: vec![edge(), edge()],
        ..Graph::default()
    };
    let adj = Adjacency::from_graph(&graph);
    assert_eq!(at(&degree_centrality(&adj), &NodeRef::Process(pid(1))), 1);
    assert_eq!(at(&weighted_degree_centrality(&adj), &NodeRef::Process(pid(1))), 2);
}

#[test]
fn escaped_texts_keep_their_quotes_inside() {
    assert_eq!(escape("a\"b\\c\nd"), "a\\\"b\\\\c\\nd");
    assert_eq!(escape("\\\""), "\\\\\\\"");
    assert_eq!(escape("plain"), "plain");
    assert_eq!(escape("a\"") + &escape("\nb"), escape("a\"\nb"));
}

#[test]
fn one_way_links_and_bare_neighbours_are_followed() {
    let n = |i: u32| NodeRef::Process(pid(i));
    // 1 links to 2, which has no entry of its own; 3 links to 1.
    let adj = Adjacency {
        neighbors: vec![(n(1), vec![(n(2), 1)]), (n(3), vec![(n(1), 1)]), (n(4), vec![])],
    };
    let parts = connected_components(&adj);
    let sizes = component_sizes(&parts);
    assert_eq!(sizes, vec![2, 1, 1]);
    assert!(same_node(&parts[0][0], &n(1)) && same_node(&parts[0][1], &n(2)));
    assert!(same_node(&parts[1][0], &n(3)));
    assert_eq!(sizes.iter().sum::<usize>(), 4);
}
