//! Changes of the graph's shape.

use agentworld::graph::{Edge, Graph, ProcessId, ProcessNode};
use agentworld::observation::Timestamp;
use agentworld::topology::score_snapshot_diff;

fn ts(n: u64) -> Timestamp {
    Timestamp {
        mono_ns: n,
        wall_anchor_ns: 0,
    }
}

fn pid(n: u32) -> ProcessId {
    ProcessId {
        pid: n,
        start_unix_secs: 1,
    }
}

fn process_node(id: ProcessId, ppid: Option<u32>) -> ProcessNode {
    ProcessNode {
        id,
        comm: Some("proc".into()),
        name: None,
        exec_path: None,
        ppid,
        uid: Some(501),
        birth: ts(0),
        death: None,
    }
}

fn empty_graph() -> Graph {
    Graph::default()
}

#[test]
fn no_diff_produces_no_scores() {
    let g = Graph {
        processes: vec![process_node(pid(1), None), process_node(pid(2), Some(1))],
        edges: vec![Edge::ParentOf {
            parent: pid(1),
            child: pid(2),
        }],
        ..empty_graph()
    };
    let scores = score_snapshot_diff(&g, &g);
    assert!(scores.is_empty(), "identical snapshots: {scores:?}");
}

#[test]
fn new_component_is_flagged() {
    let prev = empty_graph();
    let curr = Graph {
        processes: vec![process_node(pid(1), None), process_node(pid(2), Some(1))],
        edges: vec![Edge::ParentOf {
            parent: pid(1),
            child: pid(2),
        }],
        ..empty_graph()
    };
    let scores = score_snapshot_diff(&prev, &curr);
    assert!(
        scores.iter().any(|s| s.metric == "new_component"),
        "expected new_component flag: {scores:?}"
    );
}

#[test]
fn degree_spike_is_flagged() {
    // pid(1) goes from parent-of-none to parent-of-6 children.
    let prev = Graph {
        processes: vec![process_node(pid(1), None)],
        ..empty_graph()
    };
    let mut curr_processes = vec![process_node(pid(1), None)];
    let mut edges = Vec::new();
    for i in 2..8 {
        curr_processes.push(process_node(pid(i), Some(1)));
        edges.push(Edge::ParentOf {
            parent: pid(1),
            child: pid(i),
        });
    }
    let curr = Graph {
        processes: curr_processes,
        edges,
        ..empty_graph()
    };
    let scores = score_snapshot_diff(&prev, &curr);
    assert!(
        scores.iter().any(|s| s.metric == "degree_spike"),
        "expected degree_spike flag: {scores:?}"
    );
}

#[test]
fn small_degree_change_not_flagged() {
    let prev = Graph {
        processes: vec![process_node(pid(1), None), process_node(pid(2), Some(1))],
        edges: vec![Edge::ParentOf {
            parent: pid(1),
            child: pid(2),
        }],
        ..empty_graph()
    };
    let curr = Graph {
        processes: vec![
            process_node(pid(1), None),
            process_node(pid(2), Some(1)),
            process_node(pid(3), Some(1)),
        ],
        edges: vec![
            Edge::ParentOf {
                parent: pid(1),
                child: pid(2),
            },
            Edge::ParentOf {
                parent: pid(1),
                child: pid(3),
            },
        ],
        ..empty_graph()
    };
    let scores = score_snapshot_diff(&prev, &curr);
    assert!(
        !scores.iter().any(|s| s.metric == "degree_spike"),
        "small delta should not spike: {scores:?}"
    );
}

fn chain(links: &[(u32, u32)]) -> Graph {
    Graph {
        processes: [1, 2, 10, 20].iter().map(|n| process_node(pid(*n), None)).collect(),
        edges: links
            .iter()
            .map(|(a, b)| Edge::ParentOf { parent: pid(*a), child: pid(*b) })
            .collect(),
        ..empty_graph()
    }
}

#[test]
fn clusters_that_became_one_are_flagged() {
    let apart = chain(&[(1, 2), (10, 20)]);
    let joined = chain(&[(1, 2), (10, 20), (2, 10)]);
    let scores = score_snapshot_diff(&apart, &joined);
    assert_eq!(scores.len(), 1, "{scores:?}");
    assert_eq!(scores[0].metric, "component_merge");
    assert_eq!((scores[0].observed, scores[0].baseline, scores[0].score), (2, 1, 2));
    assert!(scores[0].text.contains("merged into one"));
}

#[test]
fn a_cluster_that_fell_apart_is_no_merge() {
    let apart = chain(&[(1, 2), (10, 20)]);
    let joined = chain(&[(1, 2), (10, 20), (2, 10)]);
    assert!(score_snapshot_diff(&joined, &apart).is_empty());
}
