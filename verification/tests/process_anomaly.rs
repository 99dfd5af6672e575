//! Suspicious processes.

use std::collections::HashMap;

use agentworld::agents::{AgentConfig, Report};
use agentworld::graph::{Edge, Graph, ProcessId, ProcessNode};
use agentworld::llm::MockClient;
use agentworld::observation::Timestamp;
use agentworld::process_anomaly::{
    candidates_from_graph, candidates_from_store, suspicion_flags_from_store, AnomalyFinding, CandidateReason,
    ProcessAnomalyDetector, DEFAULT_TRUSTED_PATH_PREFIXES,
};
use agentworld::store::Store;

fn run(agent: &ProcessAnomalyDetector, mock: &mut MockClient, graph: &Graph) -> Report {
    let (req, candidates, total) = agent.request_for_graph(graph);
    let reply = mock.generate(req);
    agent.report(candidates, total, &reply)
}

fn run_from_store(agent: &ProcessAnomalyDetector, mock: &mut MockClient, store: &Store) -> Report {
    let (req, candidates, total) = agent.request_for_store(store).unwrap();
    let reply = mock.generate(req);
    agent.report(candidates, total, &reply)
}

fn proc(pid: u32, comm: &str, exec: &str, ppid: Option<u32>, uid: u32) -> ProcessNode {
    ProcessNode {
        id: ProcessId {
            pid,
            start_unix_secs: 1000 + pid as u64,
        },
        comm: Some(comm.into()),
        name: Some(comm.into()),
        exec_path: Some(exec.into()),
        ppid,
        uid: Some(uid),
        birth: Timestamp {
            mono_ns: pid as u64,
            wall_anchor_ns: 0,
        },
        death: None,
    }
}

fn parent_of(parent: &ProcessNode, child: &ProcessNode) -> Edge {
    Edge::ParentOf {
        parent: parent.id,
        child: child.id,
    }
}

/// Scenario: trusted root daemon, a user shell, a root child of the shell
/// (escalation), and a binary in /tmp owned by the user.
fn suspicious_graph() -> Graph {
    let init = proc(1, "launchd", "/sbin/launchd", None, 0);
    let shell = proc(100, "zsh", "/bin/zsh", Some(1), 501);
    let escalated = proc(200, "rooted", "/tmp/rooted", Some(100), 0);
    let weird = proc(300, "weird", "/tmp/weird", Some(100), 501);
    let curl = proc(400, "curl", "/usr/bin/curl", Some(100), 501);
    Graph {
        processes: vec![
            init.clone(),
            shell.clone(),
            escalated.clone(),
            weird.clone(),
            curl.clone(),
        ],
        apps: vec![],
        sockets: vec![],
        files: vec![],
        domains: vec![],
        edges: vec![
            parent_of(&init, &shell),
            parent_of(&shell, &escalated),
            parent_of(&shell, &weird),
            parent_of(&shell, &curl),
        ],
    }
}

#[test]
fn candidates_match_three_suspicion_signals() {
    let g = suspicious_graph();
    let prefixes: Vec<String> = DEFAULT_TRUSTED_PATH_PREFIXES
        .iter()
        .map(|s| s.to_string())
        .collect();
    let cs = candidates_from_graph(&g, &prefixes, 2); // threshold=2 → shell qualifies as prolific
    let by_pid: HashMap<u32, &Vec<CandidateReason>> =
        cs.iter().map(|(p, rs)| (p.id.pid, rs)).collect();

    // Escalation hit on both signals: root-under-user-parent AND /tmp path.
    let reasons_200 = by_pid
        .get(&200)
        .expect("escalated process missing from candidates");
    assert!(reasons_200.contains(&CandidateReason::RootUnderUserParent));
    assert!(reasons_200.contains(&CandidateReason::PathOutsideTrusted));

    // /tmp/weird hit on path only.
    let reasons_300 = by_pid
        .get(&300)
        .expect("weird process missing from candidates");
    assert_eq!(reasons_300, &&vec![CandidateReason::PathOutsideTrusted]);

    // Shell hit on prolific (3 children >= threshold 2).
    let reasons_100 = by_pid.get(&100).expect("shell missing from candidates");
    assert!(reasons_100.contains(&CandidateReason::ProlificParent(3)));

    // Curl in /usr/bin is fully trusted — not a candidate at all.
    assert!(
        !by_pid.contains_key(&400),
        "curl should not appear: {by_pid:?}"
    );
    // launchd in /sbin is trusted and not root-under-user — not a candidate.
    assert!(
        !by_pid.contains_key(&1),
        "launchd should not appear: {by_pid:?}"
    );
}

#[test]
fn detector_parses_json_response() {
    let json = r#"{"summary":"One thing looks odd.","findings":[{"pid":200,"comm":"rooted","exec_path":"/tmp/rooted","reason":"root under user shell","severity":"high"}]}"#;
    let mut mock = MockClient::new(vec![json]);
    let agent =
        ProcessAnomalyDetector::new(AgentConfig::default());
    let report = run(&agent, &mut mock, &suspicious_graph());
    assert_eq!(report.summary, "One thing looks odd.");
    let findings = report.details.get("findings").unwrap().as_array().unwrap();
    assert_eq!(findings.len(), 1);
    assert_eq!(findings[0].get("pid").and_then(|v| v.as_u64()), Some(200));
    assert_eq!(
        report.details.get("parse_error").and_then(|v| v.as_bool()),
        Some(false)
    );
}

#[test]
fn detector_falls_back_to_text_on_bad_json_and_flags_parse_error() {
    let mut mock = MockClient::new(vec!["not json at all"]);
    let agent =
        ProcessAnomalyDetector::new(AgentConfig::default());
    let report = run(&agent, &mut mock, &suspicious_graph());
    assert_eq!(report.summary, "not json at all");
    let findings = report.details.get("findings").unwrap().as_array().unwrap();
    assert!(findings.is_empty());
    assert_eq!(
        report.details.get("parse_error").and_then(|v| v.as_bool()),
        Some(true)
    );
}

#[test]
fn rendered_prompt_includes_reasons_and_parent_comm() {
    let mut mock = MockClient::new(vec![r#"{"summary":"ok","findings":[]}"#]);
    let agent =
        ProcessAnomalyDetector::new(AgentConfig::default());
    let _ = run(&agent, &mut mock, &suspicious_graph());
    let calls = mock.calls();
    assert_eq!(calls.len(), 1);
    let prompt = &calls[0].prompt;
    assert!(
        prompt.contains("parent_comm=zsh"),
        "prompt should resolve parent comm; got: {prompt}"
    );
    assert!(
        prompt.contains("root_under_user_parent"),
        "prompt should tag the escalation reason; got: {prompt}"
    );
    assert!(
        prompt.contains("path_outside_trusted"),
        "prompt should tag the trusted-path reason; got: {prompt}"
    );
}

#[test]
fn empty_candidates_uses_all_clear_prompt() {
    let mut mock = MockClient::new(vec![
        r#"{"summary":"all clear","findings":[]}"#,
    ]);
    let agent =
        ProcessAnomalyDetector::new(AgentConfig::default());
    // Graph with only trusted, non-suspicious processes.
    let init = proc(1, "launchd", "/sbin/launchd", None, 0);
    let curl = proc(2, "curl", "/usr/bin/curl", Some(1), 501);
    let g = Graph {
        processes: vec![init.clone(), curl.clone()],
        apps: vec![],
        sockets: vec![],
        files: vec![],
        domains: vec![],
        edges: vec![parent_of(&init, &curl)],
    };
    let report = run(&agent, &mut mock, &g);
    assert_eq!(report.summary, "all clear");
    assert_eq!(
        report
            .details
            .get("candidates_total")
            .and_then(|v| v.as_u64()),
        Some(0)
    );
    assert!(calls_contains(&mock.calls()[0].prompt, "None matched"));
}

fn calls_contains(prompt: &str, needle: &str) -> bool {
    prompt.contains(needle)
}

#[test]
fn suspicion_flags_render_all_three_heuristics_and_skip_sudo() {
    let mut g = suspicious_graph();
    // A root child named sudo under the user shell — the expected boring
    // escalation case, which must NOT produce a flag.
    let sudo = proc(500, "sudo", "/usr/bin/sudo", Some(100), 0);
    g.edges.push(parent_of(&g.processes[1].clone(), &sudo));
    g.processes.push(sudo);

    let mut store = Store::open_in_memory().unwrap();
    store.merge_graph(&g).unwrap();

    let trusted: Vec<&str> = DEFAULT_TRUSTED_PATH_PREFIXES.to_vec();
    let flags = suspicion_flags_from_store(&store, 0, &trusted, 2).unwrap();
    let joined = flags.join("\n");
    assert!(
        joined.contains("root process 'rooted'"),
        "escalation flag missing: {joined}"
    );
    assert!(!joined.contains("'sudo'"), "sudo must be exempt: {joined}");
    assert!(
        joined.contains("untrusted location: /tmp/rooted"),
        "path flag missing: {joined}"
    );
    assert!(
        joined.contains("untrusted location: /tmp/weird"),
        "path flag missing: {joined}"
    );
    assert!(
        joined.contains("'zsh' (pid 100) spawned 4 child processes"),
        "prolific flag missing: {joined}"
    );
}

#[test]
fn suspicion_flags_cap_noisy_categories() {
    let mut g = Graph {
        processes: vec![],
        apps: vec![],
        sockets: vec![],
        files: vec![],
        domains: vec![],
        edges: vec![],
    };
    for i in 0..10u32 {
        g.processes.push(proc(
            1000 + i,
            &format!("tool{i}"),
            &format!("/tmp/tool{i}"),
            None,
            501,
        ));
    }
    let mut store = Store::open_in_memory().unwrap();
    store.merge_graph(&g).unwrap();

    let trusted: Vec<&str> = DEFAULT_TRUSTED_PATH_PREFIXES.to_vec();
    let flags = suspicion_flags_from_store(&store, 0, &trusted, 8).unwrap();
    // 6 rendered + 1 overflow marker.
    assert_eq!(flags.len(), 7, "{flags:?}");
    assert!(
        flags
            .last()
            .unwrap()
            .contains("+4 more processes from untrusted paths"),
        "{flags:?}"
    );
}

#[test]
fn run_from_store_pulls_candidates_via_sql() {
    let mut store = Store::open_in_memory().unwrap();
    store.merge_graph(&suspicious_graph()).unwrap();

    let mut mock = MockClient::new(vec![r#"{"summary":"ok","findings":[]}"#]);
    // Drop the prolific threshold to 2 so the shell qualifies in this small fixture.
    let agent =
        ProcessAnomalyDetector::new(AgentConfig::default())
            .with_prolific_threshold(2);
    let report = run_from_store(&agent, &mut mock, &store);

    let prompt = &mock.calls()[0].prompt;
    assert!(
        prompt.contains("pid=200"),
        "escalation candidate should appear: {prompt}"
    );
    assert!(
        prompt.contains("pid=300"),
        "weird path candidate should appear: {prompt}"
    );
    assert!(
        prompt.contains("root_under_user_parent"),
        "reason tag missing: {prompt}"
    );
    assert_eq!(
        report
            .details
            .get("processes_total")
            .and_then(|v| v.as_u64()),
        Some(5)
    );
}

#[test]
fn a_report_shows_no_more_candidates_than_were_asked_about() {
    let mut config = AgentConfig::default();
    config.max_input_items = 3;
    let agent = ProcessAnomalyDetector::new(config);
    let finding = AnomalyFinding {
        pid: 200,
        comm: None,
        exec_path: Some("/tmp/x".into()),
        reason: "runs from /tmp".into(),
        severity: "high".into(),
    };
    let report = agent.report_of(5, 9, Some(("one".into(), vec![finding])), "raw", "m");
    let number = |k: &str| report.details.get(k).and_then(|v| v.as_u64());
    assert_eq!(report.summary, "one");
    assert_eq!(number("processes_total"), Some(9));
    assert_eq!(number("candidates_total"), Some(5));
    assert_eq!(number("candidates_shown"), Some(3));
    let findings = report.details.get("findings").unwrap().as_array().unwrap();
    assert_eq!(findings[0].get("pid").and_then(|v| v.as_u64()), Some(200));
}

#[test]
fn paths_under_trusted_prefixes_are_no_candidates() {
    let all = ProcessAnomalyDetector::new(AgentConfig::default())
        .with_trusted_prefixes(vec!["/".to_string()]);
    let (_, trusting, _) = all.request_for_graph(&suspicious_graph());
    let (_, wary, _) = ProcessAnomalyDetector::new(AgentConfig::default())
        .request_for_graph(&suspicious_graph());
    assert!(trusting < wary);
}

#[test]
fn children_of_a_reused_pid_are_told_apart() {
    let mut first = proc(100, "zsh", "/bin/zsh", None, 501);
    first.id.start_unix_secs = 1;
    let mut second = proc(100, "zsh", "/bin/zsh", None, 501);
    second.id.start_unix_secs = 2;
    let mut g = Graph { processes: vec![first.clone(), second.clone()], ..Graph::default() };
    for n in 0..8u32 {
        let child = proc(200 + n, "ls", "/bin/ls", Some(100), 501);
        let parent = if n < 4 { &first } else { &second };
        g.edges.push(parent_of(parent, &child));
        g.processes.push(child);
    }
    let trusted = vec!["/bin/".to_string()];
    assert!(candidates_from_graph(&g, &trusted, 8).is_empty());
    let four = candidates_from_graph(&g, &trusted, 4);
    assert_eq!(four.len(), 1);
    assert_eq!(four[0].1, vec![CandidateReason::ProlificParent(4)]);

    // An edge to a child that is no node counts for nothing.
    let stranger = proc(900, "ls", "/bin/ls", Some(100), 501);
    g.edges.push(parent_of(&first, &stranger));
    assert_eq!(candidates_from_graph(&g, &trusted, 4)[0].1, vec![CandidateReason::ProlificParent(4)]);

    let mut store = Store::open_in_memory().unwrap();
    store.merge_graph(&g).unwrap();
    assert!(candidates_from_store(&store, &trusted, 8).unwrap().is_empty());
    assert_eq!(
        candidates_from_store(&store, &trusted, 4).unwrap()[0].1,
        vec![CandidateReason::ProlificParent(4)]
    );
}
