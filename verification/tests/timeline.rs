//! The facts of a window, and how they are told.

use agentworld::agents::{AgentConfig, Report};
use agentworld::capture::{summarize_capture, CaptureSummary, NoveltySummary};
use agentworld::events::{Event, EventKind, SCHEMA_VERSION};
use agentworld::ip::foreign_port;
use agentworld::json::Json;
use agentworld::json_parse::parse_json;
use agentworld::llm::MockClient;
use agentworld::narrator::{humanize_duration, TimelineNarrator};
use agentworld::observation::Timestamp;
use agentworld::store_history::{NewApp, NewEndpoint, NewProcessIdentity, NoveltyReport};
use agentworld::timeline::directory_bucket;

fn j(text: &str) -> Json {
    parse_json(text).expect("a JSON document")
}

fn narrate(agent: &TimelineNarrator, mock: &mut MockClient, summary: &CaptureSummary) -> Report {
    let reply = mock.generate(agent.request(summary));
    agent.report(summary, &reply)
}

fn ev(kind: EventKind, mono_ms: u64, pid: Option<u32>, payload: Json) -> Event {
    Event {
        schema_version: SCHEMA_VERSION,
        timestamp: Timestamp {
            mono_ns: mono_ms * 1_000_000,
            wall_anchor_ns: 0,
        },
        kind,
        pid,
        payload,
    }
}

#[test]
fn humanize_duration_renders_seconds_minutes_hours() {
    assert_eq!(humanize_duration(0), "0s");
    assert_eq!(humanize_duration(45), "45s");
    assert_eq!(humanize_duration(60), "1m");
    assert_eq!(humanize_duration(125), "2m5s");
    assert_eq!(humanize_duration(3600), "1h");
    assert_eq!(humanize_duration(3725), "1h2m");
}

#[test]
fn directory_bucket_truncates_to_four_components() {
    assert_eq!(
        directory_bucket("/Users/me/Projects/agentworld/.git/FETCH_HEAD"),
        "/Users/me/Projects/agentworld",
    );
    // Shorter path is unchanged.
    assert_eq!(directory_bucket("/tmp/x"), "/tmp/x");
}

#[test]
fn focus_segments_use_next_focus_or_capture_end_as_boundary() {
    // VS Code at t=10s, Chrome at t=70s, capture ends at t=100s.
    let events = vec![
        ev(
            EventKind::AppFocus,
            10_000,
            None,
            j(r#"{"to_name": "Code", "to_bundle_id": "com.microsoft.VSCode"}"#),
        ),
        ev(
            EventKind::AppFocus,
            70_000,
            None,
            j(r#"{"to_name": "Chrome", "to_bundle_id": "com.google.Chrome"}"#),
        ),
        // A non-focus event at t=100s extends capture span.
        ev(EventKind::ProcessBirth, 100_000, None, j(r#"{"comm": "x"}"#)),
    ];
    let s = summarize_capture(&events);
    assert_eq!(s.focus_segments.len(), 2);
    assert_eq!(s.focus_segments[0].app_name, "Code");
    assert_eq!(s.focus_segments[0].duration_secs, 60); // 70 - 10
    assert_eq!(s.focus_segments[1].app_name, "Chrome");
    assert_eq!(s.focus_segments[1].duration_secs, 30); // 100 - 70 (capture end)
}

#[test]
fn top_processes_filters_noisy_daemons() {
    let events = vec![
        ev(
            EventKind::ProcessBirth,
            0,
            None,
            j(r#"{"comm": "mdworker_shared"}"#),
        ),
        ev(
            EventKind::ProcessBirth,
            1,
            None,
            j(r#"{"comm": "mdworker_shared"}"#),
        ),
        ev(
            EventKind::ProcessBirth,
            2,
            None,
            j(r#"{"comm": "mdworker_shared"}"#),
        ),
        ev(EventKind::ProcessBirth, 3, None, j(r#"{"comm": "git"}"#)),
        ev(EventKind::ProcessBirth, 4, None, j(r#"{"comm": "git"}"#)),
        ev(EventKind::ProcessBirth, 5, None, j(r#"{"comm": "bash"}"#)),
    ];
    let s = summarize_capture(&events);
    let names: Vec<&str> = s.top_processes.iter().map(|p| p.comm.as_str()).collect();
    assert!(
        !names.contains(&"mdworker_shared"),
        "noisy daemon should be filtered: {names:?}"
    );
    assert!(names.contains(&"git"));
    assert!(names.contains(&"bash"));
    // Sorted by spawn count desc: git (2) before bash (1).
    assert_eq!(s.top_processes[0].comm, "git");
}

#[test]
fn top_endpoints_sorted_by_byte_total() {
    let events = vec![
        ev(
            EventKind::ConnectionCompleted,
            0,
            None,
            j(r#"{ "foreign_addr": "1.1.1.1.443", "process_name": "curl", "bytes_rx": 100, "bytes_tx": 50 }"#),
        ),
        ev(
            EventKind::ConnectionCompleted,
            1,
            None,
            j(r#"{ "foreign_addr": "2.2.2.2.443", "process_name": "chrome", "bytes_rx": 5000, "bytes_tx": 200 }"#),
        ),
    ];
    let s = summarize_capture(&events);
    assert_eq!(s.top_endpoints.len(), 2);
    assert_eq!(s.top_endpoints[0].foreign_addr, "2.2.2.2.443");
    assert_eq!(s.top_endpoints[0].bytes_total, 5200);
}

#[test]
fn dns_clients_count_unique_names_and_queries() {
    let events = vec![
        ev(
            EventKind::DnsQuery,
            0,
            None,
            j(r#"{"client_process_name": "git", "name_hash": "aa"}"#),
        ),
        ev(
            EventKind::DnsQuery,
            1,
            None,
            j(r#"{"client_process_name": "git", "name_hash": "aa"}"#),
        ),
        ev(
            EventKind::DnsQuery,
            2,
            None,
            j(r#"{"client_process_name": "git", "name_hash": "bb"}"#),
        ),
        ev(
            EventKind::DnsQuery,
            3,
            None,
            j(r#"{"client_process_name": "Zoom", "name_hash": "cc"}"#),
        ),
    ];
    let s = summarize_capture(&events);
    let git = s
        .top_dns_clients
        .iter()
        .find(|c| c.process_name == "git")
        .unwrap();
    assert_eq!(git.unique_names, 2);
    assert_eq!(git.total_queries, 3);
}

#[test]
fn narrator_prompt_contains_aggregated_facts_not_raw_events() {
    let mut mock = MockClient::new(vec!["You spent 1m on Code."]);
    let agent = TimelineNarrator::new(AgentConfig::default());

    let events = vec![
        ev(
            EventKind::AppFocus,
            0,
            None,
            j(r#"{"to_name": "Code", "to_bundle_id": "com.microsoft.VSCode"}"#),
        ),
        ev(
            EventKind::ProcessBirth,
            30_000,
            None,
            j(r#"{"comm": "git"}"#),
        ),
        ev(
            EventKind::ConnectionCompleted,
            60_000,
            None,
            j(r#"{ "foreign_addr": "140.82.112.4.443", "process_name": "git-remote-http", "bytes_rx": 8000, "bytes_tx": 1000 }"#),
        ),
    ];
    let report = narrate(&agent, &mut mock, &summarize_capture(&events));
    assert_eq!(report.summary, "You spent 1m on Code.");

    let prompt = &mock.calls()[0].prompt;
    // Aggregated facts must appear:
    assert!(prompt.contains("APP FOCUS"), "prompt: {prompt}");
    assert!(prompt.contains("Code"), "prompt: {prompt}");
    assert!(prompt.contains("TOP NETWORK ENDPOINTS"), "prompt: {prompt}");
    assert!(prompt.contains("140.82.112.4.443"), "prompt: {prompt}");
    // No raw event stream.
    assert!(!prompt.contains("EVENTS:"), "raw events in the prompt");
    // Details should be the structured CaptureSummary, not just counts.
    assert!(report.details.get("focus_segments").is_some());
    assert!(report.details.get("top_endpoints").is_some());
}

#[test]
fn kind_counts_cover_every_kind_present() {
    let events = vec![
        ev(EventKind::ProcessBirth, 0, Some(9), j(r#"{"comm": "x"}"#)),
        ev(EventKind::ProcessDeath, 1, Some(9), j(r#"{"comm": "x"}"#)),
        ev(EventKind::FileChanged, 2, None, j(r#"{"path": "/tmp/a"}"#)),
        ev(EventKind::FileChanged, 3, None, j(r#"{"path": "/tmp/b"}"#)),
    ];
    let s = summarize_capture(&events);
    assert!(
        s.kind_counts.contains(&("process_death".to_string(), 1)),
        "{:?}",
        s.kind_counts
    );
    assert!(
        s.kind_counts.contains(&("file_changed".to_string(), 2)),
        "{:?}",
        s.kind_counts
    );
}

#[test]
fn still_open_connections_appear_without_double_counting_completed() {
    let events = vec![
        // Opens and completes in-window — must count once, via completed.
        ev(
            EventKind::ConnectionOpened,
            0,
            None,
            j(r#"{ "foreign_addr": "1.1.1.1.443", "process_name": "curl", "rxbytes": 10, "txbytes": 10 }"#),
        ),
        ev(
            EventKind::ConnectionCompleted,
            5,
            None,
            j(r#"{ "foreign_addr": "1.1.1.1.443", "process_name": "curl", "bytes_rx": 100, "bytes_tx": 50 }"#),
        ),
        // Opens and never completes — still alive at window end.
        ev(
            EventKind::ConnectionOpened,
            6,
            None,
            j(r#"{ "foreign_addr": "9.9.9.9.8443", "process_name": "agentd", "rxbytes": 5, "txbytes": 5 }"#),
        ),
    ];
    let s = summarize_capture(&events);
    let completed = s
        .top_endpoints
        .iter()
        .find(|e| e.foreign_addr == "1.1.1.1.443")
        .unwrap();
    assert_eq!(
        completed.bytes_total, 150,
        "opened snapshot must not be added on top"
    );
    assert!(!completed.still_open);
    let open = s
        .top_endpoints
        .iter()
        .find(|e| e.foreign_addr == "9.9.9.9.8443")
        .unwrap();
    assert!(open.still_open);
    assert_eq!(open.bytes_total, 10);
}

#[test]
fn unmasked_qnames_become_example_names_masked_stay_out() {
    let events = vec![
        ev(
            EventKind::DnsQuery,
            0,
            None,
            j(r#"{ "client_process_name": "git", "name_hash": "aa", "qname": "github.com.", "masked": false }"#),
        ),
        ev(
            EventKind::DnsQuery,
            1,
            None,
            j(r#"{ "client_process_name": "git", "name_hash": "bb", "qname": "hash:deadbeef", "masked": true }"#),
        ),
    ];
    let s = summarize_capture(&events);
    let git = s
        .top_dns_clients
        .iter()
        .find(|c| c.process_name == "git")
        .unwrap();
    assert_eq!(
        git.example_names,
        vec!["github.com"],
        "trailing dot stripped, masked excluded"
    );
}

#[test]
fn foreign_port_requires_a_well_formed_ip_prefix() {
    assert_eq!(foreign_port("140.82.112.4.443"), Some(443));
    assert_eq!(foreign_port("2607:f8b0::200e.443"), Some(443));
    assert_eq!(foreign_port("1.2.3.4"), None, "bare IPv4 has no port");
    assert_eq!(foreign_port("example.com"), None);
}

#[test]
fn event_suspicions_flag_sensitive_ports_and_short_lived_bursts() {
    let mut events = vec![ev(
        EventKind::ConnectionCompleted,
        0,
        None,
        j(r#"{ "foreign_addr": "10.0.0.5.22", "process_name": "nc", "bytes_rx": 1, "bytes_tx": 1 }"#),
    )];
    // 5 short-lived 'payload' processes: born at t, dead 2s later.
    for i in 0..5u64 {
        let pid = Some(700 + i as u32);
        events.push(ev(
            EventKind::ProcessBirth,
            10_000 + i,
            pid,
            j(r#"{"comm": "payload"}"#),
        ));
        events.push(ev(
            EventKind::ProcessDeath,
            12_000 + i,
            pid,
            j(r#"{"comm": "payload"}"#),
        ));
    }
    let s = summarize_capture(&events);
    let joined = s.suspicions.join("\n");
    assert!(
        joined.contains("'nc' connected to 10.0.0.5.22 — port 22 (ssh)"),
        "{joined}"
    );
    assert!(
        joined.contains("burst of short-lived processes: 5 'payload'"),
        "{joined}"
    );
}

#[test]
fn novelty_from_report_renders_strings_and_respects_cold_baseline() {
    let report = NoveltyReport {
        new_processes: vec![NewProcessIdentity {
            comm: Some("miner".into()),
            exec_path: Some("/tmp/miner".into()),
            first_seen_unix_ns: 1,
            instances: 3,
        }],
        new_domains: vec!["evil.example".into()],
        new_endpoints: vec![NewEndpoint {
            foreign_addr: "6.6.6.6.443".into(),
            example_process: Some("miner".into()),
            first_seen_unix_ns: 1,
            socket_count: 1,
        }],
        new_apps: vec![NewApp {
            id: "com.x.y".into(),
            name: Some("Y".into()),
        }],
        oldest_first_seen_unix_ns: Some(0),
    };
    let nv = NoveltySummary::from_report(&report, false);
    assert_eq!(nv.new_processes, vec!["miner (/tmp/miner) — 3 runs"]);
    assert_eq!(nv.new_endpoints, vec!["6.6.6.6.443 (via miner)"]);
    assert_eq!(nv.new_apps, vec!["Y [com.x.y]"]);
    assert!(nv.has_novelty());

    let cold = NoveltySummary::from_report(&report, true);
    assert!(cold.baseline_cold);
    assert!(!cold.has_novelty(), "cold baseline must suppress the lists");
}

#[test]
fn prompt_leads_with_anomaly_flags_and_novelty() {
    let mut mock = MockClient::new(vec!["Something new appeared."]);
    let agent = TimelineNarrator::new(AgentConfig::default());

    let mut summary = summarize_capture(&[ev(
        EventKind::AppFocus,
        0,
        None,
        j(r#"{"to_name": "Code", "to_bundle_id": "com.microsoft.VSCode"}"#),
    )]);
    summary.novelty = Some(NoveltySummary {
        baseline_cold: false,
        new_processes: vec!["miner (/tmp/miner)".into()],
        new_domains: vec![],
        new_endpoints: vec![],
        new_apps: vec![],
    });
    summary.suspicions.push(
        "root process 'rooted' (pid 200, /tmp/rooted) is running under a non-root user parent"
            .into(),
    );

    let _ = narrate(&agent, &mut mock, &summary);
    let prompt = &mock.calls()[0].prompt;
    assert!(prompt.contains("ANOMALY FLAGS"), "prompt: {prompt}");
    assert!(prompt.contains("root process 'rooted'"), "prompt: {prompt}");
    assert!(
        prompt.contains("NEVER SEEN BEFORE ON THIS MACHINE"),
        "prompt: {prompt}"
    );
    assert!(
        prompt.contains("new process: miner (/tmp/miner)"),
        "prompt: {prompt}"
    );
    assert!(
        prompt.contains("Lead with the most significant anomaly"),
        "prompt: {prompt}"
    );
    // Anomalies must come before routine activity in the prompt.
    let flags_at = prompt.find("ANOMALY FLAGS").unwrap();
    let focus_at = prompt.find("APP FOCUS").unwrap();
    assert!(flags_at < focus_at, "flags should precede focus: {prompt}");
}

#[test]
fn prompt_reports_cold_baseline_instead_of_novelty_claims() {
    let mut mock = MockClient::new(vec!["Baseline warming up."]);
    let agent = TimelineNarrator::new(AgentConfig::default());
    let mut summary =
        summarize_capture(&[ev(EventKind::ProcessBirth, 0, None, j(r#"{"comm": "git"}"#))]);
    summary.novelty = Some(NoveltySummary {
        baseline_cold: true,
        ..Default::default()
    });
    let _ = narrate(&agent, &mut mock, &summary);
    let prompt = &mock.calls()[0].prompt;
    assert!(
        prompt.contains("baseline still warming up"),
        "prompt: {prompt}"
    );
    assert!(!prompt.contains("NEVER SEEN BEFORE"), "prompt: {prompt}");
}

#[test]
fn empty_events_still_produces_a_prompt_and_does_not_panic() {
    let mut mock = MockClient::new(vec!["Nothing happened."]);
    let agent = TimelineNarrator::new(AgentConfig::default());
    let report = narrate(&agent, &mut mock, &summarize_capture(&[]));
    assert_eq!(report.summary, "Nothing happened.");
    assert_eq!(
        report.details.get("events_total").and_then(|v| v.as_u64()),
        Some(0)
    );
}
