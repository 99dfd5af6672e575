//! Conversations summed up and reviewed.

use agentworld::agents::{AgentConfig, Report};
use agentworld::events::{Event, EventKind, SCHEMA_VERSION};
use agentworld::json::Json;
use agentworld::llm::MockClient;
use agentworld::network_reviewer::{
    aggregate, read_findings, render_table, NetworkFinding, NetworkReviewer,
};
use agentworld::observation::Timestamp;

fn obj(fields: Vec<(&str, Json)>) -> Json {
    Json::Object(fields.into_iter().map(|(k, v)| (k.to_string(), v)).collect())
}

fn text(s: &str) -> Json {
    Json::Str(s.to_string())
}

fn review(agent: &NetworkReviewer, mock: &mut MockClient, events: &[Event]) -> Report {
    let rows = aggregate(events);
    let reply = mock.generate(agent.request(&rows));
    agent.report(&rows, &reply)
}

fn completed(foreign: &str, process: &str, rx: u64, tx: u64, dur_ms: u64) -> Event {
    Event {
        schema_version: SCHEMA_VERSION,
        timestamp: Timestamp { mono_ns: 0, wall_anchor_ns: 0 },
        kind: EventKind::ConnectionCompleted,
        pid: Some(1),
        payload: obj(vec![
            ("foreign_addr", text(foreign)),
            ("process_name", text(process)),
            ("bytes_rx", Json::U64(rx)),
            ("bytes_tx", Json::U64(tx)),
            ("duration_ns", Json::U64(dur_ms * 1_000_000)),
        ]),
    }
}

#[test]
fn aggregate_collapses_same_host_port_and_process() {
    let evs = vec![
        completed("1.2.3.4.443", "curl", 100, 50, 10),
        completed("1.2.3.4.443", "curl", 200, 50, 20),
        completed("9.9.9.9.80", "curl", 5, 5, 1),
    ];
    let aggs = aggregate(&evs);
    // 1.2.3.4:443 collapses into one row; 9.9.9.9:80 is its own row.
    let s = aggs.iter().find(|a| a.foreign_host == "1.2.3.4" && a.foreign_port == "443").unwrap();
    assert_eq!(s.connections, 2);
    assert_eq!(s.bytes_rx, 300);
    assert_eq!(s.bytes_tx, 100);
    // First row by sort order is the bigger one.
    assert_eq!(aggs[0].foreign_host, "1.2.3.4");
    assert_eq!(aggs[0].foreign_port, "443");
}

#[test]
fn aggregate_keeps_different_ports_separate() {
    // Same host, same process, different ports — must NOT collapse.
    // A shell talking to :22 is operationally very different from :443.
    let evs = vec![
        completed("1.2.3.4.443", "curl", 100, 50, 10),
        completed("1.2.3.4.22",  "curl", 7,   3,  1),
    ];
    let aggs = aggregate(&evs);
    assert_eq!(aggs.len(), 2, "different ports must stay separate; got {aggs:?}");
    assert!(aggs.iter().any(|a| a.foreign_port == "443"));
    assert!(aggs.iter().any(|a| a.foreign_port == "22"));
}

#[test]
fn rendered_table_includes_port() {
    let aggs = aggregate(&[completed("1.2.3.4.22", "ssh", 10, 10, 1)]);
    let table = render_table(&aggs);
    assert!(table.contains("port=22"), "rendered table must surface port; got: {table}");
}

#[test]
fn network_reviewer_reviewer_parses_json_response() {
    let json = r#"{"summary":"all clear","findings":[]}"#;
    let mut mock = MockClient::new(vec![json]);
    let agent = NetworkReviewer::new(AgentConfig::default());
    let evs = vec![completed("1.2.3.4.443", "curl", 100, 50, 10)];
    let report = review(&agent, &mut mock, &evs);
    assert_eq!(report.summary, "all clear");
    assert_eq!(report.details.get("conversations_unique").and_then(|v| v.as_u64()), Some(1));
}

#[test]
fn reviewer_ignores_non_completed_events() {
    let mut mock = MockClient::new(vec![r#"{"summary":"x","findings":[]}"#]);
    let agent = NetworkReviewer::new(AgentConfig::default());
    let evs = vec![Event {
        schema_version: SCHEMA_VERSION,
        timestamp: Timestamp { mono_ns: 0, wall_anchor_ns: 0 },
        kind: EventKind::DnsQuery, // not Completed
        pid: None,
        payload: obj(vec![]),
    }];
    let report = review(&agent, &mut mock, &evs);
    assert_eq!(report.details.get("conversations_unique").and_then(|v| v.as_u64()), Some(0));
}

#[test]
fn findings_are_read_whole_or_not_at_all() {
    let finding = obj(vec![
        ("foreign_host", text("1.2.3.4")),
        ("reason", text("odd port")),
        ("severity", text("low")),
    ]);
    let whole = obj(vec![("summary", text("one")), ("findings", Json::Array(vec![finding]))]);
    let (summary, findings) = read_findings(&whole).unwrap();
    assert_eq!(summary, "one");
    assert_eq!(findings.len(), 1);
    assert_eq!(findings[0].foreign_host, "1.2.3.4");
    assert_eq!(findings[0].process_name, None);
    let part = obj(vec![("foreign_host", text("1.2.3.4"))]);
    let partial = obj(vec![("summary", text("one")), ("findings", Json::Array(vec![part]))]);
    assert!(read_findings(&partial).is_none());
    assert!(read_findings(&obj(vec![("summary", text("one"))])).is_none());
}

#[test]
fn a_report_tells_what_was_sampled() {
    let mut config = AgentConfig::default();
    config.max_input_items = 1;
    let agent = NetworkReviewer::new(config);
    let rows = aggregate(&[
        completed("1.2.3.4.443", "curl", 100, 50, 10),
        completed("1.2.3.4.22", "curl", 7, 3, 1),
    ]);
    let finding = NetworkFinding {
        foreign_host: "1.2.3.4".into(),
        process_name: Some("curl".into()),
        reason: "odd port".into(),
        severity: "low".into(),
    };
    let read = agent.report_of(&rows, Some(("one".into(), vec![finding])), "raw", "m");
    assert_eq!((read.summary.as_str(), read.model.as_str()), ("one", "m"));
    assert!(matches!(read.details.get("conversations_unique"), Some(Json::U64(2))));
    assert!(matches!(read.details.get("conversations_sampled"), Some(Json::U64(1))));
    assert!(matches!(read.details.get("findings"), Some(Json::Array(a)) if a.len() == 1));
    let unread = agent.report_of(&rows, None, "raw", "m");
    assert_eq!(unread.summary, "raw");
    assert!(matches!(unread.details.get("findings"), Some(Json::Array(a)) if a.is_empty()));
}
