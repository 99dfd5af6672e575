//! Name lookups summed up and reviewed.

use agentworld::agents::{AgentConfig, Report};
use agentworld::dns_reviewer::{aggregate, read_findings, DnsReviewer};
use agentworld::events::{Event, EventKind, SCHEMA_VERSION};
use agentworld::json::Json;
use agentworld::json_parse::parse_json;
use agentworld::llm::MockClient;
use agentworld::observation::Timestamp;

fn j(text: &str) -> Json {
    parse_json(text).expect("a JSON document")
}

fn obj(fields: Vec<(&str, Json)>) -> Json {
    Json::Object(fields.into_iter().map(|(k, v)| (k.to_string(), v)).collect())
}

fn text(s: &str) -> Json {
    Json::Str(s.to_string())
}

fn review(agent: &DnsReviewer, mock: &mut MockClient, events: &[Event]) -> Report {
    let rows = aggregate(events);
    let reply = mock.generate(agent.request(&rows));
    agent.report(&rows, &reply)
}

fn query(qname: Option<&str>, qtype: &str, client: &str, masked: bool) -> Event {
    Event {
        schema_version: SCHEMA_VERSION,
        timestamp: Timestamp {
            mono_ns: 0,
            wall_anchor_ns: 0,
        },
        kind: EventKind::DnsQuery,
        pid: Some(42),
        payload: obj(vec![
            ("qname", qname.map(text).unwrap_or(Json::Null)),
            ("qtype", text(qtype)),
            ("name_hash", text("h1")),
            ("masked", Json::Bool(masked)),
            ("client_process_name", text(client)),
        ]),
    }
}

#[test]
fn aggregate_collapses_same_domain_and_client() {
    let evs = vec![
        query(Some("example.com."), "A", "curl", false),
        query(Some("example.com."), "AAAA", "curl", false),
        query(Some("example.com."), "A", "node", false),
    ];
    let aggs = aggregate(&evs);
    assert_eq!(aggs.len(), 2, "curl and node stay separate: {aggs:?}");
    let curl = aggs.iter().find(|a| a.client_process == "curl").unwrap();
    assert_eq!(curl.domain, "example.com");
    assert_eq!(curl.queries, 2);
    assert!(curl.qtypes.contains(&"A".to_string()));
    assert!(curl.qtypes.contains(&"AAAA".to_string()));
}

#[test]
fn aggregate_uses_hash_for_masked_queries() {
    let evs = vec![query(Some("<mask.hash: 'x'>"), "HTTPS", "Safari", true)];
    let aggs = aggregate(&evs);
    assert_eq!(aggs.len(), 1);
    assert_eq!(aggs[0].domain, "hash:h1");
    assert!(aggs[0].masked);
}

#[test]
fn aggregate_prefers_enriched_process_comm() {
    let mut ev = query(Some("example.com."), "A", "mDNSResponder-relay", false);
    if let Json::Object(fields) = &mut ev.payload {
        fields.push(("process".into(), j(r#"{ "pid": 42, "comm": "curl" }"#)));
    }
    let aggs = aggregate(&[ev]);
    assert_eq!(aggs[0].client_process, "curl");
}

#[test]
fn aggregate_sorts_busiest_first_and_ignores_other_kinds() {
    let mut evs = vec![
        query(Some("quiet.example."), "A", "curl", false),
        query(Some("busy.example."), "A", "curl", false),
        query(Some("busy.example."), "A", "curl", false),
    ];
    evs.push(Event {
        schema_version: SCHEMA_VERSION,
        timestamp: Timestamp {
            mono_ns: 0,
            wall_anchor_ns: 0,
        },
        kind: EventKind::FileChanged,
        pid: None,
        payload: j(r#"{}"#),
    });
    let aggs = aggregate(&evs);
    assert_eq!(aggs.len(), 2);
    assert_eq!(aggs[0].domain, "busy.example");
    assert_eq!(aggs[0].queries, 2);
}

#[test]
fn dns_reviewer_reviewer_parses_json_response() {
    let json = r#"{"summary":"nothing notable","findings":[]}"#;
    let mut mock = MockClient::new(vec![json]);
    let agent = DnsReviewer::new(AgentConfig::default());
    let evs = vec![query(Some("example.com."), "A", "curl", false)];
    let report = review(&agent, &mut mock, &evs);
    assert_eq!(report.summary, "nothing notable");
    assert_eq!(
        report
            .details
            .get("domains_unique")
            .and_then(|v| v.as_u64()),
        Some(1)
    );
}

#[test]
fn reviewer_survives_malformed_llm_output() {
    let mut mock = MockClient::new(vec!["not json at all"]);
    let agent = DnsReviewer::new(AgentConfig::default());
    let evs = vec![query(Some("example.com."), "A", "curl", false)];
    let report = review(&agent, &mut mock, &evs);
    assert_eq!(report.summary, "not json at all");
    let findings = report
        .details
        .get("findings")
        .and_then(|v| v.as_array())
        .unwrap();
    assert!(findings.is_empty());
}

#[test]
fn findings_need_a_domain() {
    let good = parse_json(
        r#"{"summary": "s", "findings": [{"domain": "a.com", "reason": "r", "severity": "low"}]}"#,
    )
    .unwrap();
    let (summary, findings) = read_findings(&good).unwrap();
    assert_eq!(summary, "s");
    assert_eq!(findings[0].domain, "a.com");
    assert_eq!(findings[0].client_process, None);
    let bad = parse_json(r#"{"summary": "s", "findings": [{"reason": "r", "severity": "low"}]}"#);
    assert!(read_findings(&bad.unwrap()).is_none());
    let agent = DnsReviewer::new(AgentConfig::default());
    let report = agent.report_of(&Vec::new(), None, "raw", "m");
    assert_eq!(report.summary, "raw");
    assert!(matches!(report.details.get("domains_unique"), Some(Json::U64(0))));
}

#[test]
fn a_verdict_that_names_a_field_twice_is_taken_as_text() {
    let agent = DnsReviewer::new(AgentConfig::default());
    let events = vec![query(Some("example.com."), "A", "curl", false)];
    let fine = r#"{"summary": "s", "findings": [{"domain": "d", "client_process": null, "reason": "r", "severity": "low"}]}"#;
    let report = review(&agent, &mut MockClient::new(vec![fine]), &events);
    assert_eq!(report.summary, "s");
    let same = report.clone();
    assert_eq!((same.summary.as_str(), same.model.as_str()), ("s", report.model.as_str()));
    for twice in [
        r#"{"summary": "s", "summary": "t", "findings": []}"#,
        r#"{"summary": "s", "findings": [{"domain": "d", "domain": "d", "reason": "r", "severity": "low"}]}"#,
    ] {
        let report = review(&agent, &mut MockClient::new(vec![twice]), &events);
        assert_eq!(report.summary, twice);
    }
}
