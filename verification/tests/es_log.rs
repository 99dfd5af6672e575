//! Records of the endpoint-security log.

use agentworld::es_log::{parse_line, EsLoggerAdapter, EsLoggerConfig};
use agentworld::observation::{Source, Timestamp};

fn at() -> Timestamp {
    Timestamp { mono_ns: 1, wall_anchor_ns: 2 }
}

const SAMPLE_EXEC: &str = r#"{"event":{"exec":{"image_cputype":16777228,"target":{"audit_token":{"pid":43273}}}},"event_type":9,"action_type":1,"process":{"audit_token":{"pid":43273,"ppid":21417},"executable":{"path":"/bin/ls"}},"time":"2026-05-11T20:41:26Z","schema_version":1,"version":10}"#;

const SAMPLE_FORK: &str = r#"{"event":{"fork":{}},"event_type":2,"process":{"audit_token":{"pid":1000}},"time":"2026-05-11T20:41:26Z"}"#;

#[test]
fn parse_extracts_pid_from_audit_token() {
    let obs = parse_line(SAMPLE_EXEC, at()).expect("parses");
    assert_eq!(obs.pid, Some(43273));
    assert_eq!(obs.source, Source::Process);
}

#[test]
fn parse_preserves_full_record_in_payload() {
    let obs = parse_line(SAMPLE_FORK, at()).expect("parses");
    // Full payload echoes the input fields.
    assert!(obs
        .payload
        .get("event")
        .and_then(|v| v.get("fork"))
        .is_some());
    assert_eq!(obs.pid, Some(1000));
}

#[test]
fn parse_empty_returns_none() {
    assert!(parse_line("", at()).is_none());
    assert!(parse_line("   ", at()).is_none());
}

#[test]
fn parse_invalid_json_returns_none() {
    assert!(parse_line("not json", at()).is_none());
}

#[test]
fn pid_missing_when_audit_token_absent() {
    let obs = parse_line(r#"{"event":{"exit":{}}}"#, at()).expect("parses");
    assert_eq!(obs.pid, None);
}

#[test]
fn sources_start_with_the_events_of_a_process() {
    let adapter = EsLoggerAdapter::default();
    assert_eq!(adapter.config().events, ["exec", "fork", "exit"]);
    assert!(adapter.config().use_sudo);
    let config = EsLoggerConfig { events: vec!["open".into()], use_sudo: false };
    let copy = config.clone();
    assert_eq!((copy.events, copy.use_sudo), (config.events, false));
}
