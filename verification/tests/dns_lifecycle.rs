//! Name lookups as events.

use agentworld::dns_lifecycle::{is_dns_query_observation, DnsLifecycle};
use agentworld::events::EventKind;
use agentworld::json::Json;
use agentworld::json_parse::parse_json;
use agentworld::observation::{Observation, Source, Timestamp};

fn j(text: &str) -> Json {
    parse_json(text).expect("a JSON document")
}

fn obj(fields: Vec<(&str, Json)>) -> Json {
    Json::Object(fields.into_iter().map(|(k, v)| (k.to_string(), v)).collect())
}

trait IntoJson {
    fn json(self) -> Json;
}

impl IntoJson for &str {
    fn json(self) -> Json {
        Json::Str(self.to_string())
    }
}

impl IntoJson for String {
    fn json(self) -> Json {
        Json::Str(self)
    }
}

impl IntoJson for u32 {
    fn json(self) -> Json {
        Json::U64(self as u64)
    }
}

impl IntoJson for u64 {
    fn json(self) -> Json {
        Json::U64(self)
    }
}

impl IntoJson for bool {
    fn json(self) -> Json {
        Json::Bool(self)
    }
}

impl IntoJson for Json {
    fn json(self) -> Json {
        self
    }
}

impl<T: IntoJson> IntoJson for Option<T> {
    fn json(self) -> Json {
        match self {
            Some(v) => v.json(),
            None => Json::Null,
        }
    }
}

impl IntoJson for &[&str] {
    fn json(self) -> Json {
        Json::Array(self.iter().map(|s| Json::Str(s.to_string())).collect())
    }
}

fn jv(v: impl IntoJson) -> Json {
    v.json()
}

fn ts(n: u64) -> Timestamp { Timestamp { mono_ns: n, wall_anchor_ns: 0 } }

fn dns_obs(pid: u32, qtype: &str, qname: &str, masked: bool) -> Observation {
    Observation {
        timestamp: ts(1),
        source: Source::Network,
        pid: Some(pid),
        payload: obj(vec![("kind", jv("dns_query")), ("qname", jv(qname)), ("qtype", jv(qtype)), ("name_hash", jv("abc123")), ("masked", jv(masked)), ("interface_index", jv(0u64)), ("client_process_name", jv("curl"))]),
        tags: None,
    }
}

fn socket_obs() -> Observation {
    Observation {
        timestamp: ts(1),
        source: Source::Network,
        pid: Some(100),
        payload: j(r#"{ "proto": "tcp4", "local_addr": "a", "foreign_addr": "b", "state": "ESTABLISHED" }"#),
        tags: None,
    }
}

#[test]
fn emits_one_event_per_dns_query() {
    let s = DnsLifecycle::new();
    let events = s.on_observation(&dns_obs(42, "A", "example.com.", false));
    assert_eq!(events.len(), 1);
    let e = &events[0];
    assert_eq!(e.kind, EventKind::DnsQuery);
    assert_eq!(e.pid, Some(42));
    assert_eq!(e.payload.get("qtype").and_then(|v| v.as_str()), Some("A"));
    assert_eq!(e.payload.get("qname").and_then(|v| v.as_str()), Some("example.com."));
    assert_eq!(e.payload.get("masked").and_then(|v| v.as_bool()), Some(false));
}

#[test]
fn preserves_masked_flag_and_hash() {
    let s = DnsLifecycle::new();
    let events = s.on_observation(&dns_obs(42, "AAAA", "<mask.hash: 'xxx=='>", true));
    let e = &events[0];
    assert_eq!(e.payload.get("masked").and_then(|v| v.as_bool()), Some(true));
    assert_eq!(e.payload.get("name_hash").and_then(|v| v.as_str()), Some("abc123"));
}

#[test]
fn ignores_non_dns_network_observations() {
    let s = DnsLifecycle::new();
    let events = s.on_observation(&socket_obs());
    assert!(events.is_empty());
}

#[test]
fn route_helper_distinguishes_payloads() {
    assert!(is_dns_query_observation(&dns_obs(1, "A", "x.", false)));
    assert!(!is_dns_query_observation(&socket_obs()));
}
