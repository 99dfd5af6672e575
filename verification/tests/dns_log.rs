//! Lines of the resolver's log.

use agentworld::dns_log::parse_line;
use agentworld::observation::{Source, Timestamp};


const MASKED_START_LINE: &str = r#"{"eventMessage":"[R63931] DNSServiceQueryRecord START -- qname: <mask.hash: 'JtfAKTlnkM4iYCvwbaIeXw=='>, qtype: A, flags: 0x15000, interface index: 0, client pid: 17446 (gk_3_1_63), name hash: e325f5d4"}"#;

const UNMASKED_START_LINE: &str = r#"{"eventMessage":"[R63932] DNSServiceQueryRecord START -- qname: example.com., qtype: AAAA, flags: 0x0, interface index: 1, client pid: 99 (curl), name hash: deadbeef"}"#;

const UNRELATED_LINE: &str =
    r#"{"eventMessage":"[R63931->Q36719] Question assigned DNS service 6"}"#;

fn at() -> Timestamp {
    Timestamp { mono_ns: 1, wall_anchor_ns: 2 }
}

#[test]
fn parses_masked_query() {
    let mut warned = false;
    let obs = parse_line(MASKED_START_LINE, at(), &mut warned).expect("parses");
    assert_eq!(obs.source, Source::Network);
    assert_eq!(obs.pid, Some(17446));
    let p = &obs.payload;
    assert_eq!(p.get("kind").and_then(|v| v.as_str()), Some("dns_query"));
    assert_eq!(p.get("qtype").and_then(|v| v.as_str()), Some("A"));
    assert_eq!(p.get("masked").and_then(|v| v.as_bool()), Some(true));
    assert_eq!(
        p.get("name_hash").and_then(|v| v.as_str()),
        Some("e325f5d4")
    );
    assert_eq!(
        p.get("client_process_name").and_then(|v| v.as_str()),
        Some("gk_3_1_63")
    );
    assert_eq!(p.get("interface_index").and_then(|v| v.as_i64()), Some(0));
    // Warning was emitted (atomic flipped).
    assert!(warned);
}

#[test]
fn parses_unmasked_query() {
    let mut warned = false;
    let obs = parse_line(UNMASKED_START_LINE, at(), &mut warned).expect("parses");
    let p = &obs.payload;
    assert_eq!(
        p.get("qname").and_then(|v| v.as_str()),
        Some("example.com.")
    );
    assert_eq!(p.get("qtype").and_then(|v| v.as_str()), Some("AAAA"));
    assert_eq!(p.get("masked").and_then(|v| v.as_bool()), Some(false));
    assert_eq!(
        p.get("client_process_name").and_then(|v| v.as_str()),
        Some("curl")
    );
    // No masking → no warning issued.
    assert!(!warned);
}

#[test]
fn skips_non_query_lines() {
    let mut warned = false;
    assert!(parse_line(UNRELATED_LINE, at(), &mut warned).is_none());
}

#[test]
fn skips_blank_and_garbage_lines() {
    let mut warned = false;
    assert!(parse_line("", at(), &mut warned).is_none());
    assert!(parse_line("not json at all", at(), &mut warned).is_none());
    assert!(parse_line(r#"{"eventMessage":"some other message"}"#, at(), &mut warned).is_none());
}

#[test]
fn warns_only_once_about_masking() {
    let mut warned = false;
    parse_line(MASKED_START_LINE, at(), &mut warned).unwrap();
    assert!(warned);
    // The flag is already set: no second warning.
    parse_line(MASKED_START_LINE, at(), &mut warned).unwrap();
    assert!(warned);
}
