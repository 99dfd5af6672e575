//! Windows against the history of their machine.

use agentworld::baseline::{
    window_alarms, BaselineCounts, EntityCounts, Limits, WindowLimits, HOUR_NS, LEGACY_HEAVY_DNS_QUERIES,
};
use agentworld::events::{Event, EventKind, SCHEMA_VERSION};
use agentworld::json::Json;
use agentworld::json_parse::parse_json;
use agentworld::observation::Timestamp;
use agentworld::store::Store;

const DAY_NS: i64 = 24 * HOUR_NS;

fn j(text: &str) -> Json {
    parse_json(text).expect("a JSON document")
}

fn store_event(unix_ns: i64, kind: EventKind, pid: Option<u32>, payload: Json) -> Event {
    Event {
        schema_version: SCHEMA_VERSION,
        timestamp: Timestamp { mono_ns: unix_ns as u64, wall_anchor_ns: 0 },
        kind,
        pid,
        payload,
    }
}

fn window_event(unix_ns: i64, kind: EventKind, pid: Option<u32>, payload: Json) -> Event {
    Event {
        schema_version: SCHEMA_VERSION,
        timestamp: Timestamp { mono_ns: 0, wall_anchor_ns: unix_ns as u64 },
        kind,
        pid,
        payload,
    }
}

fn dns(name_hash: &str) -> Json {
    j(&format!(r#"{{ "client_process_name": "chrome", "name_hash": "{name_hash}" }}"#))
}

/// Seed ~5 days of routine DNS load (2 queries/hour for chrome) so the
/// baseline is warm and chrome's hourly ceiling is small.
fn warm_store() -> Store {
    let mut s = Store::open_in_memory().unwrap();
    let mut evs = Vec::new();
    for day in 0..5i64 {
        for hour in 0..24i64 {
            let base = day * DAY_NS + hour * HOUR_NS;
            for q in 0..2i64 {
                evs.push(store_event(
                    base + q * 1_000_000,
                    EventKind::DnsQuery,
                    None,
                    dns(&format!("h{day}-{hour}-{q}")),
                ));
            }
        }
    }
    s.append_events(&evs).unwrap();
    s
}

/// Three deviations above the mean of the hourly counts, and at least three
/// above it.
fn ceiling(counts: &[u64]) -> u64 {
    let n = counts.len() as f64;
    let mean = counts.iter().sum::<u64>() as f64 / n;
    let var = counts.iter().map(|c| (*c as f64 - mean).powi(2)).sum::<f64>() / n;
    (mean + 3.0 * var.sqrt().max(1.0)).ceil() as u64
}

fn limits(counts: &[EntityCounts]) -> Limits {
    Limits {
        per_entity: counts.iter().map(|e| (e.entity.clone(), ceiling(&e.counts))).collect(),
        default: 0,
    }
}

fn window_limits(b: &BaselineCounts) -> WindowLimits {
    WindowLimits { cold: b.cold, deaths: limits(&b.deaths), lookups: limits(&b.lookups), children: 0 }
}

#[test]
fn warm_baseline_flags_spike_but_not_routine_load() {
    let store = warm_store();
    let now = 5 * DAY_NS;
    let counts = BaselineCounts::from_store(&store, now, 30).unwrap();
    assert!(!counts.cold);
    assert_eq!(counts.lookups[0].counts, vec![2; 120]);
    let engine = window_limits(&counts);

    // Routine: 2 chrome queries — an order of magnitude under any ceiling.
    let routine: Vec<Event> = (0..2)
        .map(|i| window_event(now + i, EventKind::DnsQuery, None, dns(&format!("r{i}"))))
        .collect();
    assert!(
        window_alarms(&routine, &engine).is_empty(),
        "routine load must not be flagged"
    );

    // Spike: 40 queries in one window vs a ~2/hour baseline (well under
    // the legacy 50, so only an adaptive threshold catches it).
    let spike: Vec<Event> = (0..40)
        .map(|i| window_event(now + i, EventKind::DnsQuery, None, dns(&format!("s{i}"))))
        .collect();
    let scores = window_alarms(&spike, &engine);
    let hit = scores
        .iter()
        .find(|a| a.metric == "dns_fanout")
        .expect("10x spike must be flagged on a warm baseline");
    assert!(hit.entity.contains("chrome"));
    assert!(engine.lookups.per_entity[0].1 < 40);
}

#[test]
fn cold_baseline_falls_back_to_legacy_constants() {
    // A store with a few minutes of history: cold.
    let mut s = Store::open_in_memory().unwrap();
    s.append_events(&[store_event(0, EventKind::DnsQuery, None, dns("x"))])
        .unwrap();
    let counts = BaselineCounts::from_store(&s, HOUR_NS, 30).unwrap();
    assert!(counts.cold);
    let engine = window_limits(&counts);

    // 40 queries: over any warm adaptive ceiling but under the legacy 50
    // — must NOT flag while cold.
    let forty: Vec<Event> = (0..40)
        .map(|i| window_event(i, EventKind::DnsQuery, None, dns(&format!("a{i}"))))
        .collect();
    assert!(window_alarms(&forty, &engine)
        .iter()
        .all(|a| a.metric != "dns_fanout"));

    // 60 queries: over the legacy 50 — must flag even while cold.
    let sixty: Vec<Event> = (0..60)
        .map(|i| window_event(i, EventKind::DnsQuery, None, dns(&format!("b{i}"))))
        .collect();
    let scores = window_alarms(&sixty, &engine);
    let hit = scores.iter().find(|a| a.metric == "dns_fanout").unwrap();
    assert!(hit.observed >= LEGACY_HEAVY_DNS_QUERIES);
}

#[test]
fn sensitive_port_is_scored_regardless_of_baseline() {
    let mut s = Store::open_in_memory().unwrap();
    s.append_events(&[store_event(0, EventKind::DnsQuery, None, dns("x"))])
        .unwrap();
    let engine = window_limits(&BaselineCounts::from_store(&s, HOUR_NS, 30).unwrap());

    let ev = window_event(
        1,
        EventKind::ConnectionOpened,
        Some(9),
        j(r#"{ "foreign_addr": "1.2.3.4.4444", "process_name": "nc" }"#),
    );
    let scores = window_alarms(&[ev], &engine);
    assert_eq!(scores.len(), 1);
    assert_eq!(scores[0].metric, "sensitive_port");
    assert_eq!(scores[0].entity, "endpoint:1.2.3.4.4444");
    assert_eq!(scores[0].observed, 4444);
    assert!(scores[0].subject.contains("reverse-shell"));
}
