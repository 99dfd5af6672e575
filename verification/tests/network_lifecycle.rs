//! Connections as events.

use agentworld::events::EventKind;
use agentworld::json::Json;
use agentworld::network_lifecycle::NetworkLifecycle;
use agentworld::observation::{Observation, Source, Timestamp};

fn obj(fields: Vec<(&str, Json)>) -> Json {
    Json::Object(fields.into_iter().map(|(k, v)| (k.to_string(), v)).collect())
}

trait IntoJson {
    fn json(self) -> Json;
}

impl IntoJson for &str {
    fn json(self) -> Json {
        Json::Str(self.to_string())
    }
}

impl IntoJson for String {
    fn json(self) -> Json {
        Json::Str(self)
    }
}

impl IntoJson for u32 {
    fn json(self) -> Json {
        Json::U64(self as u64)
    }
}

impl IntoJson for u64 {
    fn json(self) -> Json {
        Json::U64(self)
    }
}

impl IntoJson for bool {
    fn json(self) -> Json {
        Json::Bool(self)
    }
}

impl IntoJson for Json {
    fn json(self) -> Json {
        self
    }
}

impl<T: IntoJson> IntoJson for Option<T> {
    fn json(self) -> Json {
        match self {
            Some(v) => v.json(),
            None => Json::Null,
        }
    }
}

impl IntoJson for &[&str] {
    fn json(self) -> Json {
        Json::Array(self.iter().map(|s| Json::Str(s.to_string())).collect())
    }
}

fn jv(v: impl IntoJson) -> Json {
    v.json()
}

fn remove(j: &mut Json, key: &str) {
    if let Json::Object(fields) = j {
        fields.retain(|(k, _)| k != key);
    }
}

fn ts(n: u64) -> Timestamp {
    Timestamp {
        mono_ns: n,
        wall_anchor_ns: 0,
    }
}

fn netobs(
    proto: &str,
    local: &str,
    foreign: &str,
    state: Option<&str>,
    pid: u32,
    mono: u64,
) -> Observation {
    Observation {
        timestamp: ts(mono),
        source: Source::Network,
        pid: Some(pid),
        payload: obj(vec![("proto", jv(proto)), ("local_addr", jv(local)), ("foreign_addr", jv(foreign)), ("state", jv(state)), ("process_name", jv("test")), ("rxbytes", jv(0u64)), ("txbytes", jv(0u64))]),
        tags: None,
    }
}

#[test]
fn network_lifecycle_first_tick_emits_nothing() {
    let mut s = NetworkLifecycle::new();
    s.on_observation(&netobs(
        "tcp4",
        "10.0.0.1.50",
        "1.2.3.4.443",
        Some("ESTABLISHED"),
        100,
        1,
    ));
    let events = s.on_tick_complete(ts(2));
    assert!(events.is_empty());
}

#[test]
fn new_connection_emits_opened() {
    let mut s = NetworkLifecycle::new();
    s.on_observation(&netobs(
        "tcp4",
        "10.0.0.1.50",
        "1.2.3.4.443",
        Some("ESTABLISHED"),
        100,
        1,
    ));
    s.on_tick_complete(ts(2));
    // New connection in tick 2.
    s.on_observation(&netobs(
        "tcp4",
        "10.0.0.1.50",
        "1.2.3.4.443",
        Some("ESTABLISHED"),
        100,
        3,
    ));
    s.on_observation(&netobs(
        "tcp4",
        "10.0.0.1.55",
        "9.9.9.9.80",
        Some("ESTABLISHED"),
        200,
        4,
    ));
    let events = s.on_tick_complete(ts(5));
    assert_eq!(events.len(), 1);
    assert_eq!(events[0].kind, EventKind::ConnectionOpened);
    assert_eq!(events[0].pid, Some(200));
    assert_eq!(
        events[0]
            .payload
            .get("foreign_addr")
            .and_then(|v| v.as_str()),
        Some("9.9.9.9.80")
    );
}

#[test]
fn disappeared_connection_emits_closed_and_completed() {
    let mut s = NetworkLifecycle::new();
    s.on_observation(&netobs("tcp4", "a.1", "b.2", Some("ESTABLISHED"), 100, 1));
    s.on_tick_complete(ts(2));
    // Tick 2: empty.
    let events = s.on_tick_complete(ts(3));
    // One Closed and one Completed, in that order.
    assert_eq!(events.len(), 2, "got {events:?}");
    let kinds: Vec<EventKind> = events.iter().map(|e| e.kind).collect();
    assert_eq!(
        kinds,
        vec![EventKind::ConnectionClosed, EventKind::ConnectionCompleted]
    );
    for e in &events {
        assert_eq!(
            e.payload.get("local_addr").and_then(|v| v.as_str()),
            Some("a.1")
        );
        assert_eq!(e.timestamp, ts(3));
    }
}

#[test]
fn state_change_on_same_tuple_emits_nothing() {
    let mut s = NetworkLifecycle::new();
    s.on_observation(&netobs("tcp4", "a.1", "b.2", Some("SYN_SENT"), 100, 1));
    s.on_tick_complete(ts(2));
    s.on_observation(&netobs("tcp4", "a.1", "b.2", Some("ESTABLISHED"), 100, 3));
    let events = s.on_tick_complete(ts(4));
    assert!(
        events.is_empty(),
        "state change without identity change should not emit; got {events:?}"
    );
}

#[test]
fn network_lifecycle_self_detects_tick_boundary_from_observation_gap() {
    let mut s = NetworkLifecycle::new();
    let one_sec = 1_000_000_000u64;

    // Tick 1: a.1/b.2 only.
    s.on_observation(&netobs("tcp4", "a.1", "b.2", Some("ESTABLISHED"), 100, 1));

    // Tick 2: a.1/b.2 again. Finalize tick 1 (primes); diff vs nothing → no events.
    let events = s.on_observation(&netobs(
        "tcp4",
        "a.1",
        "b.2",
        Some("ESTABLISHED"),
        100,
        one_sec + 1,
    ));
    assert!(
        events.is_empty(),
        "priming tick should not emit; got {events:?}"
    );

    // Tick 3: a.2/c.3 only. Finalize tick 2 vs tick 1: both had only a.1/b.2 → no events.
    let events = s.on_observation(&netobs(
        "tcp4",
        "a.2",
        "c.3",
        Some("ESTABLISHED"),
        200,
        2 * one_sec + 1,
    ));
    assert!(
        events.is_empty(),
        "tick 2 == tick 1 contents; got {events:?}"
    );

    // Tick 4: a.1/b.2 again. Finalize tick 3 vs tick 2: tick 3 had {a.2/c.3}, tick 2 had {a.1/b.2}.
    // Diff: a.2/c.3 opened, a.1/b.2 closed AND completed.
    let events = s.on_observation(&netobs(
        "tcp4",
        "a.1",
        "b.2",
        Some("ESTABLISHED"),
        100,
        3 * one_sec + 1,
    ));
    let kinds: Vec<EventKind> = events.iter().map(|e| e.kind).collect();
    assert_eq!(kinds.len(), 3, "got {kinds:?}");
    assert!(kinds.contains(&EventKind::ConnectionOpened));
    assert!(kinds.contains(&EventKind::ConnectionClosed));
    assert!(kinds.contains(&EventKind::ConnectionCompleted));
    let opened = events
        .iter()
        .find(|e| e.kind == EventKind::ConnectionOpened)
        .unwrap();
    let closed = events
        .iter()
        .find(|e| e.kind == EventKind::ConnectionClosed)
        .unwrap();
    let completed = events
        .iter()
        .find(|e| e.kind == EventKind::ConnectionCompleted)
        .unwrap();
    assert_eq!(
        opened.payload.get("local_addr").and_then(|v| v.as_str()),
        Some("a.2")
    );
    assert_eq!(
        closed.payload.get("local_addr").and_then(|v| v.as_str()),
        Some("a.1")
    );
    assert_eq!(
        completed.payload.get("local_addr").and_then(|v| v.as_str()),
        Some("a.1")
    );
}

#[test]
fn observation_without_proto_is_dropped() {
    let mut s = NetworkLifecycle::new();
    let mut o = netobs("tcp4", "a", "b", Some("X"), 1, 1);
    remove(&mut o.payload, "proto");
    s.on_observation(&o);
    s.on_tick_complete(ts(2));
    // Nothing was remembered, so nothing closes.
    assert!(s.on_tick_complete(ts(3)).is_empty());
}

/// Helper that builds a netobs with explicit rxbytes/txbytes so we can
/// verify the `ConnectionCompleted` payload preserves cumulative byte
/// counts.
fn netobs_bytes(local: &str, foreign: &str, rx: u64, tx: u64, mono: u64) -> Observation {
    Observation {
        timestamp: ts(mono),
        source: Source::Network,
        pid: Some(7),
        payload: obj(vec![("proto", jv("tcp4")), ("local_addr", jv(local)), ("foreign_addr", jv(foreign)), ("state", jv("ESTABLISHED")), ("process_name", jv("test")), ("rxbytes", jv(rx)), ("txbytes", jv(tx))]),
        tags: None,
    }
}

#[test]
fn completed_event_carries_duration_and_byte_deltas() {
    let mut s = NetworkLifecycle::new();
    // Tick 1: first observation of the tuple, at t=1000, 100/50 bytes.
    s.on_observation(&netobs_bytes("a.1", "b.2", 100, 50, 1000));
    s.on_tick_complete(ts(2000));
    // Tick 2: same tuple, more bytes accumulated. Note: nothing emits on
    // this tick because the tuple was already in `prior`.
    s.on_observation(&netobs_bytes("a.1", "b.2", 5000, 200, 3000));
    s.on_tick_complete(ts(4000));
    // Tick 3: tuple absent. Closed + Completed fire at ts=5000.
    let events = s.on_tick_complete(ts(5000));

    let completed = events
        .iter()
        .find(|e| e.kind == EventKind::ConnectionCompleted)
        .expect("ConnectionCompleted should fire");

    let p = &completed.payload;
    assert_eq!(p.get("local_addr").and_then(|v| v.as_str()), Some("a.1"));
    assert_eq!(p.get("foreign_addr").and_then(|v| v.as_str()), Some("b.2"));
    // last_seen.mono_ns - first_seen.mono_ns = 3000 - 1000 = 2000.
    assert_eq!(p.get("duration_ns").and_then(|v| v.as_u64()), Some(2000));
    // bytes_rx/tx are the *last observed* cumulative values.
    assert_eq!(p.get("bytes_rx").and_then(|v| v.as_u64()), Some(5000));
    assert_eq!(p.get("bytes_tx").and_then(|v| v.as_u64()), Some(200));
    // opened_at / closed_at preserved.
    assert_eq!(
        p.get("opened_at")
            .and_then(|v| v.get("mono_ns"))
            .and_then(|v| v.as_u64()),
        Some(1000),
    );
    assert_eq!(
        p.get("closed_at")
            .and_then(|v| v.get("mono_ns"))
            .and_then(|v| v.as_u64()),
        Some(3000),
    );
}

#[test]
fn first_seen_is_preserved_across_many_ticks() {
    let mut s = NetworkLifecycle::new();
    // Tuple first seen at t=100, observed in four consecutive ticks.
    s.on_observation(&netobs("tcp4", "a", "b", Some("ESTABLISHED"), 1, 100));
    s.on_tick_complete(ts(1000));
    s.on_observation(&netobs("tcp4", "a", "b", Some("ESTABLISHED"), 1, 1100));
    s.on_tick_complete(ts(2000));
    s.on_observation(&netobs("tcp4", "a", "b", Some("ESTABLISHED"), 1, 2100));
    s.on_tick_complete(ts(3000));
    s.on_observation(&netobs("tcp4", "a", "b", Some("ESTABLISHED"), 1, 3100));
    s.on_tick_complete(ts(4000));
    // Tick where it vanishes (no obs for this tick at all):
    let events = s.on_tick_complete(ts(5000));
    let completed = events
        .iter()
        .find(|e| e.kind == EventKind::ConnectionCompleted)
        .unwrap_or_else(|| panic!("expected Completed; got {events:?}"));
    // Four rotations should not have lost first_seen.
    assert_eq!(
        completed
            .payload
            .get("opened_at")
            .and_then(|v| v.get("mono_ns"))
            .and_then(|v| v.as_u64()),
        Some(100),
        "first_seen survives rotation; payload={:?}",
        completed.payload,
    );
    // last_seen should be the most recent obs (3100), not the close time (5000).
    assert_eq!(
        completed
            .payload
            .get("closed_at")
            .and_then(|v| v.get("mono_ns"))
            .and_then(|v| v.as_u64()),
        Some(3100),
    );
    assert_eq!(
        completed
            .payload
            .get("duration_ns")
            .and_then(|v| v.as_u64()),
        Some(3000),
    );
}
