//! Births and deaths of processes.

use agentworld::events::EventKind;
use agentworld::json::Json;
use agentworld::json_parse::parse_json;
use agentworld::observation::{Observation, Source, Timestamp};
use agentworld::process_lifecycle::ProcessLifecycle;

fn j(text: &str) -> Json {
    parse_json(text).expect("a JSON document")
}

fn obj(fields: Vec<(&str, Json)>) -> Json {
    Json::Object(fields.into_iter().map(|(k, v)| (k.to_string(), v)).collect())
}

trait IntoJson {
    fn json(self) -> Json;
}

impl IntoJson for &str {
    fn json(self) -> Json {
        Json::Str(self.to_string())
    }
}

impl IntoJson for String {
    fn json(self) -> Json {
        Json::Str(self)
    }
}

impl IntoJson for u32 {
    fn json(self) -> Json {
        Json::U64(self as u64)
    }
}

impl IntoJson for u64 {
    fn json(self) -> Json {
        Json::U64(self)
    }
}

impl IntoJson for bool {
    fn json(self) -> Json {
        Json::Bool(self)
    }
}

impl IntoJson for Json {
    fn json(self) -> Json {
        self
    }
}

impl<T: IntoJson> IntoJson for Option<T> {
    fn json(self) -> Json {
        match self {
            Some(v) => v.json(),
            None => Json::Null,
        }
    }
}

impl IntoJson for &[&str] {
    fn json(self) -> Json {
        Json::Array(self.iter().map(|s| Json::Str(s.to_string())).collect())
    }
}

fn jv(v: impl IntoJson) -> Json {
    v.json()
}

fn ts(mono: u64) -> Timestamp {
    Timestamp {
        mono_ns: mono,
        wall_anchor_ns: 0,
    }
}

fn obs(pid: u32, start: u64, comm: &str, mono: u64) -> Observation {
    Observation {
        timestamp: ts(mono),
        source: Source::Process,
        pid: Some(pid),
        payload: obj(vec![("comm", jv(comm)), ("ppid", jv(1u32)), ("uid", jv(501u32)), ("start_unix_secs", jv(start))]),
        tags: None,
    }
}

#[test]
fn process_lifecycle_first_tick_emits_nothing() {
    let mut s = ProcessLifecycle::new();
    s.on_observation(&obs(100, 1000, "init", 1));
    s.on_observation(&obs(200, 1001, "shell", 2));
    let events = s.on_tick_complete(ts(3));
    assert!(
        events.is_empty(),
        "first tick must not emit births; got {events:?}"
    );
}

#[test]
fn second_tick_emits_births_for_new_pids() {
    let mut s = ProcessLifecycle::new();
    s.on_observation(&obs(100, 1000, "init", 1));
    s.on_tick_complete(ts(2));

    s.on_observation(&obs(100, 1000, "init", 3));
    s.on_observation(&obs(200, 1001, "new-proc", 4));
    let events = s.on_tick_complete(ts(5));
    assert_eq!(events.len(), 1);
    assert_eq!(events[0].kind, EventKind::ProcessBirth);
    assert_eq!(events[0].pid, Some(200));
    assert_eq!(
        events[0].payload.get("comm").and_then(|v| v.as_str()),
        Some("new-proc")
    );
}

#[test]
fn missing_pid_in_new_tick_emits_death() {
    let mut s = ProcessLifecycle::new();
    s.on_observation(&obs(100, 1000, "doomed", 1));
    s.on_observation(&obs(200, 1001, "survivor", 2));
    s.on_tick_complete(ts(3));

    // Next tick: 100 is gone.
    s.on_observation(&obs(200, 1001, "survivor", 4));
    let events = s.on_tick_complete(ts(5));
    assert_eq!(events.len(), 1);
    assert_eq!(events[0].kind, EventKind::ProcessDeath);
    assert_eq!(events[0].pid, Some(100));
    assert_eq!(events[0].timestamp, ts(5));
}

#[test]
fn pid_reuse_distinguished_by_start_time() {
    let mut s = ProcessLifecycle::new();
    s.on_observation(&obs(100, 1000, "old", 1));
    s.on_tick_complete(ts(2));

    // Pid 100 dies, then a new process is born with the same pid but a
    // different start time. Expect both a death AND a birth.
    s.on_observation(&obs(100, 9999, "new-with-same-pid", 3));
    let events = s.on_tick_complete(ts(4));
    let kinds: Vec<EventKind> = events.iter().map(|e| e.kind).collect();
    assert!(kinds.contains(&EventKind::ProcessBirth), "{kinds:?}");
    assert!(kinds.contains(&EventKind::ProcessDeath), "{kinds:?}");
}

#[test]
fn observations_without_start_are_dropped() {
    let mut s = ProcessLifecycle::new();
    let mut o = obs(100, 1000, "init", 1);
    o.payload = j(r#"{ "comm": "no-start" }"#); // no start_unix_secs
    s.on_observation(&o);
    s.on_tick_complete(ts(2));
    // No state to diff, no events.
    assert!(s.on_tick_complete(ts(3)).is_empty());
}

#[test]
fn observations_without_pid_are_dropped() {
    let mut s = ProcessLifecycle::new();
    let mut o = obs(100, 1000, "init", 1);
    o.pid = None;
    s.on_observation(&o);
    s.on_tick_complete(ts(2));
    // Nothing was remembered, so nothing dies.
    assert!(s.on_tick_complete(ts(9)).is_empty());
}

#[test]
fn process_lifecycle_self_detects_tick_boundary_from_observation_gap() {
    let mut s = ProcessLifecycle::new();
    // Tick 1: two pids, observations close together (1ns apart).
    s.on_observation(&obs(100, 1000, "init", 1));
    s.on_observation(&obs(200, 1001, "doomed", 2));

    // After a 1-second gap, the next observation is in tick 2. The stage
    // should finalize tick 1 *before* accumulating this obs into tick 2.
    // Pid 200 is absent → death; pid 300 is new → birth (but tick 1 was
    // the priming tick, so nothing emits yet).
    let one_sec_ns = 1_000_000_000u64;
    let events_at_boundary = s.on_observation(&obs(100, 1000, "init", one_sec_ns + 1));
    assert!(events_at_boundary.is_empty(), "priming tick: no events yet");

    // Now in tick 2. Add a new pid to tick 2; tick 2 still being assembled.
    s.on_observation(&obs(300, 1002, "newcomer", one_sec_ns + 2));

    // Another gap → tick 3 starts; tick 2 finalizes against tick 1.
    let events = s.on_observation(&obs(100, 1000, "init", 2 * one_sec_ns + 1));
    // Tick 1 had {100, 200}; tick 2 had {100, 300}. Death: 200. Birth: 300.
    let kinds: Vec<EventKind> = events.iter().map(|e| e.kind).collect();
    assert_eq!(kinds.len(), 2, "got {kinds:?}");
    assert!(kinds.contains(&EventKind::ProcessBirth));
    assert!(kinds.contains(&EventKind::ProcessDeath));
    let death = events
        .iter()
        .find(|e| e.kind == EventKind::ProcessDeath)
        .unwrap();
    let birth = events
        .iter()
        .find(|e| e.kind == EventKind::ProcessBirth)
        .unwrap();
    assert_eq!(death.pid, Some(200));
    assert_eq!(birth.pid, Some(300));
}
