//! Events with the context of their process.

use agentworld::events::{Event, EventKind};
use agentworld::json::Json;
use agentworld::observation::{Observation, Source, Timestamp};
use agentworld::reconstructor::Reconstructor;

fn obj(fields: Vec<(&str, Json)>) -> Json {
    Json::Object(fields.into_iter().map(|(k, v)| (k.to_string(), v)).collect())
}

trait IntoJson {
    fn json(self) -> Json;
}

impl IntoJson for &str {
    fn json(self) -> Json {
        Json::Str(self.to_string())
    }
}

impl IntoJson for String {
    fn json(self) -> Json {
        Json::Str(self)
    }
}

impl IntoJson for u32 {
    fn json(self) -> Json {
        Json::U64(self as u64)
    }
}

impl IntoJson for u64 {
    fn json(self) -> Json {
        Json::U64(self)
    }
}

impl IntoJson for bool {
    fn json(self) -> Json {
        Json::Bool(self)
    }
}

impl IntoJson for Json {
    fn json(self) -> Json {
        self
    }
}

impl<T: IntoJson> IntoJson for Option<T> {
    fn json(self) -> Json {
        match self {
            Some(v) => v.json(),
            None => Json::Null,
        }
    }
}

impl IntoJson for &[&str] {
    fn json(self) -> Json {
        Json::Array(self.iter().map(|s| Json::Str(s.to_string())).collect())
    }
}

fn jv(v: impl IntoJson) -> Json {
    v.json()
}

fn ts(n: u64) -> Timestamp { Timestamp { mono_ns: n, wall_anchor_ns: 0 } }

fn process_obs(pid: u32, ppid: u32, comm: &str, exec: &str, start: u64, mono: u64) -> Observation {
    Observation {
        timestamp: ts(mono),
        source: Source::Process,
        pid: Some(pid),
        payload: obj(vec![("comm", jv(comm)), ("name", jv(comm)), ("ppid", jv(ppid)), ("uid", jv(501u32)), ("exec_path", jv(exec)), ("start_unix_secs", jv(start))]),
        tags: None,
    }
}

fn net_obs(pid: u32, foreign: &str, mono: u64) -> Observation {
    Observation {
        timestamp: ts(mono),
        source: Source::Network,
        pid: Some(pid),
        payload: obj(vec![("proto", jv("tcp4")), ("local_addr", jv("10.0.0.1.50000")), ("foreign_addr", jv(foreign)), ("state", jv("ESTABLISHED")), ("process_name", jv("curl")), ("rxbytes", jv(0u64)), ("txbytes", jv(0u64))]),
        tags: None,
    }
}

#[test]
fn connection_event_is_enriched_with_process_context() {
    let mut r = Reconstructor::new();
    let one_sec = 1_000_000_000u64;

    // Process births fire when a tick boundary detects a *new* pid that
    // wasn't in the prior tick. Need three ticks: tick 1 primes, tick 2
    // introduces the new pids, tick 3's first obs triggers finalize-of-2
    // and emits the births. Tick 1 must NOT contain the new pids.
    // Tick 1: only launchd.
    r.process(&process_obs(1, 0, "launchd", "/sbin/launchd", 100, 1));
    // Tick 2: launchd + shell + curl (new this tick).
    r.process(&process_obs(1, 0, "launchd", "/sbin/launchd", 100, one_sec + 1));
    r.process(&process_obs(100, 1, "shell", "/bin/zsh", 200, one_sec + 2));
    r.process(&process_obs(2000, 100, "curl", "/usr/bin/curl", 300, one_sec + 3));
    // Tick 3: first obs triggers finalize of tick 2 → birth events fire for shell and curl.
    let births = r.process(&process_obs(1, 0, "launchd", "/sbin/launchd", 100, 2 * one_sec + 1));
    assert!(births.iter().any(|e| e.kind == EventKind::ProcessBirth && e.pid == Some(2000)),
        "expected birth for curl pid on tick boundary; got {births:?}");

    // Network: same priming dance. Need a tick where the conn is absent,
    // then a tick where it appears, then a boundary on a later tick.
    // Tick A (priming): a *different* conn so the set isn't empty.
    r.process(&net_obs(2000, "9.9.9.9.443", 3 * one_sec + 1));
    // Tick B: only the target conn (the 9.9.9.9 closes).
    r.process(&net_obs(2000, "1.2.3.4.443", 4 * one_sec + 1));
    // Tick C: boundary finalizes B → emits opened(1.2.3.4) and closed(9.9.9.9).
    let net_events: Vec<Event> = r.process(&net_obs(2000, "1.2.3.4.443", 5 * one_sec + 1));

    let opened = net_events.iter()
        .find(|e| e.kind == EventKind::ConnectionOpened
            && e.payload.get("foreign_addr").and_then(|v| v.as_str()) == Some("1.2.3.4.443"))
        .expect("connection_opened for 1.2.3.4 should fire");

    let proc_ctx = opened.payload.get("process").expect("enriched with process context");
    assert_eq!(proc_ctx.get("pid").and_then(|v| v.as_u64()), Some(2000));
    assert_eq!(proc_ctx.get("comm").and_then(|v| v.as_str()), Some("curl"));
    assert_eq!(proc_ctx.get("exec_path").and_then(|v| v.as_str()), Some("/usr/bin/curl"));
    assert_eq!(proc_ctx.get("ppid").and_then(|v| v.as_u64()), Some(100));

    let ancestors = proc_ctx.get("ancestors").and_then(|v| v.as_array()).expect("ancestors array");
    // Should be [shell] (launchd has ppid 0, stops at pid 1).
    let comms: Vec<&str> = ancestors.iter()
        .filter_map(|a| a.get("comm").and_then(|v| v.as_str()))
        .collect();
    assert_eq!(comms, vec!["shell"], "got {ancestors:?}");
}

#[test]
fn enrichment_is_noop_when_pid_unknown_to_table() {
    let mut r = Reconstructor::new();
    // Network observation for a pid we never saw as a process birth.
    r.process(&net_obs(9999, "1.2.3.4.443", 1));
    let events = r.process(&net_obs(9999, "1.2.3.4.443", 1_000_000_001));
    let opened = events.iter().find(|e| e.kind == EventKind::ConnectionOpened);
    if let Some(ev) = opened {
        // Either no `process` key, or it's null. Both are acceptable —
        // the payload's other fields should be present unmodified.
        let has_process = ev.payload.get("process").map(|v| !v.is_null()).unwrap_or(false);
        assert!(!has_process, "should not invent process context: {:?}", ev.payload);
        assert!(ev.payload.get("foreign_addr").is_some(), "raw network fields preserved");
    }
}

#[test]
fn process_death_marks_table_entry_dead() {
    let mut r = Reconstructor::new();
    let one_sec = 1_000_000_000u64;

    // Tick 1: launchd only (priming baseline).
    r.process(&process_obs(1, 0, "launchd", "/sbin/launchd", 100, 1));
    // Tick 2: launchd + the short-lived pid 500.
    r.process(&process_obs(1, 0, "launchd", "/sbin/launchd", 100, one_sec + 1));
    r.process(&process_obs(500, 1, "shortlived", "/bin/sh", 100, one_sec + 2));
    // Tick 3: finalize tick 2 — birth fires for 500.
    r.process(&process_obs(1, 0, "launchd", "/sbin/launchd", 100, 2 * one_sec + 1));
    // Tick 4: finalize tick 3 — pid 500 is absent from tick 3, was in tick 2, death fires.
    let events = r.process(&process_obs(1, 0, "launchd", "/sbin/launchd", 100, 3 * one_sec + 1));
    assert!(events.iter().any(|e| e.kind == EventKind::ProcessDeath && e.pid == Some(500)),
        "expected death for pid 500; got {events:?}");

    let table = r.process_table();
    let entry = table.by_pid(500).expect("entry retained after death");
    assert!(!entry.alive, "should be marked dead");
    assert_eq!(entry.comm.as_deref(), Some("shortlived"));
}
