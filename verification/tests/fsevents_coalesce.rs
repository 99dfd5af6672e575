//! Changes of files gathered into events.

use agentworld::fsevents_coalesce::FsEventsCoalesce;
use agentworld::json::Json;
use agentworld::observation::{Observation, Source, Timestamp};

fn obj(fields: Vec<(&str, Json)>) -> Json {
    Json::Object(fields.into_iter().map(|(k, v)| (k.to_string(), v)).collect())
}

trait IntoJson {
    fn json(self) -> Json;
}

impl IntoJson for &str {
    fn json(self) -> Json {
        Json::Str(self.to_string())
    }
}

impl IntoJson for String {
    fn json(self) -> Json {
        Json::Str(self)
    }
}

impl IntoJson for u32 {
    fn json(self) -> Json {
        Json::U64(self as u64)
    }
}

impl IntoJson for u64 {
    fn json(self) -> Json {
        Json::U64(self)
    }
}

impl IntoJson for bool {
    fn json(self) -> Json {
        Json::Bool(self)
    }
}

impl IntoJson for Json {
    fn json(self) -> Json {
        self
    }
}

impl<T: IntoJson> IntoJson for Option<T> {
    fn json(self) -> Json {
        match self {
            Some(v) => v.json(),
            None => Json::Null,
        }
    }
}

impl IntoJson for &[&str] {
    fn json(self) -> Json {
        Json::Array(self.iter().map(|s| Json::Str(s.to_string())).collect())
    }
}

fn jv(v: impl IntoJson) -> Json {
    v.json()
}

fn remove(j: &mut Json, key: &str) {
    if let Json::Object(fields) = j {
        fields.retain(|(k, _)| k != key);
    }
}

fn ts(n: u64) -> Timestamp { Timestamp { mono_ns: n, wall_anchor_ns: 0 } }

fn fsobs(path: &str, flags: &[&str], event_id: u64, mono: u64) -> Observation {
    Observation {
        timestamp: ts(mono),
        source: Source::FileSystem,
        pid: None,
        payload: obj(vec![("path", jv(path)), ("flags", jv(flags)), ("event_id", jv(event_id))]),
        tags: None,
    }
}

#[test]
fn coalesces_same_path_in_one_window() {
    let mut s = FsEventsCoalesce::new();
    // Four events on the same path within the first 500ms window.
    s.on_observation(&fsobs("/tmp/x", &["created"], 1, 1));
    s.on_observation(&fsobs("/tmp/x", &["modified"], 2, 100_000_000));
    s.on_observation(&fsobs("/tmp/x", &["xattr_mod"], 3, 200_000_000));
    s.on_observation(&fsobs("/tmp/x", &["is_file"], 4, 300_000_000));

    // Force flush.
    let events = s.flush_all();
    assert_eq!(events.len(), 1, "got {events:?}");
    let p = &events[0].payload;
    assert_eq!(p.get("path").and_then(|v| v.as_str()), Some("/tmp/x"));
    let flags: Vec<&str> = p.get("flags").unwrap().as_array().unwrap()
        .iter().filter_map(|v| v.as_str()).collect();
    for expected in ["created", "modified", "xattr_mod", "is_file"] {
        assert!(flags.contains(&expected), "missing {expected}; got {flags:?}");
    }
    assert_eq!(p.get("count").and_then(|v| v.as_u64()), Some(4));
    assert_eq!(p.get("event_ids").unwrap().as_array().unwrap().len(), 4);
}

#[test]
fn separate_paths_emit_separately() {
    let mut s = FsEventsCoalesce::new();
    s.on_observation(&fsobs("/a", &["created"], 1, 1));
    s.on_observation(&fsobs("/b", &["modified"], 2, 2));
    let events = s.flush_all();
    let paths: Vec<&str> = events.iter()
        .map(|e| e.payload.get("path").and_then(|v| v.as_str()).unwrap())
        .collect();
    assert_eq!(events.len(), 2);
    assert!(paths.contains(&"/a"));
    assert!(paths.contains(&"/b"));
}

#[test]
fn new_window_triggers_flush() {
    let mut s = FsEventsCoalesce::new();
    // Window 0: /a touched twice.
    s.on_observation(&fsobs("/a", &["created"], 1, 1));
    s.on_observation(&fsobs("/a", &["modified"], 2, 200_000_000));
    // Window 1: /b touched. Should flush /a.
    let events = s.on_observation(&fsobs("/b", &["created"], 3, 600_000_000));
    assert_eq!(events.len(), 1, "expected /a flush; got {events:?}");
    assert_eq!(events[0].payload.get("path").and_then(|v| v.as_str()), Some("/a"));
    let flags: Vec<&str> = events[0].payload.get("flags").unwrap().as_array().unwrap()
        .iter().filter_map(|v| v.as_str()).collect();
    assert!(flags.contains(&"created"));
    assert!(flags.contains(&"modified"));

    // /b still buffered until next window.
    let tail = s.flush_all();
    assert_eq!(tail.len(), 1);
    assert_eq!(tail[0].payload.get("path").and_then(|v| v.as_str()), Some("/b"));
}

#[test]
fn duplicate_flags_are_unioned_not_repeated() {
    let mut s = FsEventsCoalesce::new();
    s.on_observation(&fsobs("/x", &["modified", "is_file"], 1, 1));
    s.on_observation(&fsobs("/x", &["modified"], 2, 100_000_000));
    let events = s.flush_all();
    let flags: Vec<&str> = events[0].payload.get("flags").unwrap().as_array().unwrap()
        .iter().filter_map(|v| v.as_str()).collect();
    let modified_count = flags.iter().filter(|f| **f == "modified").count();
    assert_eq!(modified_count, 1, "modified should appear once; got {flags:?}");
    assert!(flags.contains(&"is_file"));
}

#[test]
fn observation_without_path_is_dropped() {
    let mut s = FsEventsCoalesce::new();
    let mut o = fsobs("/x", &["modified"], 1, 1);
    remove(&mut o.payload, "path");
    s.on_observation(&o);
    assert!(s.flush_all().is_empty());
}

#[test]
fn flush_all_on_empty_returns_nothing() {
    let mut s = FsEventsCoalesce::new();
    assert!(s.flush_all().is_empty());
}
