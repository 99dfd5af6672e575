//! Changes of the application in front.

use agentworld::events::EventKind;
use agentworld::json::Json;
use agentworld::observation::{Observation, Source, Timestamp};
use agentworld::window_lifecycle::WindowLifecycle;

fn obj(fields: Vec<(&str, Json)>) -> Json {
    Json::Object(fields.into_iter().map(|(k, v)| (k.to_string(), v)).collect())
}

trait IntoJson {
    fn json(self) -> Json;
}

impl IntoJson for &str {
    fn json(self) -> Json {
        Json::Str(self.to_string())
    }
}

impl IntoJson for String {
    fn json(self) -> Json {
        Json::Str(self)
    }
}

impl IntoJson for u32 {
    fn json(self) -> Json {
        Json::U64(self as u64)
    }
}

impl IntoJson for u64 {
    fn json(self) -> Json {
        Json::U64(self)
    }
}

impl IntoJson for bool {
    fn json(self) -> Json {
        Json::Bool(self)
    }
}

impl IntoJson for Json {
    fn json(self) -> Json {
        self
    }
}

impl<T: IntoJson> IntoJson for Option<T> {
    fn json(self) -> Json {
        match self {
            Some(v) => v.json(),
            None => Json::Null,
        }
    }
}

impl IntoJson for &[&str] {
    fn json(self) -> Json {
        Json::Array(self.iter().map(|s| Json::Str(s.to_string())).collect())
    }
}

fn jv(v: impl IntoJson) -> Json {
    v.json()
}

fn remove(j: &mut Json, key: &str) {
    if let Json::Object(fields) = j {
        fields.retain(|(k, _)| k != key);
    }
}

fn field<'a>(j: &'a mut Json, key: &str) -> &'a mut Json {
    match j {
        Json::Object(fields) => &mut fields.iter_mut().find(|(k, _)| k == key).unwrap().1,
        _ => panic!("no object"),
    }
}

fn ts(n: u64) -> Timestamp {
    Timestamp {
        mono_ns: n,
        wall_anchor_ns: 0,
    }
}

fn obs(from_bundle: Option<&str>, to_bundle: &str, to_name: &str, pid: u32) -> Observation {
    let from = match from_bundle {
        Some(b) => obj(vec![("bundle_id", jv(b)), ("name", jv("Old")), ("exec_path", jv("/old")), ("pid", jv(1u64))]),
        None => Json::Null,
    };
    Observation {
        timestamp: ts(100),
        source: Source::Window,
        pid: Some(pid),
        payload: obj(vec![("transition", jv("frontmost_app")), ("from", jv(from)), ("to", obj(vec![("bundle_id", jv(to_bundle)), ("name", jv(to_name)), ("exec_path", jv(format!("/Applications/{to_name}.app/Contents/MacOS/{to_name}"))), ("pid", jv(pid))]))]),
        tags: None,
    }
}

#[test]
fn emits_event_for_real_transition() {
    let stage = WindowLifecycle::new();
    let events = stage.on_observation(&obs(Some("com.app.a"), "com.app.b", "AppB", 42));
    assert_eq!(events.len(), 1);
    let ev = &events[0];
    assert_eq!(ev.kind, EventKind::AppFocus);
    assert_eq!(ev.pid, Some(42));
    assert_eq!(
        ev.payload.get("from_bundle_id").and_then(|v| v.as_str()),
        Some("com.app.a")
    );
    assert_eq!(
        ev.payload.get("to_bundle_id").and_then(|v| v.as_str()),
        Some("com.app.b")
    );
    assert_eq!(
        ev.payload.get("to_name").and_then(|v| v.as_str()),
        Some("AppB")
    );
}

#[test]
fn first_transition_has_null_from() {
    let stage = WindowLifecycle::new();
    let events = stage.on_observation(&obs(None, "com.app.a", "AppA", 99));
    assert_eq!(events.len(), 1);
    assert!(events[0]
        .payload
        .get("from_bundle_id")
        .map(|v| v.is_null())
        .unwrap_or(false));
}

#[test]
fn drops_noop_transition() {
    let stage = WindowLifecycle::new();
    let events = stage.on_observation(&obs(Some("com.app.same"), "com.app.same", "Same", 1));
    assert!(events.is_empty());
}

#[test]
fn drops_when_to_is_null() {
    let stage = WindowLifecycle::new();
    let mut o = obs(None, "com.app.a", "AppA", 1);
    *field(&mut o.payload, "to") = Json::Null;
    assert!(stage.on_observation(&o).is_empty());
}

#[test]
fn falls_back_to_top_level_pid_when_payload_pid_missing() {
    let stage = WindowLifecycle::new();
    let mut o = obs(None, "com.app.a", "AppA", 77);
    remove(field(&mut o.payload, "to"), "pid");
    let events = stage.on_observation(&o);
    assert_eq!(events[0].pid, Some(77));
}
