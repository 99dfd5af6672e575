//! Clocks, observations and the counters of the bus.

use agentworld::json::Json;
use agentworld::json_parse::parse_json;
use agentworld::ndjson::{observation_from_json, observation_to_json};
use agentworld::observation::{
    anchor_of, nanos_saturated, BusCounters, MonotonicClock, Observation, Source, Timestamp,
};

fn j(text: &str) -> Json {
    parse_json(text).expect("a JSON document")
}

fn stub_obs(source: Source) -> Observation {
    Observation {
        timestamp: Timestamp { mono_ns: 1, wall_anchor_ns: 1 },
        source,
        pid: None,
        payload: j(r#"{ "kind": "stub" }"#),
        tags: None,
    }
}

/// A queue that is never drained, with the counters of the bus before it.
struct Queue {
    counters: BusCounters,
    items: Vec<Observation>,
    capacity: usize,
}

impl Queue {
    fn emit(&mut self, obs: Observation) {
        let room = self.items.len() < self.capacity;
        self.counters.record(obs.source, room);
        if room {
            self.items.push(obs);
        }
    }
}

#[test]
fn monotonic_clock_is_monotonic() {
    let clock = MonotonicClock::new();
    let a = clock.now();
    let mut b = clock.now();
    while b.mono_ns <= a.mono_ns {
        b = clock.now();
    }
    assert!(b.mono_ns > a.mono_ns);
    assert_eq!(a.wall_anchor_ns, b.wall_anchor_ns);
    assert!(a.wall_anchor_ns > 1_600_000_000_000_000_000, "the anchor is the time of day");
}

#[test]
fn observation_serializes_deterministically() {
    let obs = Observation {
        timestamp: Timestamp { mono_ns: 42, wall_anchor_ns: 100 },
        source: Source::FileSystem,
        pid: Some(1234),
        payload: j(r#"{ "kind": "stub" }"#),
        tags: None,
    };
    let a = observation_to_json(&obs);
    let b = observation_to_json(&obs);
    assert_eq!(format!("{a:?}"), format!("{b:?}"));
    // `tags: None` must be omitted (deterministic shape).
    assert!(a.get("tags").is_none());
    // `pid: Some(_)` must be present.
    assert_eq!(a.get("pid").and_then(|v| v.as_u64()), Some(1234));
    assert_eq!(a.str_at("source"), Some("file_system"));
}

#[test]
fn bounded_bus_drops_on_full_and_counts() {
    let mut bus = Queue { counters: BusCounters::new(), items: Vec::new(), capacity: 2 };
    for _ in 0..5 {
        bus.emit(stub_obs(Source::Process));
    }
    // Capacity 2, no consumer running: 2 delivered, 3 dropped.
    assert_eq!(bus.items.len(), 2);

    let stats = bus.counters.stats();
    let proc = stats
        .iter()
        .find(|s| s.source == Source::Process)
        .expect("process stats present");
    assert_eq!(proc.sent, 2);
    assert_eq!(proc.dropped, 3);
    assert_eq!(bus.counters.dropped_total(), 3);
    // Other sources untouched.
    let fs = stats.iter().find(|s| s.source == Source::FileSystem).unwrap();
    assert_eq!(fs.sent, 0);
    assert_eq!(fs.dropped, 0);
}

#[test]
fn source_index_matches_all_order() {
    for (i, s) in Source::ALL.iter().enumerate() {
        assert_eq!(s.index(), i);
    }
}

#[test]
fn observation_is_read_back_from_its_json() {
    let mut obs = stub_obs(Source::Window);
    obs.pid = Some(7);
    obs.tags = Some(j(r#"{"room": 1}"#));
    let back = observation_from_json(&observation_to_json(&obs)).expect("an observation");
    assert_eq!(format!("{back:?}"), format!("{obs:?}"));
    assert!(observation_from_json(&j(r#"{"source": "window"}"#)).is_none());
    assert!(observation_from_json(&j(
        r#"{"timestamp": {"mono_ns": 1, "wall_anchor_ns": 2}, "source": "moon", "payload": 1}"#
    ))
    .is_none());
}

#[test]
fn nanoseconds_saturate() {
    assert_eq!(nanos_saturated(5), 5);
    assert_eq!(nanos_saturated(u128::MAX), u64::MAX);
}

#[test]
fn anchors_hold_what_the_wall_clock_says() {
    assert_eq!(anchor_of(None), 0);
    assert_eq!(anchor_of(Some(0)), 0);
    assert_eq!(anchor_of(Some(1_700_000_000_000_000_000)), 1_700_000_000_000_000_000);
    assert_eq!(anchor_of(Some(u64::MAX as u128 + 1)), u64::MAX);
}

#[test]
fn copies_hold_the_same() {
    let mut o = stub_obs(Source::Network);
    o.pid = Some(7);
    o.tags = Some(j(r#"["a"]"#));
    assert_eq!(format!("{:?}", o.clone()), format!("{o:?}"));
    let clock = MonotonicClock::new();
    assert_eq!(clock.clone().now().wall_anchor_ns, clock.now().wall_anchor_ns);
}
