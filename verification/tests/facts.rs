//! Counts, ranks, addresses and queries.

use agentworld::agents::{read_graph_from_store, AgentConfig};
use agentworld::baseline::{
    children_tallies, dns_tallies, event_hour, history_is_cold, port_touches, short_lived_tallies,
    threshold, window_alarms, BaselineCounts, Limits, WindowLimits,
};
use agentworld::capture::{summarize_capture, summarize_graph};
use agentworld::dns_reviewer::{client_name, domain_id};
use agentworld::events::{Event, EventKind, SCHEMA_VERSION};
use agentworld::graph::{
    AppNode, Edge, FileNode, Graph, Interval, ProcessId, ProcessNode, SocketId, SocketNode,
};
use agentworld::ip::{foreign_port, is_ip_address};
use agentworld::json::Json;
use agentworld::json_parse::parse_json;
use agentworld::json_text::text_of_json;
use agentworld::llm::read_reply;
use agentworld::narrator::{render_prompt, TimelineNarrator};
use agentworld::ndjson::{
    event_from_json, event_to_json, observation_from_json, read_document, read_events, read_line,
    read_observation, Line,
};
use agentworld::network_reviewer::{read_findings, split_host_port};
use agentworld::observation::{Source, Timestamp};
use agentworld::query::{compact_text, since, topology_report};
use agentworld::store::{EventRow, Store, StoreError};
use agentworld::store_trends::FieldWindowCount;
use agentworld::suspicions::sensitive_port;
use agentworld::timeline::{directory_bucket, top_dns_clients, top_endpoints};

const SEC: u64 = 1_000_000_000;
const HOUR: u64 = 3_600 * SEC;

fn j(text: &str) -> Json {
    parse_json(text).expect("a JSON document")
}

fn ts(ns: u64) -> Timestamp {
    Timestamp { mono_ns: ns, wall_anchor_ns: 0 }
}

fn ev(kind: EventKind, ns: u64, pid: Option<u32>, payload: &str) -> Event {
    Event { schema_version: SCHEMA_VERSION, timestamp: ts(ns), kind, pid, payload: j(payload) }
}

#[test]
fn addresses_are_told_from_other_texts() {
    for good in [
        "0.0.0.0", "255.255.255.255", "::", "::1", "1::", "2607:f8b0::200e", "1:2:3:4:5:6:7:8",
        "1:2:3:4:5:6:1.2.3.4", "::1.2.3.4", "1:2:3:4:5:6:7::", "fe80::ABCD",
    ] {
        assert!(is_ip_address(good), "{good}");
    }
    for bad in [
        "", "1.2.3", "1.2.3.4.5", "256.1.1.1", "01.2.3.4", "1.2.3.", "a.b.c.d", "1:2:3:4:5:6:7",
        "1:2:3:4:5:6:7:8:9", "1::2::3", ":::", "12345::", "1.2.3.4::", "::1.2.3.4:5", "1:2:3:4:5:6:7::8",
        "fe80::1%en0", "+1.2.3.4",
    ] {
        assert!(!is_ip_address(bad), "{bad}");
    }
    assert_eq!(foreign_port("1.2.3.4.65536"), None);
    assert_eq!(foreign_port("1.2.3.4.0"), Some(0));
    assert_eq!(sensitive_port(4444), Some("common reverse-shell port"));
    assert_eq!(sensitive_port(443), None);
}

#[test]
fn clients_with_more_names_come_first() {
    let mut events = Vec::new();
    for i in 0..5 {
        events.push(ev(EventKind::DnsQuery, i, None, r#"{"client_process_name": "loop", "name_hash": "a"}"#));
    }
    for h in ["x", "y"] {
        events.push(ev(
            EventKind::DnsQuery,
            9,
            None,
            &format!(r#"{{"client_process_name": "wide", "name_hash": "{h}"}}"#),
        ));
    }
    let top = top_dns_clients(&events);
    assert_eq!(top[0].process_name, "wide");
    assert_eq!((top[0].unique_names, top[0].total_queries), (2, 2));
    assert_eq!((top[1].unique_names, top[1].total_queries), (1, 5));
}

#[test]
fn small_open_connections_stay_visible() {
    let mut events = Vec::new();
    for i in 0..9u64 {
        events.push(ev(
            EventKind::ConnectionCompleted,
            i,
            None,
            &format!(r#"{{"foreign_addr": "1.1.1.{i}.443", "process_name": "p", "bytes_rx": {}}}"#, 1000 + i),
        ));
    }
    for i in 0..3u64 {
        events.push(ev(
            EventKind::ConnectionOpened,
            20 + i,
            None,
            &format!(r#"{{"foreign_addr": "9.9.9.{i}.443", "process_name": "p", "rxbytes": {}}}"#, 10 - i),
        ));
    }
    let top = top_endpoints(&events);
    assert_eq!(top.len(), 10);
    assert_eq!(top[0].foreign_addr, "1.1.1.8.443");
    assert!(top[..8].iter().all(|e| !e.still_open));
    assert_eq!(top[8].foreign_addr, "9.9.9.0.443");
    assert_eq!(top[9].foreign_addr, "9.9.9.1.443");
}

#[test]
fn paths_of_up_to_four_components_stay_as_they_are() {
    assert_eq!(directory_bucket("/a/b/c/d"), "/a/b/c/d");
    assert_eq!(directory_bucket("/a/b/c/d/e"), "/a/b/c/d");
    assert_eq!(directory_bucket("relative/path"), "relative/path");
}

#[test]
fn graphs_are_summed_up_like_events() {
    let g = Graph {
        processes: vec![ProcessNode {
            id: ProcessId { pid: 1, start_unix_secs: 1 },
            comm: Some("git".into()),
            name: None,
            exec_path: None,
            ppid: None,
            uid: None,
            birth: ts(10 * SEC),
            death: Some(ts(70 * SEC)),
        }],
        apps: vec![AppNode {
            id: "com.x".into(),
            name: None,
            exec_path: None,
            intervals: vec![Interval { from: ts(20 * SEC), to: Some(ts(50 * SEC)) }],
        }],
        sockets: vec![SocketNode {
            id: SocketId { proto: "tcp4".into(), local_addr: "a".into(), foreign_addr: "b.1".into() },
            state: None,
            process_name: None,
            pid_at_open: None,
            opened: ts(0),
            closed: None,
            rxbytes_last: Some(u64::MAX),
            txbytes_last: Some(1),
        }],
        files: vec![FileNode {
            path: "/tmp/x".into(),
            flags: vec![],
            first_seen: ts(30 * SEC),
            last_seen: ts(130 * SEC),
            touch_count: 7,
        }],
        ..Graph::default()
    };
    let s = summarize_graph(&g);
    assert_eq!(s.duration_secs, 120, "times that were never set do not count");
    assert_eq!(s.events_total, 4);
    assert_eq!((s.focus_segments[0].app_name.as_str(), s.focus_segments[0].duration_secs), ("com.x", 30));
    assert_eq!(s.top_processes[0].spawns, 1);
    assert_eq!((s.top_endpoints[0].process_name.as_str(), s.top_endpoints[0].bytes_total), ("?", u64::MAX));
    assert_eq!(s.top_directories[0].file_changes, 7);
    assert_eq!(s.kind_counts[4], ("domains".to_string(), 0));
    assert_eq!(summarize_graph(&Graph::default()).events_total, 0);
}

#[test]
fn prompts_are_exact() {
    let s = summarize_capture(&[ev(EventKind::ProcessBirth, 0, None, r#"{"comm": "git"}"#)]);
    assert_eq!(
        render_prompt(&s, false),
        "A 0s macOS capture recorded 1 events.\n\nEVENT MIX: process_birth=1\n\nAPP FOCUS: no focus \
         changes were captured.\n\nTOP PROCESSES (by spawn count, system daemons filtered):\n  - git \
         (1x)\n\nWrite 3–6 sentences of plain prose addressed to the user.\n"
    );
    let req = TimelineNarrator::new(AgentConfig::default()).live().request(&s);
    assert!(req.prompt.starts_with("Live window: the last 0s of macOS activity (1 events)."));
    assert!(req.system.unwrap().starts_with("You are narrating live macOS activity"));
    assert_eq!(req.options.unwrap().num_predict, Some(400));
    assert!(req.format.is_none() && !req.stream);
}

#[test]
fn windows_are_counted_for_the_baseline() {
    let events = vec![
        ev(EventKind::ProcessBirth, 0, Some(5), r#"{"comm": "sh", "ppid": 4294967297}"#),
        ev(EventKind::ProcessBirth, HOUR, Some(6), r#"{"comm": "sh", "ppid": 1}"#),
        ev(EventKind::ProcessDeath, SEC, Some(5), r#"{"comm": "zed"}"#),
        ev(EventKind::ProcessDeath, HOUR + SEC, Some(6), r#"{"comm": "awk"}"#),
        ev(EventKind::ProcessDeath, HOUR + 10 * SEC, Some(6), r#"{"comm": "old"}"#),
        ev(EventKind::DnsQuery, 25 * HOUR, None, r#"{"client_process_name": "curl", "name_hash": "a"}"#),
        ev(EventKind::DnsQuery, 26 * HOUR, None, r#"{"client_process_name": "curl", "name_hash": "a"}"#),
        ev(EventKind::ConnectionOpened, HOUR, None, r#"{"foreign_addr": "1.2.3.4.22", "process_name": "nc"}"#),
        ev(EventKind::ConnectionCompleted, 2 * HOUR, None, r#"{"foreign_addr": "1.2.3.4.22", "process_name": "nc"}"#),
    ];
    let young = short_lived_tallies(&events);
    let names: Vec<&str> = young.iter().map(|t| t.name.as_str()).collect();
    assert_eq!(names, vec!["awk", "zed"]);
    assert_eq!((young[0].count, young[0].hour), (1, 1));
    let dns = dns_tallies(&events);
    assert_eq!((dns[0].client.as_str(), dns[0].total, dns[0].unique_names, dns[0].hour), ("curl", 2, 1, 2));
    let kids = children_tallies(&events);
    assert_eq!((kids[0].name.as_str(), kids[0].count, kids[0].hour), ("1", 2, 1));
    let ports = port_touches(&events);
    assert_eq!(ports.len(), 1);
    assert_eq!((ports[0].port, ports[0].label, ports[0].hour), (22, "ssh", 1));
    let mut late = ev(EventKind::DnsQuery, u64::MAX, None, "{}");
    late.timestamp.wall_anchor_ns = 5;
    assert_eq!(event_hour(&late), (u64::MAX / HOUR) % 24);
}

#[test]
fn histories_are_counted_for_the_baseline() {
    let row = |start: i64| FieldWindowCount { value: "x".into(), window_start_unix_ns: start, count: 1 };
    let day = 24 * HOUR as i64;
    assert!(history_is_cold(None, None, &vec![], &vec![]));
    assert!(history_is_cold(Some(0), Some(3 * day - 1), &vec![], &vec![]));
    assert!(!history_is_cold(Some(0), Some(3 * day), &vec![], &vec![]));
    assert!(!history_is_cold(None, None, &vec![row(0)], &vec![row(3 * day - HOUR as i64)]));

    let mut store = Store::open_in_memory().unwrap();
    store
        .append_events(&[
            ev(EventKind::ProcessDeath, HOUR, None, r#"{"comm": "sh"}"#),
            ev(EventKind::ProcessDeath, HOUR + 1, None, r#"{"comm": "sh"}"#),
            ev(EventKind::ProcessDeath, 5 * HOUR, None, r#"{"comm": "sh"}"#),
            ev(EventKind::DnsQuery, 2 * HOUR, None, r#"{"client_process_name": "curl"}"#),
        ])
        .unwrap();
    let b = BaselineCounts::from_store(&store, 10 * HOUR as i64, 1).unwrap();
    assert!(b.cold);
    assert_eq!(b.deaths.len(), 1);
    assert_eq!((b.deaths[0].entity.as_str(), &b.deaths[0].counts), ("sh", &vec![2, 1]));
    assert_eq!(b.lookups[0].entity, "curl");
    assert!(b.children.is_empty());
    let deaths = b.hours.iter().find(|h| h.kind == "process_death").unwrap();
    assert_eq!((deaths.counts[1], deaths.counts[5], deaths.counts.len()), (2, 1, 24));

    store.append_events(&[ev(EventKind::ProcessDeath, HOUR, None, r#"{"comm": 7}"#)]).unwrap();
    assert!(BaselineCounts::from_store(&store, 10 * HOUR as i64, 1).is_err());
}

#[test]
fn lines_are_events_observations_or_neither() {
    let line = r#"{"timestamp": {"mono_ns": 1, "wall_anchor_ns": 2}, "kind": "dns_query", "pid": 3, "payload": {"a": 1}}"#;
    let obs = r#"{"timestamp": {"mono_ns": 1, "wall_anchor_ns": 2}, "source": "window", "payload": null}"#;
    let events = read_events(&[line.to_string(), "".into(), obs.into(), "nonsense".into(), format!("  {line}\n")]);
    assert_eq!(events.len(), 2);
    assert_eq!((events[0].kind, events[0].pid, events[0].schema_version), (EventKind::DnsQuery, Some(3), SCHEMA_VERSION));
    assert!(matches!(read_line(" \t"), Line::Blank));
    assert!(matches!(read_line(obs), Line::Observation(_)));
    assert!(matches!(read_line(line), Line::Event(_)));
    assert!(matches!(read_line(r#"{"kind": "nope"}"#), Line::Other));
    assert!(matches!(read_line(r#"{"a": 1}"#), Line::Other));
    assert!(matches!(read_document(&event_to_json(&events[0])), Line::Event(_)));
    let back = event_from_json(&event_to_json(&events[0])).unwrap();
    assert_eq!(format!("{back:?}"), format!("{:?}", events[0]));
    assert!(event_from_json(&j(r#"{"timestamp": {"mono_ns": 1, "wall_anchor_ns": 2}, "kind": "dns_query", "pid": 4294967296, "payload": 1}"#)).is_none());
}

#[test]
fn names_and_hosts_are_read_from_payloads() {
    assert_eq!(domain_id(&j(r#"{"qname": "a.b..", "masked": false}"#)).as_deref(), Some("a.b."));
    assert_eq!(domain_id(&j(r#"{"qname": "", "name_hash": "h"}"#)).as_deref(), Some("hash:h"));
    assert_eq!(domain_id(&j(r#"{"qname": "x", "masked": true, "name_hash": ""}"#)), None);
    assert_eq!(client_name(&j(r#"{"process": {"comm": "a"}, "client_process_name": "b"}"#)), "a");
    assert_eq!(client_name(&j(r#"{"process": null}"#)), "?");
    assert_eq!(split_host_port("fe80::1.22"), ("fe80::1".to_string(), "22".to_string()));
    assert_eq!(split_host_port("host"), ("host".to_string(), "?".to_string()));
}

#[test]
fn shapes_and_texts_are_reported() {
    let id = |n| ProcessId { pid: n, start_unix_secs: 1 };
    let node = |n: u32| ProcessNode {
        id: id(n),
        comm: Some(format!("p{n}")),
        name: None,
        exec_path: None,
        ppid: None,
        uid: None,
        birth: ts(1),
        death: None,
    };
    let g = Graph {
        processes: (1..=4).map(node).collect(),
        edges: vec![
            Edge::ParentOf { parent: id(1), child: id(2) },
            Edge::ParentOf { parent: id(1), child: id(3) },
        ],
        ..Graph::default()
    };
    let r = topology_report(&g, 2);
    assert_eq!(r.component_sizes, vec![3, 1]);
    assert_eq!(
        r.top_by_degree,
        vec![("p1 (pid 1)".to_string(), 2, 2), ("p2 (pid 2)".to_string(), 1, 1)]
    );
    let mut store = Store::open_in_memory().unwrap();
    store.merge_graph(&g).unwrap();
    assert_eq!(read_graph_from_store(&store).unwrap().processes.len(), 4);
    assert_eq!(compact_text("abcdef", 3), "abc…");
    assert_eq!(compact_text("äöü", 3), "äöü");
    assert_eq!(since(120_000_000_000, 1), 60_000_000_000);
    assert_eq!(since(0, u64::MAX), i64::MIN);
}

fn limits(cold: bool, known: Vec<(String, u64)>, default: u64) -> WindowLimits {
    WindowLimits {
        cold,
        deaths: Limits { per_entity: known, default },
        lookups: Limits { per_entity: Vec::new(), default },
        children: default,
    }
}

fn burst_of(comm: &str, n: u32) -> Vec<Event> {
    let mut events = Vec::new();
    for pid in 0..n {
        events.push(ev(EventKind::ProcessBirth, 0, Some(pid), "{}"));
        events.push(ev(EventKind::ProcessDeath, SEC, Some(pid), &format!(r#"{{"comm": "{comm}"}}"#)));
    }
    events
}

#[test]
fn limits_are_the_machines_own_once_it_is_known() {
    let cold = limits(true, vec![("sh".into(), 100)], 100);
    assert!(window_alarms(&burst_of("sh", 4), &cold).is_empty());
    let found = window_alarms(&burst_of("sh", 5), &cold);
    assert_eq!(found.len(), 1);
    assert_eq!((found[0].entity.as_str(), found[0].metric, found[0].observed), ("process:sh", "spawn_burst", 5));
    let warm = limits(false, vec![("sh".into(), 40)], 7);
    assert!(window_alarms(&burst_of("sh", 39), &warm).is_empty(), "routine for this machine");
    assert_eq!(window_alarms(&burst_of("sh", 40), &warm).len(), 1);
    assert_eq!(window_alarms(&burst_of("awk", 7), &warm).len(), 1, "no history of its own");
    assert_eq!(threshold(&warm.deaths, "sh", 5, false), 40);
    assert_eq!(threshold(&warm.deaths, "awk", 5, false), 7);
    assert_eq!(threshold(&limits(false, vec![], 0).deaths, "awk", 5, false), 5);
    assert_eq!(threshold(&warm.deaths, "sh", 5, true), 5);
}

#[test]
fn parents_and_clients_stand_out() {
    let mut events = Vec::new();
    for pid in 10..18 {
        events.push(ev(EventKind::ProcessBirth, HOUR, Some(pid), r#"{"ppid": 723}"#));
    }
    for i in 0..50 {
        events.push(ev(
            EventKind::DnsQuery,
            HOUR,
            None,
            &format!(r#"{{"client_process_name": "Chrome", "name_hash": "{}"}}"#, i % 3),
        ));
    }
    let found = window_alarms(&events, &limits(true, vec![], 0));
    let entities: Vec<&str> = found.iter().map(|a| a.entity.as_str()).collect();
    assert_eq!(entities, vec!["dns_client:Chrome", "parent:723"]);
    assert_eq!((found[0].observed, found[0].unique_names), (50, 3));
    assert_eq!(found[1].observed, 8);
}

#[test]
fn a_process_is_seen_until_it_was_last_seen() {
    let at = |n: u64| Timestamp { mono_ns: n, wall_anchor_ns: 1000 };
    let mut s = Store::open_in_memory().unwrap();
    s.merge_graph(&Graph {
        processes: vec![ProcessNode {
            id: ProcessId { pid: 7, start_unix_secs: 1 },
            comm: None,
            name: None,
            exec_path: None,
            ppid: None,
            uid: None,
            birth: at(5),
            death: Some(at(10)),
        }],
        ..Graph::default()
    })
    .unwrap();
    let seen = s.processes_seen_since(1000).unwrap();
    assert_eq!(seen.len(), 1);
    assert_eq!(seen[0].id.pid, 7);
    assert_eq!(s.processes_seen_since(1010).unwrap().len(), 1);
    assert!(s.processes_seen_since(1011).unwrap().is_empty());
}

fn row(ts_unix_ns: i64, payload: &str) -> EventRow {
    EventRow {
        ts_unix_ns,
        kind: EventKind::DnsQuery,
        pid: None,
        schema_version: SCHEMA_VERSION,
        payload: j(payload),
    }
}

#[test]
fn hours_and_windows_before_the_epoch_go_on_backwards() {
    let hour = HOUR as i64;
    let rows = vec![row(-1, r#"{"a": "x"}"#), row(-hour, r#"{"a": "x"}"#), row(1, r#"{"a": "x"}"#)];
    let s = Store::init(Vec::new(), Vec::new(), rows, Vec::new()).unwrap();
    let hours: Vec<(u8, u64)> = s
        .event_hourly_profile(i64::MIN)
        .unwrap()
        .iter()
        .map(|h| (h.hour_of_day, h.count))
        .collect();
    assert_eq!(hours, vec![(0, 1), (23, 2)]);
    let windows: Vec<(i64, u64)> = s
        .event_field_window_counts(EventKind::DnsQuery, "a", i64::MIN, hour)
        .unwrap()
        .iter()
        .map(|w| (w.window_start_unix_ns, w.count))
        .collect();
    assert_eq!(windows, vec![(-hour, 2), (0, 1)]);

    let rows = vec![row(i64::MIN, r#"{"a": "x"}"#)];
    let s = Store::init(Vec::new(), Vec::new(), rows, Vec::new()).unwrap();
    assert_eq!(s.event_hourly_profile(i64::MIN).unwrap()[0].hour_of_day, 0);
    assert!(s.event_field_window_counts(EventKind::DnsQuery, "a", i64::MIN, hour).is_err());
    assert!(s.event_field_window_counts(EventKind::DnsQuery, "a", i64::MIN, 1).is_ok());
    assert!(s.event_field_window_counts(EventKind::DnsQuery, "a", i64::MIN, 0).is_err());
    assert!(s.event_field_window_counts(EventKind::DnsQuery, "b", i64::MIN, 0).unwrap().is_empty());
}

#[test]
fn lists_and_objects_count_as_their_text() {
    let rows = vec![
        row(1, r#"{"a": {"b": [1, "x\n"]}}"#),
        row(2, r#"{"a": {"b": [1, "x\n"]}}"#),
        row(3, r#"{"a": {"b": "y"}}"#),
        row(4, r#"{"a": 5}"#),
    ];
    let s = Store::init(Vec::new(), Vec::new(), rows, Vec::new()).unwrap();
    let b = s.event_field_window_counts(EventKind::DnsQuery, "a.b", 0, 10).unwrap();
    let counts: Vec<(&str, u64)> = b.iter().map(|w| (w.value.as_str(), w.count)).collect();
    assert_eq!(counts, vec![(r#"[1,"x\n"]"#, 2), ("y", 1)]);
    assert!(s.event_field_window_counts(EventKind::DnsQuery, "a", 0, 10).is_err());
    let a = s.event_field_window_counts(EventKind::DnsQuery, "a", 0, 10);
    assert!(matches!(a, Err(StoreError::Sql(_))));
}

#[test]
fn json_text_is_compact() {
    let text = r#"{"a":[null,true,false,-3,1.5,"q\"\\\u0001"],"b":{},"c":[]}"#;
    assert_eq!(text_of_json(&j(text)), text);
    assert_eq!(text_of_json(&j(text)), serde_json::from_str::<serde_json::Value>(text).unwrap().to_string());
}

#[test]
fn records_may_be_lists() {
    let e = event_from_json(&j(r#"[[1, 2], "dns_query", null, {"a": 1}]"#)).unwrap();
    assert_eq!((e.timestamp.mono_ns, e.timestamp.wall_anchor_ns), (1, 2));
    assert_eq!((e.kind, e.pid, e.schema_version), (EventKind::DnsQuery, None, SCHEMA_VERSION));
    assert!(event_from_json(&j(r#"[[1, 2], "dns_query", {"a": 1}]"#)).is_none());
    assert!(event_from_json(&j(r#"[[1], "dns_query", null, {"a": 1}]"#)).is_none());
    let o = observation_from_json(&j(r#"[{"mono_ns": 1, "wall_anchor_ns": 2}, {"window": null}, 7, [], null]"#)).unwrap();
    assert_eq!((o.source, o.pid), (Source::Window, Some(7)));
    assert!(o.tags.is_none());
    let r = read_reply(&j(r#"["yes", "m"]"#)).unwrap();
    assert_eq!((r.response.as_str(), r.model.as_str(), r.total_duration, r.eval_count), ("yes", "m", None, None));
    assert!(read_reply(&j(r#"["yes"]"#)).is_none());
    let (summary, findings) = read_findings(&j(r#"["s", [["h", null, "r", "low"]]]"#)).unwrap();
    assert_eq!((summary.as_str(), findings[0].foreign_host.as_str()), ("s", "h"));
}

fn counted(s: &Store, field: &str) -> Vec<(String, u64)> {
    let rows = s.event_field_window_counts(EventKind::DnsQuery, field, 0, 10).unwrap();
    rows.into_iter().map(|w| (w.value, w.count)).collect()
}

#[test]
fn objects_that_differ_in_key_order_are_one_value() {
    let rows = vec![
        row(1, r#"{"a": {"y": 1, "x": {"d": 2, "c": 3}}}"#),
        row(2, r#"{"a": {"x": {"c": 3, "d": 2}, "y": 1}}"#),
    ];
    let s = Store::init(Vec::new(), Vec::new(), rows, Vec::new()).unwrap();
    assert_eq!(counted(&s, "a"), vec![(r#"{"x":{"c":3,"d":2},"y":1}"#.to_string(), 2)]);
    let text = r#"{"z":1,"b":{"d":1,"c":2},"a":[]}"#;
    assert_eq!(text_of_json(&j(text)), serde_json::from_str::<serde_json::Value>(text).unwrap().to_string());
}

#[test]
fn paths_reach_into_lists_and_quoted_keys() {
    let rows = vec![
        row(1, r#"{"a": ["p", "q"], "x.y": "dotted", "c": {"d": [["in"]]}}"#),
        row(2, r#"{"a": ["p", "r", "s"]}"#),
        row(3, r#"{"a": "no list"}"#),
    ];
    let s = Store::init(Vec::new(), Vec::new(), rows, Vec::new()).unwrap();
    let one = |v: &str, n: u64| (v.to_string(), n);
    assert_eq!(counted(&s, "a[0]"), vec![one("p", 2)]);
    assert_eq!(counted(&s, "a[#-1]"), vec![one("q", 1), one("s", 1)]);
    assert_eq!(counted(&s, "a[2]"), vec![one("s", 1)]);
    assert_eq!(counted(&s, "a[#]"), vec![]);
    assert_eq!(counted(&s, "\"x.y\""), vec![one("dotted", 1)]);
    assert_eq!(counted(&s, "x.y"), vec![]);
    assert_eq!(counted(&s, "c.d[0][0]"), vec![one("in", 1)]);
}

#[test]
fn names_that_are_no_path_are_refused() {
    let rows = vec![row(1, r#"{"a": ["p"]}"#)];
    let s = Store::init(Vec::new(), Vec::new(), rows, Vec::new()).unwrap();
    for (field, message) in [
        ("", "bad JSON path: '$.'"),
        ("a[x]", "bad JSON path: '$.a[x]'"),
        ("a[0", "bad JSON path: '$.a[0'"),
        ("a['", "bad JSON path: '$.a['''"),
        ("\"a", "bad JSON path: '$.\"a'"),
    ] {
        match s.event_field_window_counts(EventKind::DnsQuery, field, 0, 10) {
            Err(StoreError::Sql(m)) => assert_eq!(m, message),
            other => panic!("{field}: {other:?}"),
        }
    }
    // Without an event there is nothing to look into.
    let empty = Store::open_in_memory().unwrap();
    assert!(empty.event_field_window_counts(EventKind::DnsQuery, "a[x]", 0, 10).unwrap().is_empty());
}

#[test]
fn records_that_name_a_field_twice_are_refused() {
    let event = |extra: &str| {
        format!(r#"{{"timestamp": {{"mono_ns": 1, "wall_anchor_ns": 2}}, "kind": "dns_query", "payload": {{"a": 1, "a": 2}}{extra}}}"#)
    };
    let read = |line: String| read_events(&[line]).len();
    assert_eq!(read(event("")), 1);
    assert_eq!(read(event(r#", "kind": "dns_query""#)), 0);
    assert_eq!(read(event(r#", "ki\u006ed": "dns_query""#)), 0);
    assert_eq!(read(event(r#", "other": 1, "other": 2"#)), 1);
    assert_eq!(read(r#"{"timestamp": {"mono_ns": 1, "mono_ns": 1, "wall_anchor_ns": 2}, "kind": "dns_query", "payload": 0}"#.to_string()), 0);

    let obs = |extra: &str| {
        format!(r#"{{"timestamp": {{"mono_ns": 1, "wall_anchor_ns": 2}}, "source": "window", "payload": "{{,\"source\": 1}}"{extra}}}"#)
    };
    assert_eq!(read_observation(&obs("")).unwrap().source, Source::Window);
    assert!(read_observation(&obs(r#", "pid": 1, "pid": 1"#)).is_none());
    assert!(read_observation(&obs(r#", "note": 1, "note": 1"#)).is_some());
    // A mixed stream is read as documents first, where the last one counts.
    assert!(matches!(read_line(&obs(r#", "pid": 1, "pid": 2"#)), Line::Observation(o) if o.pid == Some(2)));
}

#[test]
fn escapes_in_quoted_keys_are_read() {
    let rows = vec![row(1, r#"{"a\tb": "tab", "ab": "plain", "é": "accent", "\u0001": "one", "😀": "face"}"#)];
    let s = Store::init(Vec::new(), Vec::new(), rows, Vec::new()).unwrap();
    let one = |v: &str| vec![(v.to_string(), 1)];
    assert_eq!(counted(&s, r#""a\tb""#), one("tab"));
    assert_eq!(counted(&s, r#""a\u0009b""#), one("tab"));
    assert_eq!(counted(&s, r#""\x61b""#), one("plain"));
    assert_eq!(counted(&s, "\"a\\\nb\""), one("plain"));
    assert_eq!(counted(&s, r#""\u00e9""#), one("accent"));
    assert_eq!(counted(&s, r#""\uD83D\uDE00""#), one("face"));
    assert_eq!(counted(&s, r#""ab\0rest""#), one("plain"));
    assert_eq!(counted(&s, r#""\q""#), vec![]);
}

#[test]
fn paths_mean_what_they_mean_to_the_database() {
    let payload = r#"{"a": ["p", ["q"], {"k": "r"}], "x.y": "dotted", "b": {"c": "d", "": "empty"}, "t\tq": "tab", "é": "accent", "😀": "face", "z\u0000z": "nul", "n\\m": "back", "\u000b": "vt", "𙦙": "odd", "\u0083\u0080": "low"}"#;
    let text = text_of_json(&j(payload));
    let s = Store::init(Vec::new(), Vec::new(), vec![row(1, payload)], Vec::new()).unwrap();
    let db = rusqlite::Connection::open_in_memory().unwrap();
    for field in [
        "", "a", "a[0]", "a[1]", "a[1][0]", "a[2].k", "a[3]", "a[#]", "a[#-1].k", "a[#-3]", "a[#-4]", "a[#-", "a[#-x]",
        "a[", "a[]", "a[ 0]", "a[0]x", "a.k", "a[4294967296]", "a[#-4294967299]", "b", "b.c", "b.", "b..c", "b.\"c\"",
        "b.\"\"", "\"b\".c", "\"b\"c", "\"x.y\"", "x.y", "\"b", "é", "\"é\"", "\"\\u00e9\"", "\"\\u00E9\"", "\"\\xe9\"",
        "\"t\\tq\"", "\"t\\u0009q\"", "\"t\\x09q\"", "t\tq", "\"t\tq\"", "t\\tq", "\"\\uD83D\\uDE00\"", "\"\\uD83D\"", "😀",
        "z", "\"z\"", "\"z\\0x\"", "\"z\\u0000x\"", "n\\m", "\"n\\\\m\"", "\"n\\m\"", "\"\\v\"", "\"\\q\"", "\"\\", "\"\\\"",
        "\"\\u12\"", "\"\\x4\"", "\"b\\\n\"", "\"\\\nb\"", "\"\\\r\nb\".c", "\"\\\rb\"", "\"\\\u{2028}b\"", "\"\\\u{2028}\\\n\\x62\"",
        "\"\\é\"", "\"\\u00gé3\"", "\"\\u008é\u{80}\"", "\"\\u000é\u{80}\"", "it's", "'[", "a['", "a\0b", "a[\0",
    ] {
        let got = s.event_field_window_counts(EventKind::DnsQuery, field, 0, 10);
        let path = format!("$.{field}");
        let want: Result<Option<String>, rusqlite::Error> =
            db.query_row("SELECT json_extract(?1, ?2)", (&text, &path), |r| r.get(0));
        match (got, want) {
            (Ok(rows), Ok(None)) => assert!(rows.is_empty(), "{field:?}: {rows:?}"),
            (Ok(rows), Ok(Some(v))) => {
                assert_eq!(rows.len(), 1, "{field:?}");
                assert_eq!((rows[0].value.as_str(), rows[0].count), (v.as_str(), 1), "{field:?}");
            }
            (Err(StoreError::Sql(m)), Err(e)) => assert_eq!(m, e.to_string(), "{field:?}"),
            (got, want) => panic!("{field:?}: {got:?} {want:?}"),
        }
    }
}
