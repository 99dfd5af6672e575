//! What the daemon decides.

use agentworld::capture::{summarize_capture, CaptureSummary};
use agentworld::daemon::{
    bits_of_rank, capture_health, cutoff_before, enrich_summary_from_store, lookback_days, mark_start,
    merge_scored_suspicions, rank_of_bits, start_of_window, Daemon, DrainStats, ScoredSuspicion,
    NOMINAL_RANK,
};
use agentworld::events::{Event, EventKind, SCHEMA_VERSION};
use agentworld::json::Json;
use agentworld::json_parse::parse_json;
use agentworld::observation::{Observation, Source, Timestamp};
use agentworld::query::daemon_status;
use agentworld::reconstructor::Reconstructor;
use agentworld::store::Store;

const SEC: u64 = 1_000_000_000;
const TTL: u64 = 3_600 * SEC;

fn j(text: &str) -> Json {
    parse_json(text).expect("a JSON document")
}

fn event(secs: u64, kind: EventKind, pid: Option<u32>, payload: &str) -> Event {
    Event {
        schema_version: SCHEMA_VERSION,
        timestamp: Timestamp { mono_ns: secs * SEC, wall_anchor_ns: 0 },
        kind,
        pid,
        payload: j(payload),
    }
}

fn birth(secs: u64, pid: u32) -> Event {
    event(
        secs,
        EventKind::ProcessBirth,
        Some(pid),
        r#"{"comm": "tool", "start_unix_secs": 5, "exec_path": "/tmp/tool"}"#,
    )
}

fn obs(source: Source, secs: u64) -> Observation {
    Observation {
        timestamp: Timestamp { mono_ns: secs * SEC, wall_anchor_ns: 0 },
        source,
        pid: None,
        payload: Json::Null,
        tags: None,
    }
}

fn scored(text: &str, score: f64) -> ScoredSuspicion {
    ScoredSuspicion { text: text.into(), rank: rank_of_bits(score.to_bits()) }
}

#[test]
fn window_loses_what_is_too_old_and_keeps_the_newest() {
    let mut d = Daemon::new(false);
    let window_ns = 10 * SEC;
    for s in [1u64, 5, 12] {
        d.receive(&obs(Source::Process, s), vec![birth(s, s as u32)], window_ns);
    }
    let kept: Vec<u64> = d
        .to_narrate(true)
        .unwrap()
        .iter()
        .map(|e| e.timestamp.mono_ns / SEC)
        .collect();
    assert_eq!(kept, vec![5, 12]);
    // Nothing is narrated when it is not asked for.
    assert!(d.to_narrate(false).is_none());
    assert!(Daemon::new(true).to_narrate(true).is_none());
}

#[test]
fn a_tick_stores_what_came_and_counts_sources() {
    let mut store = Store::open_in_memory().unwrap();
    mark_start(&mut store, "77", 1_000);
    let mut d = Daemon::new(true);
    d.receive(&obs(Source::Process, 1), vec![birth(1, 10)], 60 * SEC);
    d.receive(&obs(Source::Network, 2), vec![], 60 * SEC);
    let (report, graph) = d.flush(&mut store, 5 * SEC as i64, 100, "[]", 0, TTL).expect("a store");
    assert_eq!(report.merge.nodes_inserted, 1);
    assert_eq!(report.appended, Some(1));
    assert!(report.pruned.is_none(), "no limit, no pruning");
    assert_eq!(graph.processes.len(), 1);
    assert_eq!(store.summary().unwrap().event_count, 1);
    assert_eq!(store.get_meta("bus_drops_json").unwrap().as_deref(), Some("[]"));
    assert_eq!(d.take_sources(), vec![0, 1, 1, 0, 0]);
    assert_eq!(d.take_sources(), vec![0, 0, 0, 0, 0]);
    // Nothing waits any more, and merging again adds no node.
    let (again, _) = d.flush(&mut store, 6 * SEC as i64, 200, "[]", 0, TTL).unwrap();
    assert_eq!(again.appended, None);
    assert_eq!((again.merge.nodes_inserted, again.merge.nodes_updated), (0, 1));
    assert_eq!(store.summary().unwrap().event_count, 1);
}

#[test]
fn pruning_happens_once_an_hour() {
    let mut store = Store::open_in_memory().unwrap();
    let mut d = Daemon::new(true);
    let hour = 3_600 * SEC;
    d.receive(&obs(Source::Process, 1), vec![birth(1, 10)], SEC);
    let now = 2 * 86_400 * SEC as i64;
    let (first, _) = d.flush(&mut store, now, 0, "", 1, TTL).unwrap();
    let pruned = first.pruned.expect("the first tick prunes");
    assert_eq!((pruned.nodes_deleted, pruned.events_deleted), (1, 1));
    let (second, _) = d.flush(&mut store, now, hour - 1, "", 1, TTL).unwrap();
    assert!(second.pruned.is_none());
    let (third, _) = d.flush(&mut store, now, hour, "", 1, TTL).unwrap();
    assert!(third.pruned.is_some());
}

#[test]
fn without_a_store_nothing_is_stored() {
    let mut store = Store::open_in_memory().unwrap();
    let mut d = Daemon::new(false);
    d.receive(&obs(Source::Process, 1), vec![birth(1, 10)], SEC);
    assert!(d.flush(&mut store, 0, 0, "", 30, TTL).is_none());
    assert!(d.stop(&mut store).is_none());
    assert_eq!(store.summary().unwrap().event_count, 0);
}

#[test]
fn a_stopped_daemon_reads_as_stopped() {
    let mut store = Store::open_in_memory().unwrap();
    let now = 1_000 * SEC as i64;
    assert_eq!(daemon_status(&store, now), "never ran against this store");
    mark_start(&mut store, "42", now);
    assert_eq!(daemon_status(&store, now), "pid 42, heartbeat unix 1000 (0s ago)");
    assert_eq!(
        daemon_status(&store, now + 121 * SEC as i64),
        "pid 42, heartbeat unix 1000 (2m1s ago) — likely not running"
    );
    let mut d = Daemon::new(true);
    d.receive(&obs(Source::Process, 1), vec![birth(1, 10)], SEC);
    let (merge, appended) = d.stop(&mut store).unwrap();
    assert_eq!((merge.nodes_inserted, appended), (1, Some(1)));
    assert_eq!(
        daemon_status(&store, now),
        "stopped cleanly (last tick unix 1000 (0s ago))"
    );
}

#[test]
fn the_baseline_is_rebuilt_once_an_hour() {
    let mut d = Daemon::new(true);
    assert!(d.baseline_due(0));
    d.baseline_built(5);
    assert!(!d.baseline_due(3_600 * SEC + 4));
    assert!(d.baseline_due(3_600 * SEC + 5));
    assert_eq!(lookback_days(0), 30);
    assert_eq!(lookback_days(7), 7);
    assert_eq!(lookback_days(90), 30);
}

#[test]
fn times_before_now_stop_at_the_smallest() {
    assert_eq!(start_of_window(100, 40), 60);
    assert_eq!(start_of_window(i64::MIN + 5, 40), i64::MIN);
    assert_eq!(cutoff_before(86_400 * SEC as i64, 1), 0);
    assert_eq!(cutoff_before(0, u64::MAX), i64::MIN);
}

#[test]
fn pipeline_matches_bare_reconstructor() {
    let process = |mono_ms: u64, pid: u32, comm: &str| Observation {
        timestamp: Timestamp {
            mono_ns: mono_ms * 1_000_000,
            wall_anchor_ns: 1_700_000_000_000_000_000,
        },
        source: Source::Process,
        pid: Some(pid),
        payload: j(&format!(
            r#"{{"comm": "{comm}", "name": "{comm}", "ppid": 1, "uid": 501, "exec_path": "/usr/bin/{comm}", "start_unix_secs": 1700000000, "status": 2, "nfiles": 4}}"#
        )),
        tags: None,
    };
    let trace = vec![
        process(0, 100, "alpha"),
        process(1, 101, "beta"),
        process(400, 100, "alpha"),
        process(401, 102, "gamma"),
        process(800, 100, "alpha"),
        process(801, 102, "gamma"),
    ];
    let mut bare = Reconstructor::new();
    let expected: Vec<Event> = trace.iter().flat_map(|o| bare.process(o)).collect();
    assert!(
        expected.iter().any(|e| format!("{:?}", e.kind).contains("Birth")),
        "trace should reconstruct at least one birth"
    );
    // Through the daemon's own bookkeeping the same events arrive in the same order.
    let mut recon = Reconstructor::new();
    let mut d = Daemon::new(false);
    let mut stats = DrainStats::default();
    for o in &trace {
        stats.record(true);
        let events = recon.process(o);
        d.receive(o, events, u64::MAX);
    }
    assert_eq!(stats.dropped_total(), 0);
    assert_eq!(format!("{:?}", d.to_narrate(true).unwrap()), format!("{expected:?}"));
}

#[test]
fn drain_drops_when_downstream_stalls() {
    let mut stats = DrainStats::default();
    let mut queue: Vec<u64> = Vec::new();
    for i in 0..10 {
        let room = queue.len() < 2; // tiny, never drained
        stats.record(room);
        if room {
            queue.push(i);
        }
    }
    assert_eq!(stats.forwarded, 2);
    assert_eq!(stats.dropped_total(), 8);
}

#[test]
fn ranks_order_as_scores_do() {
    let scores = [f64::NEG_INFINITY, -2.5, -0.0, 0.0, 0.5, 1.0, 3.0, 1e300, f64::INFINITY];
    for w in scores.windows(2) {
        assert!(rank_of_bits(w[0].to_bits()) < rank_of_bits(w[1].to_bits()), "{w:?}");
    }
    assert_eq!(rank_of_bits(1.0f64.to_bits()), NOMINAL_RANK);
    for s in scores {
        assert_eq!(bits_of_rank(rank_of_bits(s.to_bits())), s.to_bits());
    }
}

#[test]
fn suspicions_are_told_once_and_ranked() {
    let mut summary: CaptureSummary = summarize_capture(&[]);
    summary.suspicions = vec!["rule flag".into(), "spike".into()];
    let earlier = vec![scored("earlier", 4.0), scored("spike", 9.0)];
    let r = merge_scored_suspicions(&mut summary, &earlier, vec![scored("spike", 2.0)]);
    let texts: Vec<&str> = r.iter().map(|s| s.text.as_str()).collect();
    assert_eq!(texts, vec!["earlier", "spike", "rule flag"]);
    assert_eq!(r[1].rank, rank_of_bits(2.0f64.to_bits()), "the newest score stays");
    assert_eq!(r[2].rank, NOMINAL_RANK);
    assert_eq!(summary.suspicions, texts);
    // No more than eight.
    let many: Vec<ScoredSuspicion> = (0..12).map(|i| scored(&format!("s{i}"), i as f64)).collect();
    let r = merge_scored_suspicions(&mut summary, &Vec::new(), many);
    assert_eq!(r.len(), 8);
    assert_eq!(r[0].text, "s11");
}

#[test]
fn a_store_enriches_a_summary() {
    let mut store = Store::open_in_memory().unwrap();
    let mut d = Daemon::new(true);
    d.receive(&obs(Source::Process, 10), vec![birth(10, 10)], SEC);
    d.flush(&mut store, 0, 0, "", 0, TTL);
    let mut summary = summarize_capture(&[]);
    // The history reaches back no half an hour before the window.
    enrich_summary_from_store(&mut summary, &store, 20 * SEC as i64);
    assert!(summary.novelty.as_ref().unwrap().baseline_cold);
    let mut old = summarize_capture(&[]);
    enrich_summary_from_store(&mut old, &store, 3_600 * SEC as i64);
    let n = old.novelty.unwrap();
    assert!(!n.baseline_cold && !n.has_novelty());
    assert!(old.suspicions.is_empty(), "nothing was seen since");
    let mut all = summarize_capture(&[]);
    enrich_summary_from_store(&mut all, &store, 0);
    assert_eq!(all.suspicions, vec!["'tool' ran from an untrusted location: /tmp/tool"]);
}

#[test]
fn health_names_silent_sources_and_drops() {
    let lines = capture_health("aw-mvp", &vec![1, 2, 3, 4, 5], 0);
    assert_eq!(
        lines,
        vec!["aw-mvp: source health: file_system=1 process=2 network=3 window=4 system=5"]
    );
    let lines = capture_health("x", &vec![0, 2, 0, 4, 5], 7);
    assert_eq!(lines.len(), 3);
    assert!(lines[0].ends_with("system=5 dropped=7"), "{lines:?}");
    assert!(lines[1].contains("the bus dropped 7 observations"), "{lines:?}");
    assert!(lines[2].contains("no observations from: file_system, network."), "{lines:?}");
}

#[test]
fn a_tick_lets_go_of_what_was_quiet_for_long() {
    let mut store = Store::open_in_memory().unwrap();
    let mut d = Daemon::new(true);
    let dead = event(2, EventKind::ProcessDeath, Some(10), r#"{"start_unix_secs": 5}"#);
    d.receive(&obs(Source::Process, 1), vec![birth(1, 10), birth(1, 11), dead], u64::MAX);
    let (report, graph) = d.flush(&mut store, 0, 0, "", 0, 0).unwrap();
    assert_eq!(report.trimmed, 0, "the death is the newest event");
    assert_eq!(graph.processes.len(), 2);
    d.receive(&obs(Source::Process, 100), vec![birth(100, 12)], u64::MAX);
    let (report, graph) = d.flush(&mut store, 0, 0, "", 0, 10 * SEC).unwrap();
    assert_eq!(report.trimmed, 1);
    assert_eq!(graph.processes.len(), 3, "what is merged is what there was");
    let (report, graph) = d.flush(&mut store, 0, 0, "", 0, 10 * SEC).unwrap();
    assert_eq!(report.trimmed, 0);
    let pids: Vec<u32> = graph.processes.iter().map(|p| p.id.pid).collect();
    assert_eq!(pids, vec![11, 12], "what lives stays");
    assert_eq!(store.load_graph().unwrap().processes.len(), 3, "the store keeps all");
}

#[test]
fn a_tick_during_a_narration_is_skipped() {
    assert!(Daemon::takes_tick(None));
    assert!(Daemon::takes_tick(Some(true)));
    assert!(!Daemon::takes_tick(Some(false)));
}
