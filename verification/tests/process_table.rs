//! The index of processes.

use agentworld::process_table::{ProcKey, ProcessEntry, ProcessTable, CAP, MAX_ANCESTORS};

fn entry(pid: u32, ppid: Option<u32>, comm: &str, start: u64) -> ProcessEntry {
    ProcessEntry {
        pid,
        start_unix_secs: start,
        ppid,
        uid: Some(501),
        comm: Some(comm.into()),
        name: Some(comm.into()),
        exec_path: Some(format!("/bin/{comm}")),
        alive: true,
        seq: 0,
    }
}

#[test]
fn by_pid_returns_inserted_entry() {
    let mut t = ProcessTable::new();
    t.insert(entry(100, Some(1), "shell", 1000));
    let got = t.by_pid(100).expect("present");
    assert_eq!(got.comm.as_deref(), Some("shell"));
}

#[test]
fn by_pid_picks_most_recent_under_reuse() {
    let mut t = ProcessTable::new();
    t.insert(entry(100, Some(1), "old", 1000));
    t.insert(entry(100, Some(1), "new", 2000));
    let got = t.by_pid(100).unwrap();
    assert_eq!(got.comm.as_deref(), Some("new"));
    assert_eq!(got.start_unix_secs, 2000);
}

#[test]
fn mark_dead_keeps_entry_queryable() {
    let mut t = ProcessTable::new();
    t.insert(entry(100, Some(1), "shell", 1000));
    t.mark_dead(&ProcKey {
        pid: 100,
        start_unix_secs: 1000,
    });
    let got = t.by_pid(100).unwrap();
    assert!(!got.alive);
    assert_eq!(got.comm.as_deref(), Some("shell"));
}

#[test]
fn ancestors_walks_ppid_chain() {
    let mut t = ProcessTable::new();
    // init (1) — root, ppid 0, not included
    t.insert(entry(1, Some(0), "launchd", 100));
    t.insert(entry(100, Some(1), "shell", 101));
    t.insert(entry(200, Some(100), "subshell", 102));
    t.insert(entry(300, Some(200), "leaf", 103));
    let chain = t.ancestors(300);
    let comms: Vec<&str> = chain.iter().filter_map(|a| a.comm.as_deref()).collect();
    // From 300 we walk ppid 200 -> 100 -> 1 (stops at 1).
    assert_eq!(comms, vec!["subshell", "shell"]);
}

#[test]
fn ancestors_stops_when_parent_unknown() {
    let mut t = ProcessTable::new();
    t.insert(entry(300, Some(200), "leaf", 1));
    // pid 200 not in table
    let chain = t.ancestors(300);
    assert!(chain.is_empty());
}

#[test]
fn ancestors_handles_cycle_without_hanging() {
    let mut t = ProcessTable::new();
    // Pathological: 100 says ppid=200, 200 says ppid=100. Shouldn't loop forever.
    t.insert(entry(100, Some(200), "a", 1));
    t.insert(entry(200, Some(100), "b", 2));
    let chain = t.ancestors(100);
    // Will yield 200 then attempt 100 which is in `seen`, stops.
    assert!(chain.len() <= MAX_ANCESTORS);
    let pids: Vec<u32> = chain.iter().map(|a| a.pid).collect();
    assert_eq!(pids, vec![200]);
}

#[test]
fn a_full_index_drops_the_oldest_superseded_entry() {
    let mut t = ProcessTable::new();
    t.insert(entry(1, None, "a", 1));
    t.insert(entry(1, None, "b", 2));
    t.insert(entry(2, None, "c", 1));
    t.insert(entry(2, None, "d", 2));
    for n in 0..(CAP as u32 - 4) {
        t.insert(entry(100 + n, None, "x", 1));
    }
    let has = |t: &ProcessTable, pid: u32, start: u64| {
        t.by_key(&ProcKey { pid, start_unix_secs: start }).is_some()
    };
    assert!(has(&t, 1, 1) && has(&t, 2, 1));
    t.insert(entry(3, None, "e", 1));
    assert!(!has(&t, 1, 1) && has(&t, 1, 2) && has(&t, 2, 1) && has(&t, 3, 1));
    t.insert(entry(4, None, "f", 1));
    assert!(!has(&t, 2, 1) && has(&t, 2, 2) && has(&t, 4, 1));
    // Nothing is superseded any more: what ids resolve to is kept.
    t.insert(entry(5, None, "g", 1));
    assert!(has(&t, 1, 2) && has(&t, 2, 2) && has(&t, 5, 1));
}
