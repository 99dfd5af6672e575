//! What an event does to the nodes of the graph: which it adds or changes, and
//! that it leaves every other as it was.

use vstd::prelude::*;

use crate::events::{EventKind, EventView};
use crate::graph::{
    AppNodeView, FileNodeView, ProcessId, ProcessNodeView, SocketIdView, SocketNodeView,
};
use crate::graph_builder::{
    is_process, is_socket, keep_app, keep_file, keep_process, keep_socket, BuilderView,
};
use crate::graph_laws::{distinct_nodes, process_key, socket_key};
use crate::observation::Timestamp;
use crate::seqs::{distinct_by, filter_map_from, filter_map_keeps, first_where, first_where_is_first};

verus! {

/// Elements with one put in the place of that with its key, or at the end, are
/// that one and those with another key.
proof fn put_is_exact<A, K>(
    s: Seq<A>,
    after: Seq<A>,
    key: spec_fn(A) -> K,
    p: spec_fn(A) -> bool,
    x: A,
)
    requires
        distinct_by(s, key),
        forall|a: A| #[trigger] p(a) <==> key(a) == key(x),
        after == match first_where(s, p) {
            Some(i) => s.update(i, x),
            None => s.push(x),
        },
    ensures
        forall|a: A| #[trigger] after.contains(a) <==> a == x || (s.contains(a) && key(a) != key(x)),
{
    first_where_is_first(s, p);
    let at = match first_where(s, p) {
        Some(i) => i,
        None => s.len() as int,
    };
    assert(after[at] == x);
    assert forall|j: int| 0 <= j < s.len() && j != at implies key(#[trigger] s[j]) != key(x) by {
        if at < s.len() {
            if j < at {
                assert(key(s[j]) != key(s[at]));
            } else {
                assert(key(s[at]) != key(s[j]));
            }
            assert(p(s[at]));
        } else {
            assert(!p(s[j]));
        }
    }
    assert forall|a: A| #[trigger] after.contains(a) <==> a == x || (s.contains(a) && key(a) != key(
        x,
    )) by {
        if after.contains(a) && a != x {
            let j = choose|j: int| 0 <= j < after.len() && after[j] == a;
            assert(s[j] == a);
            assert(j != at);
        }
        if s.contains(a) && key(a) != key(x) {
            let j = choose|j: int| 0 <= j < s.len() && s[j] == a;
            if j == at {
                assert(p(s[at]));
            }
            assert(after[j] == a);
        }
    }
}

/// Whether a node tells what an event says of a process.
pub open spec fn tells_birth(n: ProcessNodeView, ev: EventView) -> bool {
    &&& Some(n.id.pid) == ev.pid
    &&& Some(n.id.start_unix_secs) == ev.payload.u64_at("start_unix_secs"@)
    &&& n.comm == ev.payload.str_at("comm"@)
    &&& n.name == ev.payload.str_at("name"@)
    &&& n.exec_path == ev.payload.str_at("exec_path"@)
    &&& n.ppid == ev.payload.u32_at("ppid"@)
    &&& n.uid == ev.payload.u32_at("uid"@)
    &&& n.birth == ev.timestamp
}

/// Whether only the processes of a builder changed, and the time.
pub open spec fn only_processes_changed(a: BuilderView, b: BuilderView, ev: EventView) -> bool {
    &&& b.apps == a.apps
    &&& b.sockets == a.sockets
    &&& b.files == a.files
    &&& b.current_frontmost == a.current_frontmost
    &&& b.last_ts == Some(ev.timestamp)
}

/// Whether only the connections of a builder changed, and the time.
pub open spec fn only_sockets_changed(a: BuilderView, b: BuilderView, ev: EventView) -> bool {
    &&& b.apps == a.apps
    &&& b.processes == a.processes
    &&& b.files == a.files
    &&& b.current_frontmost == a.current_frontmost
    &&& b.last_ts == Some(ev.timestamp)
}

/// A birth puts a living node of the process, as the event tells it, in the
/// place of one with the same identity, and changes nothing else.
pub proof fn birth_is_told(b: BuilderView, ev: EventView, id: ProcessId)
    requires
        distinct_nodes(b),
        ev.kind == EventKind::ProcessBirth,
        ev.pid == Some(id.pid),
        ev.payload.u64_at("start_unix_secs"@) == Some(id.start_unix_secs),
    ensures
        only_processes_changed(b, b.after(ev), ev),
        exists|n: ProcessNodeView| #[trigger]
            tells_birth(n, ev) && n.death is None && forall|a: ProcessNodeView| #[trigger]
                b.after(ev).processes.contains(a) <==> a == n || (b.processes.contains(a) && a.id
                    != id),
{
    let n = crate::graph_builder::process_node(ev, id, None);
    put_is_exact(b.processes, b.after(ev).processes, process_key(), is_process(id), n);
    assert(tells_birth(n, ev) && n.death is None);
}

/// Whether a node is that of a process after its death: the one that was there
/// with its time of death or, where none was, one that was born and died then,
/// as the event tells it.
pub open spec fn is_dead_node(n: ProcessNodeView, before: Seq<ProcessNodeView>, ev: EventView) -> bool {
    &&& n.death == Some(ev.timestamp)
    &&& forall|old: ProcessNodeView| #[trigger]
        before.contains(old) && old.id == n.id ==> n == (ProcessNodeView {
            death: Some(ev.timestamp),
            ..old
        })
    &&& (forall|old: ProcessNodeView| #[trigger] before.contains(old) ==> old.id != n.id)
        ==> tells_birth(n, ev)
}

/// A death gives the node of the process its time of death, or adds a node that
/// was born and died then, as the event tells it. It changes nothing else.
pub proof fn death_is_told(b: BuilderView, ev: EventView, id: ProcessId)
    requires
        distinct_nodes(b),
        ev.kind == EventKind::ProcessDeath,
        ev.pid == Some(id.pid),
        ev.payload.u64_at("start_unix_secs"@) == Some(id.start_unix_secs),
    ensures
        only_processes_changed(b, b.after(ev), ev),
        exists|n: ProcessNodeView| #[trigger]
            is_dead_node(n, b.processes, ev) && n.id == id && forall|a: ProcessNodeView| #[trigger]
                b.after(ev).processes.contains(a) <==> a == n || (b.processes.contains(a) && a.id
                    != id),
{
    let ps = b.processes;
    let p = is_process(id);
    first_where_is_first(ps, p);
    let n = match first_where(ps, p) {
        Some(i) => ProcessNodeView { death: Some(ev.timestamp), ..ps[i] },
        None => crate::graph_builder::process_node(ev, id, Some(ev.timestamp)),
    };
    put_is_exact(ps, b.after(ev).processes, process_key(), p, n);
    assert forall|old: ProcessNodeView| #[trigger] ps.contains(old) && old.id == id implies n == (
    ProcessNodeView { death: Some(ev.timestamp), ..old }) by {
        let j = choose|j: int| 0 <= j < ps.len() && ps[j] == old;
        match first_where(ps, p) {
            Some(i) => {
                if i < j {
                    assert(process_key()(ps[i]) != process_key()(ps[j]));
                } else if j < i {
                    assert(process_key()(ps[j]) != process_key()(ps[i]));
                }
            },
            None => {
                assert(!p(ps[j]));
            },
        }
    }
    if forall|old: ProcessNodeView| #[trigger] ps.contains(old) ==> old.id != id {
        match first_where(ps, p) {
            Some(i) => {
                assert(ps.contains(ps[i]));
            },
            None => {},
        }
        assert(tells_birth(n, ev));
    }
    assert(is_dead_node(n, ps, ev));
}

/// Whether a node tells what an event says of a connection.
pub open spec fn tells_opening(n: SocketNodeView, ev: EventView) -> bool {
    &&& ev.payload.str_at("proto"@) == Some(n.id.proto)
    &&& ev.payload.str_at("local_addr"@) == Some(n.id.local_addr)
    &&& ev.payload.str_at("foreign_addr"@) == Some(n.id.foreign_addr)
    &&& n.state == ev.payload.str_at("state"@)
    &&& n.process_name == ev.payload.str_at("process_name"@)
    &&& n.pid_at_open == ev.pid
    &&& n.opened == ev.timestamp
    &&& n.rxbytes_last == ev.payload.u64_at("rxbytes"@)
    &&& n.txbytes_last == ev.payload.u64_at("txbytes"@)
}

/// Whether an event names a connection.
pub open spec fn names_socket(ev: EventView, id: SocketIdView) -> bool {
    &&& ev.payload.str_at("proto"@) == Some(id.proto)
    &&& ev.payload.str_at("local_addr"@) == Some(id.local_addr)
    &&& ev.payload.str_at("foreign_addr"@) == Some(id.foreign_addr)
}

/// An opening puts an open node of the connection, as the event tells it, in the
/// place of one with the same identity, and changes nothing else.
pub proof fn opening_is_told(b: BuilderView, ev: EventView, id: SocketIdView)
    requires
        distinct_nodes(b),
        ev.kind == EventKind::ConnectionOpened,
        names_socket(ev, id),
    ensures
        only_sockets_changed(b, b.after(ev), ev),
        exists|n: SocketNodeView| #[trigger]
            tells_opening(n, ev) && n.closed is None && forall|a: SocketNodeView| #[trigger]
                b.after(ev).sockets.contains(a) <==> a == n || (b.sockets.contains(a) && a.id
                    != id),
{
    let n = crate::graph_builder::socket_node(ev, id, None);
    put_is_exact(b.sockets, b.after(ev).sockets, socket_key(), is_socket(id), n);
    assert(tells_opening(n, ev) && n.closed is None);
}

/// Whether a closed node goes on from an open one: it tells when it closed, and
/// counters where the event has newer ones, and is else unchanged.
pub open spec fn goes_on_from(n: SocketNodeView, old: SocketNodeView, ev: EventView) -> bool {
    &&& n.id == old.id
    &&& n.state == old.state
    &&& n.process_name == old.process_name
    &&& n.pid_at_open == old.pid_at_open
    &&& n.opened == old.opened
    &&& n.rxbytes_last == match ev.payload.u64_at("rxbytes"@) {
        Some(rx) => Some(rx),
        None => old.rxbytes_last,
    }
    &&& n.txbytes_last == match ev.payload.u64_at("txbytes"@) {
        Some(tx) => Some(tx),
        None => old.txbytes_last,
    }
}

/// Whether a node is that of a connection after its closing: the one that was
/// there, which goes on, or, where none was, one that opened and closed then, as
/// the event tells it.
pub open spec fn is_closed_node(n: SocketNodeView, before: Seq<SocketNodeView>, ev: EventView) -> bool {
    &&& n.closed == Some(ev.timestamp)
    &&& forall|old: SocketNodeView| #[trigger]
        before.contains(old) && old.id == n.id ==> goes_on_from(n, old, ev)
    &&& (forall|old: SocketNodeView| #[trigger] before.contains(old) ==> old.id != n.id)
        ==> tells_opening(n, ev)
}

/// A closing gives the node of the connection its time of closing and its newer
/// counters, or adds a node that opened and closed then, as the event tells it.
/// It changes nothing else.
pub proof fn closing_is_told(b: BuilderView, ev: EventView, id: SocketIdView)
    requires
        distinct_nodes(b),
        ev.kind == EventKind::ConnectionClosed,
        names_socket(ev, id),
    ensures
        only_sockets_changed(b, b.after(ev), ev),
        exists|n: SocketNodeView| #[trigger]
            is_closed_node(n, b.sockets, ev) && n.id == id && forall|a: SocketNodeView| #[trigger]
                b.after(ev).sockets.contains(a) <==> a == n || (b.sockets.contains(a) && a.id
                    != id),
{
    let ss = b.sockets;
    let p = is_socket(id);
    first_where_is_first(ss, p);
    let after = b.after(ev).sockets;
    let n = match first_where(ss, p) {
        Some(i) => after[i],
        None => after.last(),
    };
    put_is_exact(ss, after, socket_key(), p, n);
    assert forall|old: SocketNodeView| #[trigger]
        ss.contains(old) && old.id == id implies goes_on_from(n, old, ev) by {
        let j = choose|j: int| 0 <= j < ss.len() && ss[j] == old;
        match first_where(ss, p) {
            Some(i) => {
                if i < j {
                    assert(socket_key()(ss[i]) != socket_key()(ss[j]));
                } else if j < i {
                    assert(socket_key()(ss[j]) != socket_key()(ss[i]));
                }
            },
            None => {
                assert(!p(ss[j]));
            },
        }
    }
    if forall|old: SocketNodeView| #[trigger] ss.contains(old) ==> old.id != id {
        match first_where(ss, p) {
            Some(i) => {
                assert(ss.contains(ss[i]));
            },
            None => {},
        }
        assert(tells_opening(n, ev));
    }
    assert(is_closed_node(n, ss, ev));
}

/// Summaries of connections, name lookups, and events that do not say what they
/// are of only move the time on.
pub proof fn other_events_move_the_time(b: BuilderView, ev: EventView)
    requires
        match ev.kind {
            EventKind::ConnectionCompleted | EventKind::DnsQuery => true,
            EventKind::ProcessBirth | EventKind::ProcessDeath => ev.pid is None
                || ev.payload.u64_at("start_unix_secs"@) is None,
            EventKind::ConnectionOpened | EventKind::ConnectionClosed => ev.payload.str_at(
                "proto"@,
            ) is None || ev.payload.str_at("local_addr"@) is None || ev.payload.str_at(
                "foreign_addr"@,
            ) is None,
            EventKind::FileChanged => ev.payload.str_at("path"@) is None,
            EventKind::AppFocus => false,
        },
    ensures
        b.after(ev) == (BuilderView { last_ts: Some(ev.timestamp), ..b }),
{
}

/// Whether something ended before a time.
pub open spec fn is_over(end: Option<Timestamp>, cutoff: Timestamp) -> bool {
    end matches Some(t) && t.mono_ns < cutoff.mono_ns
}

/// What is let go is exactly what was quiet since before a time: processes that
/// had died, connections that had closed, files that were last touched and
/// applications that were last in front before it. Applications that were never
/// in front go too. What stays, stays as it is.
pub proof fn only_the_quiet_go(
    b: BuilderView,
    cutoff: Timestamp,
    p: ProcessNodeView,
    s: SocketNodeView,
    f: FileNodeView,
    a: AppNodeView,
)
    ensures
        b.trimmed(cutoff).processes.contains(p) <==> b.processes.contains(p) && !is_over(
            p.death,
            cutoff,
        ),
        b.trimmed(cutoff).sockets.contains(s) <==> b.sockets.contains(s) && !is_over(
            s.closed,
            cutoff,
        ),
        b.trimmed(cutoff).files.contains(f) <==> b.files.contains(f) && f.last_seen.mono_ns
            >= cutoff.mono_ns,
        b.trimmed(cutoff).apps.contains(a) <==> b.apps.contains(a) && a.intervals.len() > 0
            && !is_over(a.intervals.last().to, cutoff),
        b.trimmed(cutoff).current_frontmost == b.current_frontmost,
        b.trimmed(cutoff).last_ts == b.last_ts,
{
    kept_are_those(b.processes, keep_process(cutoff), p);
    kept_are_those(b.sockets, keep_socket(cutoff), s);
    kept_are_those(b.files, keep_file(cutoff), f);
    kept_are_those(b.apps, keep_app(cutoff), a);
}

/// What a function keeps as it is.
pub(crate) proof fn kept_are_those<A>(s: Seq<A>, f: spec_fn(A) -> Option<A>, x: A)
    requires
        forall|a: A| #[trigger] f(a) matches Some(b) ==> b == a,
    ensures
        s.filter_map(f).contains(x) <==> s.contains(x) && f(x) is Some,
{
    let kept = s.filter_map(f);
    if kept.contains(x) {
        let k = choose|k: int| 0 <= k < kept.len() && kept[k] == x;
        filter_map_from(s, f, k);
        let i = choose|i: int| 0 <= i < s.len() && f(#[trigger] s[i]) == Some(kept[k]);
        assert(s[i] == x);
    }
    if s.contains(x) && f(x) is Some {
        let i = choose|i: int| 0 <= i < s.len() && s[i] == x;
        assert(f(s[i]) is Some);
        filter_map_keeps(s, f, i);
    }
}

} // verus!
