//! Flags that the events of a window raise by rule.
//!
//! Connections to ports of remote access, however few bytes they moved; bursts
//! of processes that lived for seconds; and clients that looked up unusually
//! many names.

use vstd::prelude::*;
use vstd::string::*;

use crate::events::{Event, EventKind, EventView};
use crate::ip::{foreign_port, port_behind};
use crate::order::first_n;
use crate::seqs::{
    collect, filter_map_from, filter_map_start, filter_map_step, push_item, take_all, uniques,
    uniques_are_distinct, whole,
};
use crate::store_lineage::append_texts;
use crate::tally::{by_name, rank_texts, ranked, tally_texts, totals, unique_pairs};
use crate::text::{decimal, flat, Parts};
use crate::timeline::{
    is_noisy, leading_clients, looked_up, noisy_comm, or_unknown, text_or_unknown, top_dns_clients,
    DnsClientFact, DnsClientFactView, SECOND_NS,
};

verus! {

/// A process that lived for less counts as short-lived.
pub const SHORT_LIVED_MAX_SECS: u64 = 10;

/// How many short-lived runs of one program make a burst.
pub const SHORT_LIVED_BURST_MIN: u64 = 5;

/// How many different names one client may look up without a flag.
pub const HEAVY_DNS_UNIQUE_NAMES: u32 = 50;

/// How many flags are raised at most.
pub const MAX_EVENT_SUSPICIONS: usize = 8;

/// What a port of remote access, or one that is often abused, is known for.
pub open spec fn port_use(port: u16) -> Option<Seq<char>> {
    if port == 22 {
        Some("ssh"@)
    } else if port == 23 {
        Some("telnet"@)
    } else if port == 3389 {
        Some("rdp"@)
    } else if port == 5900 {
        Some("vnc"@)
    } else if port == 4444 {
        Some("common reverse-shell port"@)
    } else {
        None
    }
}

/// What a port of remote access is known for.
pub fn sensitive_port(port: u16) -> (r: Option<&'static str>)
    ensures
        r is Some == port_use(port) is Some,
        r is Some ==> r->0@ == port_use(port)->0,
{
    if port == 22 {
        Some("ssh")
    } else if port == 23 {
        Some("telnet")
    } else if port == 3389 {
        Some("rdp")
    } else if port == 5900 {
        Some("vnc")
    } else if port == 4444 {
        Some("common reverse-shell port")
    } else {
        None
    }
}

/// The port of remote access behind an address, and what it is known for.
pub open spec fn sensitive(foreign: Seq<char>) -> Option<(u16, Seq<char>)> {
    match port_behind(foreign) {
        Some(port) => match port_use(port) {
            Some(label) => Some((port, label)),
            None => None,
        },
        None => None,
    }
}

/// The program and the remote end of a connection to a port of remote access.
pub open spec fn touched() -> spec_fn(EventView) -> Option<(Seq<char>, Seq<char>)> {
    |e: EventView|
        match e.payload.str_at("foreign_addr"@) {
            Some(foreign) => if (e.kind == EventKind::ConnectionOpened || e.kind
                == EventKind::ConnectionCompleted) && sensitive(foreign) is Some {
                Some((or_unknown(e.payload.str_at("process_name"@)), foreign))
            } else {
                None
            },
            None => None,
        }
}

/// The flag of a connection.
pub open spec fn port_flag() -> spec_fn((Seq<char>, Seq<char>)) -> Seq<char> {
    |c: (Seq<char>, Seq<char>)|
        {
            let (port, label) = sensitive(c.1)->0;
            flat(
                seq![
                    "'"@,
                    c.0,
                    "' connected to "@,
                    c.1,
                    " — port "@,
                    decimal(port as nat),
                    " ("@,
                    label,
                    ")"@,
                ],
            )
        }
}

/// When the last process with an id was born.
pub open spec fn last_birth(events: Seq<EventView>, pid: u32) -> Option<u64>
    decreases events.len(),
{
    if events.len() == 0 {
        None
    } else {
        let e = events.last();
        if e.kind == EventKind::ProcessBirth && e.pid == Some(pid) {
            Some(e.timestamp.mono_ns)
        } else {
            last_birth(events.drop_last(), pid)
        }
    }
}

/// Whether an event is the end of a process that was born in the window and
/// lived for less than the limit.
pub open spec fn died_young(events: Seq<EventView>, e: EventView) -> bool {
    &&& e.kind == EventKind::ProcessDeath
    &&& e.pid is Some
    &&& last_birth(events, e.pid->0) is Some
    &&& e.timestamp.mono_ns - last_birth(events, e.pid->0)->0 < SHORT_LIVED_MAX_SECS * SECOND_NS
}

/// A short-lived run of a program.
pub open spec fn short_lived(events: Seq<EventView>) -> spec_fn(EventView) -> Option<
    (Seq<char>, u64),
> {
    |e: EventView|
        {
            let comm = or_unknown(e.payload.str_at("comm"@));
            if died_young(events, e) && !is_noisy(comm) {
                Some((comm, 1u64))
            } else {
                None
            }
        }
}

/// The flag of a burst.
pub open spec fn burst_flag() -> spec_fn((Seq<char>, u64)) -> Option<Seq<char>> {
    |b: (Seq<char>, u64)|
        if b.1 >= SHORT_LIVED_BURST_MIN {
            Some(
                flat(
                    seq![
                        "burst of short-lived processes: "@,
                        decimal(b.1 as nat),
                        " '"@,
                        b.0,
                        "' instances each started and exited within seconds"@,
                    ],
                ),
            )
        } else {
            None
        }
}

/// The flag of a client that looked up many names.
pub open spec fn fan_out_flag() -> spec_fn(DnsClientFactView) -> Option<Seq<char>> {
    |c: DnsClientFactView|
        if c.unique_names >= HEAVY_DNS_UNIQUE_NAMES {
            Some(
                flat(
                    seq![
                        "'"@,
                        c.process_name,
                        "' queried "@,
                        decimal(c.unique_names as nat),
                        " unique DNS names in this window — unusually high fan-out"@,
                    ],
                ),
            )
        } else {
            None
        }
}

/// The flags that the events of a window raise, in order: each connection to a
/// port of remote access once, bursts by the name of the program, and clients
/// with many names.
pub open spec fn flags_of(events: Seq<EventView>) -> Seq<Seq<char>> {
    let ports = uniques(events.filter_map(touched())).map_values(port_flag());
    let bursts = ranked(totals(events.filter_map(short_lived(events))), by_name()).filter_map(
        burst_flag(),
    );
    let lookups = leading_clients(events.filter_map(looked_up())).filter_map(fan_out_flag());
    first_n(ports + bursts + lookups, MAX_EVENT_SUSPICIONS as int)
}

fn touch_of(e: &Event) -> (r: Option<(String, String)>)
    ensures
        r.deep_view() == touched()(e.deep_view()),
{
    if e.kind != EventKind::ConnectionOpened && e.kind != EventKind::ConnectionCompleted {
        return None;
    }
    match e.payload.string_at("foreign_addr") {
        Some(foreign) => match foreign_port(foreign.as_str()) {
            Some(port) => match sensitive_port(port) {
                Some(_) => Some((text_or_unknown(&e.payload, "process_name"), foreign)),
                None => None,
            },
            None => None,
        },
        None => None,
    }
}

pub(crate) fn text_of_port_flag(c: &(String, String)) -> (r: String)
    ensures
        sensitive(c.1@) is Some ==> r@ == port_flag()(c.deep_view()),
{
    match foreign_port(c.1.as_str()) {
        Some(port) => match sensitive_port(port) {
            Some(label) => {
                let mut p = Parts::new();
                p.add("'");
                p.add(c.0.as_str());
                p.add("' connected to ");
                p.add(c.1.as_str());
                p.add(" — port ");
                p.add_number(port as u64);
                p.add(" (");
                p.add(label);
                p.add(")");
                p.finish()
            },
            None => String::new(),
        },
        None => String::new(),
    }
}

/// What the rules keep of the events went to a port of remote access.
proof fn touched_are_sensitive(events: Seq<EventView>)
    ensures
        forall|i: int|
            0 <= i < uniques(events.filter_map(touched())).len() ==> sensitive(
                (#[trigger] uniques(events.filter_map(touched()))[i]).1,
            ) is Some,
{
    let t = events.filter_map(touched());
    let u = uniques(t);
    uniques_are_distinct(t);
    assert forall|i: int| 0 <= i < u.len() implies sensitive((#[trigger] u[i]).1) is Some by {
        assert(u.contains(u[i]));
        assert(t.contains(u[i]));
        let k = choose|k: int| 0 <= k < t.len() && t[k] == u[i];
        filter_map_from(events, touched(), k);
    }
}

fn port_flags(events: &[Event]) -> (r: Vec<String>)
    ensures
        r.deep_view() == uniques(events.deep_view().filter_map(touched())).map_values(port_flag()),
{
    let seen: Vec<(String, String)> = unique_pairs(&collect(events, touch_of, Ghost(touched())));
    let ghost u = uniques(events.deep_view().filter_map(touched()));
    let ghost want = u.map_values(port_flag());
    proof {
        touched_are_sensitive(events.deep_view());
    }
    let mut out: Vec<String> = Vec::new();
    let mut i: usize = 0;
    assert(out.deep_view() =~= want.take(0));
    while i < seen.len()
        invariant
            u == seen.deep_view(),
            want == u.map_values(port_flag()),
            forall|k: int| 0 <= k < u.len() ==> sensitive((#[trigger] u[k]).1) is Some,
            i <= seen@.len(),
            out.deep_view() == want.take(i as int),
        decreases seen@.len() - i,
    {
        assert(u[i as int] == seen@[i as int].deep_view());
        push_item(&mut out, text_of_port_flag(&seen[i]));
        assert(want.take(i + 1) =~= want.take(i as int).push(want[i as int]));
        i = i + 1;
    }
    assert(want.take(want.len() as int) =~= want);
    out
}

/// When the last process with an id was born.
pub fn last_birth_of(events: &[Event], pid: u32) -> (r: Option<u64>)
    ensures
        r == last_birth(events.deep_view(), pid),
{
    let ghost all = events.deep_view();
    let mut born: Option<u64> = None;
    let mut i: usize = 0;
    while i < events.len()
        invariant
            all == events.deep_view(),
            i <= events@.len(),
            born == last_birth(all.take(i as int), pid),
        decreases events@.len() - i,
    {
        assert(all.take(i + 1).drop_last() =~= all.take(i as int));
        assert(all[i as int] == events@[i as int].deep_view());
        let e: &Event = &events[i];
        if e.kind == EventKind::ProcessBirth {
            match e.pid {
                Some(p) => if p == pid {
                    born = Some(e.timestamp.mono_ns);
                },
                None => {},
            }
        }
        i = i + 1;
    }
    proof {
        take_all(all);
    }
    born
}

/// Whether an event is the end of a process that was born in the window and
/// lived for less than the limit.
pub fn is_short_lived(events: &[Event], e: &Event) -> (r: bool)
    ensures
        r == died_young(events.deep_view(), e.deep_view()),
{
    if e.kind != EventKind::ProcessDeath {
        return false;
    }
    match e.pid {
        Some(pid) => match last_birth_of(events, pid) {
            Some(born) => e.timestamp.mono_ns.saturating_sub(born) < SHORT_LIVED_MAX_SECS
                * SECOND_NS,
            None => false,
        },
        None => false,
    }
}

fn short_lived_of(events: &[Event]) -> (r: Vec<(String, u64)>)
    ensures
        r.deep_view() == events.deep_view().filter_map(short_lived(events.deep_view())),
{
    let ghost all = events.deep_view();
    let ghost g = short_lived(all);
    let mut out: Vec<(String, u64)> = Vec::new();
    let mut i: usize = 0;
    proof {
        filter_map_start(all, g);
        assert(out.deep_view() =~= Seq::<(Seq<char>, u64)>::empty());
    }
    while i < events.len()
        invariant
            all == events.deep_view(),
            g == short_lived(all),
            i <= events@.len(),
            out.deep_view() == all.take(i as int).filter_map(g),
        decreases events@.len() - i,
    {
        assert(all[i as int] == events@[i as int].deep_view());
        proof {
            filter_map_step(all, g, i as int);
        }
        let e: &Event = &events[i];
        if is_short_lived(events, e) {
            let comm: String = text_or_unknown(&e.payload, "comm");
            if !noisy_comm(comm.as_str()) {
                push_item(&mut out, (comm, 1));
            }
        }
        i = i + 1;
    }
    proof {
        take_all(all);
    }
    out
}

fn text_of_burst(b: &(String, u64)) -> (r: Option<String>)
    ensures
        r.deep_view() == burst_flag()(b.deep_view()),
{
    if b.1 >= SHORT_LIVED_BURST_MIN {
        let mut p = Parts::new();
        p.add("burst of short-lived processes: ");
        p.add_number(b.1);
        p.add(" '");
        p.add(b.0.as_str());
        p.add("' instances each started and exited within seconds");
        Some(p.finish())
    } else {
        None
    }
}

fn text_of_fan_out(c: &DnsClientFact) -> (r: Option<String>)
    ensures
        r.deep_view() == fan_out_flag()(c.deep_view()),
{
    if c.unique_names >= HEAVY_DNS_UNIQUE_NAMES {
        let mut p = Parts::new();
        p.add("'");
        p.add(c.process_name.as_str());
        p.add("' queried ");
        p.add_number(c.unique_names as u64);
        p.add(" unique DNS names in this window — unusually high fan-out");
        Some(p.finish())
    } else {
        None
    }
}

/// The flags that the events of a window raise.
pub fn event_suspicions(events: &[Event]) -> (r: Vec<String>)
    ensures
        r.deep_view() == flags_of(events.deep_view()),
{
    let mut out: Vec<String> = port_flags(events);
    let young: Vec<(String, u64)> = rank_texts(&tally_texts(&short_lived_of(events)), false);
    append_texts(&mut out, &collect(whole(&young), text_of_burst, Ghost(burst_flag())));
    let top: Vec<DnsClientFact> = top_dns_clients(events);
    append_texts(&mut out, &collect(whole(&top), text_of_fan_out, Ghost(fan_out_flag())));
    let ghost all = out.deep_view();
    if out.len() > MAX_EVENT_SUSPICIONS {
        out.truncate(MAX_EVENT_SUSPICIONS);
        assert(out.deep_view() =~= all.take(MAX_EVENT_SUSPICIONS as int));
    }
    out
}

} // verus!
