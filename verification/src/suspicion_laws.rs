//! What holds of the flags that a window raises by rule: what raises one, and
//! that nothing else does.

use vstd::prelude::*;
use vstd::string::*;

use crate::analytics::wrapped;
use crate::events::{EventKind, EventView};
use crate::ip::port_behind;
use crate::order::first_n;
use crate::seqs::{
    count_where, filter_map_from, filter_map_keeps, sum_of, uniques, uniques_are_distinct,
};
use crate::summary_laws::{
    background, background_is_noisy, ranked_has_the_same, sum_is_count, totals_are_sums,
};
use crate::suspicions::{
    burst_flag, fan_out_flag, flags_of, last_birth, port_flag, sensitive, short_lived, touched,
};
use crate::tally::{amount_of, by_name, keys_of, ranked, totals};
use crate::text::{decimal, flat};
use crate::timeline::{leading_clients, looked_up};

verus! {

/// Texts one after the other, for five and nine of them.
proof fn flat_of_five(a: Seq<Seq<char>>)
    requires
        a.len() == 5,
    ensures
        flat(a) == a[0] + a[1] + a[2] + a[3] + a[4],
{
    reveal_with_fuel(flat, 6);
    let b = a.drop_last();
    let c = b.drop_last();
    let d = c.drop_last();
    let e = d.drop_last();
    assert(flat(e) =~= a[0]);
}

proof fn flat_of_nine(a: Seq<Seq<char>>)
    requires
        a.len() == 9,
    ensures
        flat(a) == a[0] + a[1] + a[2] + a[3] + a[4] + a[5] + a[6] + a[7] + a[8],
{
    reveal_with_fuel(flat, 5);
    let b = a.drop_last().drop_last().drop_last().drop_last();
    flat_of_five(b);
}

/// What a port of remote access is known for.
pub open spec fn known_for(port: u16, label: Seq<char>) -> bool {
    ||| port == 22 && label == "ssh"@
    ||| port == 23 && label == "telnet"@
    ||| port == 3389 && label == "rdp"@
    ||| port == 5900 && label == "vnc"@
    ||| port == 4444 && label == "common reverse-shell port"@
}

/// The program that an event tells of; a question mark where it tells none.
pub open spec fn told_as(e: EventView, key: Seq<char>, name: Seq<char>) -> bool {
    match e.payload.str_at(key) {
        Some(s) => s == name,
        None => name == "?"@,
    }
}

/// Whether a text is the flag of a connection to a port of remote access.
pub open spec fn flags_port(text: Seq<char>, e: EventView) -> bool {
    &&& e.kind == EventKind::ConnectionOpened || e.kind == EventKind::ConnectionCompleted
    &&& exists|name: Seq<char>, addr: Seq<char>, port: u16, label: Seq<char>|
        #![trigger told_as(e, "process_name"@, name), port_behind(addr), known_for(port, label)]
        e.payload.str_at("foreign_addr"@) == Some(addr) && port_behind(addr) == Some(port)
            && known_for(port, label) && told_as(e, "process_name"@, name) && text == "'"@ + name
            + "' connected to "@ + addr + " — port "@ + decimal(port as nat) + " ("@ + label + ")"@
}

/// Whether a position is that of the last birth of a process id.
pub open spec fn is_last_birth(events: Seq<EventView>, pid: u32, k: int) -> bool {
    &&& 0 <= k < events.len()
    &&& events[k].kind == EventKind::ProcessBirth && events[k].pid == Some(pid)
    &&& forall|j: int|
        k < j < events.len() ==> !((#[trigger] events[j]).kind == EventKind::ProcessBirth
            && events[j].pid == Some(pid))
}

/// Whether an event is the end of a run of a program that lasted for less than
/// ten seconds; programs that always run do not count.
pub open spec fn ends_young(events: Seq<EventView>, comm: Seq<char>) -> spec_fn(EventView) -> bool {
    |e: EventView|
        e.kind == EventKind::ProcessDeath && told_as(e, "comm"@, comm) && !background().contains(
            comm,
        ) && exists|k: int|
            #![trigger events[k]]
            e.pid is Some && is_last_birth(events, e.pid->0, k) && e.timestamp.mono_ns
                - events[k].timestamp.mono_ns < 10_000_000_000
}

/// Whether a text is the flag of a burst of short runs: five or more of one
/// program.
pub open spec fn flags_burst(text: Seq<char>, events: Seq<EventView>, comm: Seq<char>) -> bool {
    let n = count_where(events, ends_young(events, comm));
    n >= 5 && text == "burst of short-lived processes: "@ + decimal(n) + " '"@ + comm
        + "' instances each started and exited within seconds"@
}

/// Whether a text is the flag of a client that is named for its lookups: fifty
/// different names or more.
pub open spec fn flags_client(text: Seq<char>, events: Seq<EventView>, i: int) -> bool {
    let named = leading_clients(events.filter_map(looked_up()));
    0 <= i < named.len() && named[i].unique_names >= 50 && text == "'"@ + named[i].process_name
        + "' queried "@ + decimal(named[i].unique_names as nat)
        + " unique DNS names in this window — unusually high fan-out"@
}

/// Whether something in a window raises a flag.
pub open spec fn raises(events: Seq<EventView>, text: Seq<char>) -> bool {
    ||| exists|i: int| 0 <= i < events.len() && flags_port(text, #[trigger] events[i])
    ||| exists|comm: Seq<char>| #[trigger] flags_burst(text, events, comm)
    ||| exists|i: int| #[trigger] flags_client(text, events, i)
}

proof fn touch_flags_port(e: EventView, text: Seq<char>)
    ensures
        flags_port(text, e) <==> (touched()(e) matches Some(c) && port_flag()(c) == text),
{
    match touched()(e) {
        Some(c) => {
            let (port, label) = sensitive(c.1)->0;
            let parts = seq![
                "'"@,
                c.0,
                "' connected to "@,
                c.1,
                " — port "@,
                decimal(port as nat),
                " ("@,
                label,
                ")"@,
            ];
            flat_of_nine(parts);
            assert(known_for(port, label));
            assert(told_as(e, "process_name"@, c.0));
            assert(port_behind(c.1) == Some(port));
            if flags_port(text, e) {
                let (name, addr, p, l) = choose|
                    name: Seq<char>,
                    addr: Seq<char>,
                    port: u16,
                    label: Seq<char>,
                |
                    #![trigger told_as(e, "process_name"@, name), port_behind(addr), known_for(port, label)]
                    e.payload.str_at("foreign_addr"@) == Some(addr) && port_behind(addr) == Some(
                        port,
                    ) && known_for(port, label) && told_as(e, "process_name"@, name) && text
                        == "'"@ + name + "' connected to "@ + addr + " — port "@ + decimal(
                        port as nat,
                    ) + " ("@ + label + ")"@;
                assert(addr == c.1 && p == port && l == label && name == c.0);
            }
        },
        None => {
            if flags_port(text, e) {
                let (name, addr, p, l) = choose|
                    name: Seq<char>,
                    addr: Seq<char>,
                    port: u16,
                    label: Seq<char>,
                |
                    #![trigger told_as(e, "process_name"@, name), port_behind(addr), known_for(port, label)]
                    e.payload.str_at("foreign_addr"@) == Some(addr) && port_behind(addr) == Some(
                        port,
                    ) && known_for(port, label) && told_as(e, "process_name"@, name) && text
                        == "'"@ + name + "' connected to "@ + addr + " — port "@ + decimal(
                        port as nat,
                    ) + " ("@ + label + ")"@;
                assert(sensitive(addr) is Some);
            }
        },
    }
}

proof fn port_flags_are_raised(events: Seq<EventView>, text: Seq<char>)
    ensures
        uniques(events.filter_map(touched())).map_values(port_flag()).contains(text) <==> exists|
            i: int,
        |
            0 <= i < events.len() && flags_port(text, #[trigger] events[i]),
{
    let t = events.filter_map(touched());
    let u = uniques(t);
    let flags = u.map_values(port_flag());
    uniques_are_distinct(t);
    if flags.contains(text) {
        let m = choose|m: int| 0 <= m < flags.len() && flags[m] == text;
        assert(u.contains(u[m]));
        assert(t.contains(u[m]));
        let k = choose|k: int| 0 <= k < t.len() && t[k] == u[m];
        filter_map_from(events, touched(), k);
        let i = choose|i: int| 0 <= i < events.len() && touched()(#[trigger] events[i]) == Some(t[k]);
        touch_flags_port(events[i], text);
    }
    if exists|i: int| 0 <= i < events.len() && flags_port(text, #[trigger] events[i]) {
        let i = choose|i: int| 0 <= i < events.len() && flags_port(text, #[trigger] events[i]);
        touch_flags_port(events[i], text);
        filter_map_keeps(events, touched(), i);
        let c = touched()(events[i])->0;
        assert(u.contains(c));
        let m = choose|m: int| 0 <= m < u.len() && u[m] == c;
        assert(flags[m] == text);
    }
}

pub(crate) proof fn last_birth_is_last(events: Seq<EventView>, pid: u32)
    ensures
        match last_birth(events, pid) {
            Some(t) => exists|k: int|
                is_last_birth(events, pid, k) && #[trigger] events[k].timestamp.mono_ns == t,
            None => forall|k: int| !is_last_birth(events, pid, k),
        },
    decreases events.len(),
{
    if events.len() > 0 {
        let t = events.drop_last();
        let n = events.len() - 1;
        let e = events.last();
        if e.kind == EventKind::ProcessBirth && e.pid == Some(pid) {
            assert(is_last_birth(events, pid, n) && events[n].timestamp.mono_ns
                == e.timestamp.mono_ns);
        } else {
            last_birth_is_last(t, pid);
            assert forall|k: int| is_last_birth(events, pid, k) <==> is_last_birth(t, pid, k) by {
                if is_last_birth(events, pid, k) {
                    assert(k < n);
                    assert(t[k] == events[k]);
                    assert forall|j: int| k < j < t.len() implies !((#[trigger] t[j]).kind
                        == EventKind::ProcessBirth && t[j].pid == Some(pid)) by {
                        assert(t[j] == events[j]);
                    }
                }
                if is_last_birth(t, pid, k) {
                    assert(t[k] == events[k]);
                    assert forall|j: int| k < j < events.len() implies !((#[trigger] events[j]).kind
                        == EventKind::ProcessBirth && events[j].pid == Some(pid)) by {
                        if j < n {
                            assert(t[j] == events[j]);
                        }
                    }
                }
            }
            match last_birth(t, pid) {
                Some(x) => {
                    let k = choose|k: int|
                        is_last_birth(t, pid, k) && #[trigger] t[k].timestamp.mono_ns == x;
                    assert(is_last_birth(events, pid, k) && events[k].timestamp.mono_ns == x);
                },
                None => {},
            }
        }
    }
}

pub(crate) proof fn only_one_last_birth(events: Seq<EventView>, pid: u32, a: int, b: int)
    requires
        is_last_birth(events, pid, a),
        is_last_birth(events, pid, b),
    ensures
        a == b,
{
    if a < b {
        assert(!(events[b].kind == EventKind::ProcessBirth && events[b].pid == Some(pid)));
    }
    if b < a {
        assert(!(events[a].kind == EventKind::ProcessBirth && events[a].pid == Some(pid)));
    }
}

proof fn short_run_ends_young(events: Seq<EventView>, comm: Seq<char>, e: EventView)
    ensures
        ends_young(events, comm)(e) <==> (short_lived(events)(e) matches Some(x) && x.0 == comm),
        short_lived(events)(e) matches Some(x) ==> x.1 == 1,
{
    background_is_noisy(comm);
    if e.pid is Some {
        let pid = e.pid->0;
        last_birth_is_last(events, pid);
        match last_birth(events, pid) {
            Some(t) => {
                let k = choose|k: int|
                    is_last_birth(events, pid, k) && #[trigger] events[k].timestamp.mono_ns == t;
                if ends_young(events, comm)(e) {
                    let m = choose|m: int|
                        #![trigger events[m]]
                        e.pid is Some && is_last_birth(events, e.pid->0, m) && e.timestamp.mono_ns
                            - events[m].timestamp.mono_ns < 10_000_000_000;
                    only_one_last_birth(events, pid, k, m);
                }
                assert(events[k] == events[k]);
            },
            None => {},
        }
    }
}

proof fn bursts_are_raised(events: Seq<EventView>, text: Seq<char>)
    requires
        events.len() <= u64::MAX,
    ensures
        ranked(totals(events.filter_map(short_lived(events))), by_name()).filter_map(
            burst_flag(),
        ).contains(text) <==> exists|comm: Seq<char>| #[trigger] flags_burst(text, events, comm),
{
    let f = short_lived(events);
    let entries = events.filter_map(f);
    let all = totals(entries);
    let order = ranked(all, by_name());
    let flags = order.filter_map(burst_flag());
    if flags.contains(text) {
        let m = choose|m: int| 0 <= m < flags.len() && flags[m] == text;
        filter_map_from(order, burst_flag(), m);
        let k = choose|k: int|
            0 <= k < order.len() && burst_flag()(#[trigger] order[k]) == Some(flags[m]);
        let b = order[k];
        assert(order.contains(b));
        ranked_has_the_same(all, by_name(), b);
        totals_are_sums(entries, b);
        burst_counts(events, b.0);
        burst_reads(b);
        assert(flags_burst(text, events, b.0));
    }
    if exists|comm: Seq<char>| #[trigger] flags_burst(text, events, comm) {
        let comm = choose|comm: Seq<char>| #[trigger] flags_burst(text, events, comm);
        burst_counts(events, comm);
        let b = (comm, wrapped(sum_of(entries, amount_of(comm))));
        let p = ends_young(events, comm);
        crate::seqs::counted_is_there(events, p);
        let i = choose|i: int| 0 <= i < events.len() && p(#[trigger] events[i]);
        short_run_ends_young(events, comm, events[i]);
        filter_map_keeps(events, f, i);
        let x = f(events[i])->0;
        let q = choose|q: int| 0 <= q < entries.len() && entries[q] == x;
        assert(keys_of(entries)[q] == comm);
        totals_are_sums(entries, b);
        ranked_has_the_same(all, by_name(), b);
        let k = choose|k: int| 0 <= k < order.len() && order[k] == b;
        burst_reads(b);
        filter_map_keeps(order, burst_flag(), k);
    }
}

proof fn burst_counts(events: Seq<EventView>, comm: Seq<char>)
    ensures
        sum_of(events.filter_map(short_lived(events)), amount_of(comm)) == count_where(
            events,
            ends_young(events, comm),
        ),
        count_where(events, ends_young(events, comm)) <= events.len(),
{
    let f = short_lived(events);
    let p = ends_young(events, comm);
    assert forall|e: EventView| #[trigger] p(e) <==> (f(e) matches Some(x) && x.0 == comm) by {
        short_run_ends_young(events, comm, e);
    }
    assert forall|e: EventView| (#[trigger] f(e)) is Some implies (f(e)->0).1 == 1 by {
        short_run_ends_young(events, comm, e);
    }
    sum_is_count(events, f, comm, p);
}

proof fn burst_reads(b: (Seq<char>, u64))
    ensures
        burst_flag()(b) == if b.1 >= 5 {
            Some(
                "burst of short-lived processes: "@ + decimal(b.1 as nat) + " '"@ + b.0
                    + "' instances each started and exited within seconds"@,
            )
        } else {
            None
        },
{
    let parts = seq![
        "burst of short-lived processes: "@,
        decimal(b.1 as nat),
        " '"@,
        b.0,
        "' instances each started and exited within seconds"@,
    ];
    flat_of_five(parts);
}

proof fn clients_are_raised(events: Seq<EventView>, text: Seq<char>)
    ensures
        leading_clients(events.filter_map(looked_up())).filter_map(fan_out_flag()).contains(text)
            <==> exists|i: int| #[trigger] flags_client(text, events, i),
{
    let named = leading_clients(events.filter_map(looked_up()));
    let flags = named.filter_map(fan_out_flag());
    if flags.contains(text) {
        let m = choose|m: int| 0 <= m < flags.len() && flags[m] == text;
        filter_map_from(named, fan_out_flag(), m);
        let i = choose|i: int|
            0 <= i < named.len() && fan_out_flag()(#[trigger] named[i]) == Some(flags[m]);
        let parts = seq![
            "'"@,
            named[i].process_name,
            "' queried "@,
            decimal(named[i].unique_names as nat),
            " unique DNS names in this window — unusually high fan-out"@,
        ];
        flat_of_five(parts);
        assert(flags_client(text, events, i));
    }
    if exists|i: int| #[trigger] flags_client(text, events, i) {
        let i = choose|i: int| #[trigger] flags_client(text, events, i);
        let parts = seq![
            "'"@,
            named[i].process_name,
            "' queried "@,
            decimal(named[i].unique_names as nat),
            " unique DNS names in this window — unusually high fan-out"@,
        ];
        flat_of_five(parts);
        filter_map_keeps(named, fan_out_flag(), i);
    }
}

/// A flag is raised exactly by what the rules name: a connection to a port of
/// remote access, five or more runs of one program that lasted for less than ten
/// seconds each, or a client that is named for fifty different names or more.
/// What raises a flag is flagged, unless eight flags are raised already.
pub proof fn flags_are_those_raised(events: Seq<EventView>, text: Seq<char>)
    requires
        events.len() <= u64::MAX,
    ensures
        flags_of(events).len() <= 8,
        flags_of(events).contains(text) ==> raises(events, text),
        raises(events, text) ==> flags_of(events).contains(text) || flags_of(events).len() == 8,
{
    let ports = uniques(events.filter_map(touched())).map_values(port_flag());
    let bursts = ranked(totals(events.filter_map(short_lived(events))), by_name()).filter_map(
        burst_flag(),
    );
    let lookups = leading_clients(events.filter_map(looked_up())).filter_map(fan_out_flag());
    let all = ports + bursts + lookups;
    let flags = flags_of(events);
    port_flags_are_raised(events, text);
    bursts_are_raised(events, text);
    clients_are_raised(events, text);
    assert(flags =~= first_n(all, 8));
    assert(all.contains(text) <==> ports.contains(text) || bursts.contains(text)
        || lookups.contains(text)) by {
        if all.contains(text) {
            let i = choose|i: int| 0 <= i < all.len() && all[i] == text;
            if i < ports.len() {
                assert(ports[i] == text);
            } else if i < ports.len() + bursts.len() {
                assert(bursts[i - ports.len()] == text);
            } else {
                assert(lookups[i - ports.len() - bursts.len()] == text);
            }
        }
        if ports.contains(text) {
            let i = choose|i: int| 0 <= i < ports.len() && ports[i] == text;
            assert(all[i] == text);
        }
        if bursts.contains(text) {
            let i = choose|i: int| 0 <= i < bursts.len() && bursts[i] == text;
            assert(all[ports.len() + i] == text);
        }
        if lookups.contains(text) {
            let i = choose|i: int| 0 <= i < lookups.len() && lookups[i] == text;
            assert(all[ports.len() + bursts.len() + i] == text);
        }
    }
    if flags.contains(text) {
        let i = choose|i: int| 0 <= i < flags.len() && flags[i] == text;
        assert(all[i] == text);
    }
}

/// Of the clients that are named for their lookups, one that has as many
/// different names as another that is flagged is flagged too, unless eight
/// flags are raised already; fifty names are enough.
pub proof fn more_names_are_flagged_too(events: Seq<EventView>, i: int, j: int, a: Seq<char>, b: Seq<char>)
    requires
        events.len() <= u64::MAX,
        0 <= i < leading_clients(events.filter_map(looked_up())).len(),
        0 <= j < leading_clients(events.filter_map(looked_up())).len(),
        flags_client(a, events, i),
        leading_clients(events.filter_map(looked_up()))[j].unique_names >= leading_clients(
            events.filter_map(looked_up()),
        )[i].unique_names,
        b == "'"@ + leading_clients(events.filter_map(looked_up()))[j].process_name
            + "' queried "@ + decimal(
            leading_clients(events.filter_map(looked_up()))[j].unique_names as nat,
        ) + " unique DNS names in this window — unusually high fan-out"@,
    ensures
        flags_of(events).contains(b) || flags_of(events).len() == 8,
{
    assert(flags_client(b, events, j));
    flags_are_those_raised(events, b);
}

} // verus!
