//! What holds of what stands out in a window: what makes a program, a client, a
//! parent or a port stand out, and that nothing else does.

use vstd::prelude::*;

use crate::baseline::{
    alarms_of, asked, born_to, bounds, burst, crowd, dns_tally, fan_out, history_span,
    hour_tallies, is_cold_span, last_hour, limit_of, named, parent_limit, port_touches_of,
    tally_name, touch_alarm, touch_known, young, AlarmView, HourTallyView, LimitsView,
    WindowLimits,
};
use crate::events::{EventKind, EventView};
use crate::ip::port_behind;
use crate::seqs::{
    count_kept, count_where, counted_is_there, filter_map_from, filter_map_keeps, first_where,
    first_where_is_first, keeps_where, uniques, uniques_are_distinct,
};
use crate::summary_laws::{is_counted, ranked_has_the_same, same_count};
use crate::suspicion_laws::{is_last_birth, known_for, last_birth_is_last, only_one_last_birth, told_as};
use crate::suspicions::{last_birth, sensitive, touched};
use crate::tally::{keys_of, ranked};
use crate::text::decimal;

verus! {

// ---------- counts -----------------------------------------------------------------

/// Whether an event is the end of a run of a program that lasted for less than
/// ten seconds.
pub open spec fn ends_short(events: Seq<EventView>, comm: Seq<char>) -> spec_fn(EventView) -> bool {
    |e: EventView|
        e.kind == EventKind::ProcessDeath && told_as(e, "comm"@, comm) && exists|k: int|
            #![trigger events[k]]
            e.pid is Some && is_last_birth(events, e.pid->0, k) && e.timestamp.mono_ns
                - events[k].timestamp.mono_ns < 10_000_000_000
}

/// Whether an event is a lookup by a client.
pub open spec fn looks_up(client: Seq<char>) -> spec_fn(EventView) -> bool {
    |e: EventView|
        e.kind == EventKind::DnsQuery && told_as(e, "client_process_name"@, client)
}

/// Whether an event is a birth of a child of a process id, written in decimal.
pub open spec fn is_child_of(pid: Seq<char>) -> spec_fn(EventView) -> bool {
    |e: EventView|
        e.kind == EventKind::ProcessBirth && (e.payload.u64_at("ppid"@) matches Some(p) && pid
            == decimal((p % 0x1_0000_0000) as nat))
}

proof fn young_ends_short(events: Seq<EventView>, comm: Seq<char>, e: EventView)
    ensures
        ends_short(events, comm)(e) <==> (young(events)(e) matches Some(x) && x.0 == comm),
{
    if e.pid is Some {
        let pid = e.pid->0;
        last_birth_is_last(events, pid);
        match last_birth(events, pid) {
            Some(t) => {
                let k = choose|k: int|
                    is_last_birth(events, pid, k) && #[trigger] events[k].timestamp.mono_ns == t;
                if ends_short(events, comm)(e) {
                    let m = choose|m: int|
                        #![trigger events[m]]
                        e.pid is Some && is_last_birth(events, e.pid->0, m) && e.timestamp.mono_ns
                            - events[m].timestamp.mono_ns < 10_000_000_000;
                    only_one_last_birth(events, pid, k, m);
                }
                assert(events[k] == events[k]);
            },
            None => {},
        }
    }
}

/// A tally is that of a name that occurs, with the number of its occurrences, and
/// every name that occurs has one.
proof fn tallies_are_counts(
    events: Seq<EventView>,
    f: spec_fn(EventView) -> Option<(Seq<char>, u64)>,
    k: Seq<char>,
    p: spec_fn(EventView) -> bool,
    t: HourTallyView,
)
    requires
        events.len() <= u64::MAX,
        t.name == k,
        forall|e: EventView| #[trigger] p(e) <==> (f(e) matches Some(x) && x.0 == k),
    ensures
        hour_tallies(events.filter_map(f)).contains(t) <==> count_where(events, p) > 0 && t.count
            == count_where(events, p) && t.hour == last_hour(events.filter_map(f), k),
{
    let entries = events.filter_map(f);
    let keys = uniques(keys_of(entries));
    let all = hour_tallies(entries);
    uniques_are_distinct(keys_of(entries));
    count_kept(events, f, named(k));
    assert forall|e: EventView| #[trigger] keeps_where(f, named(k))(e) == p(e) by {}
    same_count(events, keeps_where(f, named(k)), p);
    if all.contains(t) {
        let i = choose|i: int| 0 <= i < all.len() && all[i] == t;
        assert(keys[i] == k);
        assert(keys.contains(k));
        assert(keys_of(entries).contains(k));
        let m = choose|m: int| 0 <= m < keys_of(entries).len() && keys_of(entries)[m] == k;
        assert(named(k)(entries[m]));
        is_counted(entries, named(k), m);
    }
    if count_where(events, p) > 0 {
        counted_is_there(entries, named(k));
        let m = choose|m: int| 0 <= m < entries.len() && named(k)(#[trigger] entries[m]);
        assert(keys_of(entries)[m] == k);
        assert(keys_of(entries).contains(k));
        assert(keys.contains(k));
        let i = choose|i: int| 0 <= i < keys.len() && keys[i] == k;
        assert(all[i].name == k);
        if t.count == count_where(events, p) && t.hour == last_hour(entries, k) {
            assert(all[i] == t);
        }
    }
}

// ---------- limits -----------------------------------------------------------------

/// Whether a number is the limit of an entity: the fixed one on a machine whose
/// history is too short, else that of the entity and, where it has none, the
/// machine's own, unless that is zero.
pub open spec fn is_limit(l: LimitsView, name: Seq<char>, fixed: u64, cold: bool, n: u64) -> bool {
    &&& cold ==> n == fixed
    &&& forall|i: int|
        !cold && 0 <= i < l.per_entity.len() && (#[trigger] l.per_entity[i]).0 == name && (forall|
            j: int,
        | 0 <= j < i ==> (#[trigger] l.per_entity[j]).0 != name) ==> n == l.per_entity[i].1
    &&& !cold && (forall|i: int|
        0 <= i < l.per_entity.len() ==> (#[trigger] l.per_entity[i]).0 != name) ==> n == if l.default
        > 0 {
        l.default
    } else {
        fixed
    }
}

/// The limit of an entity is that one.
pub proof fn limits_are_known(l: LimitsView, name: Seq<char>, fixed: u64, cold: bool)
    ensures
        is_limit(l, name, fixed, cold, limit_of(l, name, fixed, cold)),
{
    let p = named(name);
    let s = l.per_entity;
    first_where_is_first(s, p);
    assert forall|i: int|
        !cold && 0 <= i < s.len() && (#[trigger] s[i]).0 == name && (forall|j: int|
            0 <= j < i ==> (#[trigger] s[j]).0 != name) implies limit_of(l, name, fixed, cold)
        == s[i].1 by {
        match first_where(s, p) {
            Some(k) => {
                if k < i {
                    assert(s[k].0 != name);
                }
                if i < k {
                    assert(!p(s[i]));
                }
            },
            None => {
                assert(!p(s[i]));
            },
        }
    }
    match first_where(s, p) {
        Some(k) => {
            assert(s[k].0 == name);
        },
        None => {},
    }
}

// ---------- alarms -----------------------------------------------------------------

/// Whether an alarm is of a measure and of something.
pub open spec fn is_alarm(a: AlarmView, metric: Seq<char>, subject: Seq<char>) -> bool {
    a.metric == metric && a.subject == subject
}

proof fn metrics_differ()
    ensures
        "spawn_burst"@.len() == 11,
        "dns_fanout"@.len() == 10,
        "prolific_parent"@.len() == 15,
        "sensitive_port"@.len() == 14,
{
    reveal_strlit("spawn_burst");
    reveal_strlit("dns_fanout");
    reveal_strlit("prolific_parent");
    reveal_strlit("sensitive_port");
}

/// An alarm is one of the four lists'.
proof fn alarm_is_of_one(events: Seq<EventView>, l: WindowLimits, a: AlarmView)
    ensures
        ({
            let w = ranked(hour_tallies(events.filter_map(young(events))), tally_name()).filter_map(
                burst(l),
            );
            let x = hour_tallies(events.filter_map(asked())).map_values(dns_tally(events)).filter_map(
                fan_out(l),
            );
            let y = hour_tallies(events.filter_map(born_to())).filter_map(crowd(l));
            let z = port_touches_of(events).map_values(touch_alarm());
            &&& alarms_of(events, l).contains(a) <==> w.contains(a) || x.contains(a) || y.contains(a)
                || z.contains(a)
            &&& w.contains(a) ==> a.metric == "spawn_burst"@
            &&& x.contains(a) ==> a.metric == "dns_fanout"@
            &&& y.contains(a) ==> a.metric == "prolific_parent"@
            &&& z.contains(a) ==> a.metric == "sensitive_port"@
        }),
{
    let runs = ranked(hour_tallies(events.filter_map(young(events))), tally_name());
    let lookups = hour_tallies(events.filter_map(asked())).map_values(dns_tally(events));
    let parents = hour_tallies(events.filter_map(born_to()));
    let w = runs.filter_map(burst(l));
    let x = lookups.filter_map(fan_out(l));
    let y = parents.filter_map(crowd(l));
    let z = port_touches_of(events).map_values(touch_alarm());
    joined_has_each(w + x + y, z, a);
    joined_has_each(w + x, y, a);
    joined_has_each(w, x, a);
    if w.contains(a) {
        let k = choose|k: int| 0 <= k < w.len() && w[k] == a;
        filter_map_from(runs, burst(l), k);
    }
    if x.contains(a) {
        let k = choose|k: int| 0 <= k < x.len() && x[k] == a;
        filter_map_from(lookups, fan_out(l), k);
    }
    if y.contains(a) {
        let k = choose|k: int| 0 <= k < y.len() && y[k] == a;
        filter_map_from(parents, crowd(l), k);
    }
}

/// A joined sequence has what each has.
pub(crate) proof fn joined_has_each<A>(s: Seq<A>, t: Seq<A>, a: A)
    ensures
        (s + t).contains(a) <==> s.contains(a) || t.contains(a),
{
    let all = s + t;
    if all.contains(a) {
        let i = choose|i: int| 0 <= i < all.len() && all[i] == a;
        if i < s.len() {
            assert(s[i] == a);
        } else {
            assert(t[i - s.len()] == a);
        }
    }
    if s.contains(a) {
        let i = choose|i: int| 0 <= i < s.len() && s[i] == a;
        assert(all[i] == a);
    }
    if t.contains(a) {
        let i = choose|i: int| 0 <= i < t.len() && t[i] == a;
        assert(all[s.len() + i] == a);
    }
}

/// A program stands out for its short runs exactly if it had as many as its limit
/// or more; five are enough on a machine whose history is too short. It is told
/// with their number.
pub proof fn bursts_stand_out(events: Seq<EventView>, l: WindowLimits, comm: Seq<char>, n: u64)
    requires
        events.len() <= u64::MAX,
        is_limit(l.deaths.deep_view(), comm, 5, l.cold, n),
    ensures
        ({
            let c = count_where(events, ends_short(events, comm));
            &&& (exists|a: AlarmView| #[trigger]
                is_alarm(a, "spawn_burst"@, comm) && alarms_of(events, l).contains(a)) <==> c > 0 && c
                >= n
            &&& forall|a: AlarmView| #[trigger]
                is_alarm(a, "spawn_burst"@, comm) && alarms_of(events, l).contains(a) ==> a.observed
                    == c && a.entity == "process:"@ + comm && a.kind == "process_death"@
        }),
{
    metrics_differ();
    let f = young(events);
    let p = ends_short(events, comm);
    let c = count_where(events, p);
    let tallies = hour_tallies(events.filter_map(f));
    let runs = ranked(tallies, tally_name());
    let w = runs.filter_map(burst(l));
    assert forall|e: EventView| #[trigger] p(e) <==> (f(e) matches Some(x) && x.0 == comm) by {
        young_ends_short(events, comm, e);
    }
    same_count(events, p, p);
    limits_are_known(l.deaths.deep_view(), comm, 5, l.cold);
    only_one_limit(l.deaths.deep_view(), comm, 5, l.cold, n);
    let t = HourTallyView {
        name: comm,
        count: c as u64,
        hour: last_hour(events.filter_map(f), comm),
    };
    tallies_are_counts(events, f, comm, p, t);
    ranked_has_the_same(tallies, tally_name(), t);
    assert forall|a: AlarmView| #[trigger]
        is_alarm(a, "spawn_burst"@, comm) && alarms_of(events, l).contains(a) implies a.observed == c
        && a.entity == "process:"@ + comm && a.kind == "process_death"@ && c > 0 && c >= n by {
        alarm_is_of_one(events, l, a);
        let k = choose|k: int| 0 <= k < w.len() && w[k] == a;
        filter_map_from(runs, burst(l), k);
        let i = choose|i: int| 0 <= i < runs.len() && burst(l)(#[trigger] runs[i]) == Some(w[k]);
        let r = runs[i];
        assert(runs.contains(r));
        ranked_has_the_same(tallies, tally_name(), r);
        tallies_are_counts(events, f, comm, p, r);
    }
    if c > 0 && c >= n {
        assert(runs.contains(t));
        let i = choose|i: int| 0 <= i < runs.len() && runs[i] == t;
        filter_map_keeps(runs, burst(l), i);
        let a = burst(l)(t)->0;
        alarm_is_of_one(events, l, a);
        assert(is_alarm(a, "spawn_burst"@, comm));
    }
}

/// The limit of an entity is one number.
proof fn only_one_limit(l: LimitsView, name: Seq<char>, fixed: u64, cold: bool, n: u64)
    requires
        is_limit(l, name, fixed, cold, n),
    ensures
        n == limit_of(l, name, fixed, cold),
{
    let s = l.per_entity;
    limits_are_known(l, name, fixed, cold);
    first_where_is_first(s, named(name));
    match first_where(s, named(name)) {
        Some(k) => {
            assert forall|j: int| 0 <= j < k implies (#[trigger] s[j]).0 != name by {
                assert(!named(name)(s[j]));
            }
            assert(s[k].0 == name);
        },
        None => {
            assert forall|i: int| 0 <= i < s.len() implies (#[trigger] s[i]).0 != name by {
                assert(!named(name)(s[i]));
            }
        },
    }
}

/// A client stands out for its lookups exactly if it had as many as its limit or
/// more; fifty are enough on a machine whose history is too short. It is told
/// with their number.
pub proof fn lookups_stand_out(events: Seq<EventView>, l: WindowLimits, client: Seq<char>, n: u64)
    requires
        events.len() <= u64::MAX,
        is_limit(l.lookups.deep_view(), client, 50, l.cold, n),
    ensures
        ({
            let c = count_where(events, looks_up(client));
            &&& (exists|a: AlarmView| #[trigger]
                is_alarm(a, "dns_fanout"@, client) && alarms_of(events, l).contains(a)) <==> c > 0
                && c >= n
            &&& forall|a: AlarmView| #[trigger]
                is_alarm(a, "dns_fanout"@, client) && alarms_of(events, l).contains(a) ==> a.observed
                    == c && a.entity == "dns_client:"@ + client && a.kind == "dns_query"@
        }),
{
    metrics_differ();
    let f = asked();
    let p = looks_up(client);
    let c = count_where(events, p);
    let tallies = hour_tallies(events.filter_map(f));
    let lookups = tallies.map_values(dns_tally(events));
    let x = lookups.filter_map(fan_out(l));
    assert forall|e: EventView| #[trigger] p(e) <==> (f(e) matches Some(y) && y.0 == client) by {}
    same_count(events, p, p);
    only_one_limit(l.lookups.deep_view(), client, 50, l.cold, n);
    let t = HourTallyView {
        name: client,
        count: c as u64,
        hour: last_hour(events.filter_map(f), client),
    };
    tallies_are_counts(events, f, client, p, t);
    assert forall|a: AlarmView| #[trigger]
        is_alarm(a, "dns_fanout"@, client) && alarms_of(events, l).contains(a) implies a.observed
        == c && a.entity == "dns_client:"@ + client && a.kind == "dns_query"@ && c > 0 && c >= n by {
        alarm_is_of_one(events, l, a);
        let k = choose|k: int| 0 <= k < x.len() && x[k] == a;
        filter_map_from(lookups, fan_out(l), k);
        let i = choose|i: int| 0 <= i < lookups.len() && fan_out(l)(#[trigger] lookups[i]) == Some(x[k]);
        let r = tallies[i];
        assert(tallies.contains(r));
        assert(lookups[i] == dns_tally(events)(r));
        tallies_are_counts(events, f, client, p, r);
    }
    if c > 0 && c >= n {
        let i = choose|i: int| 0 <= i < tallies.len() && tallies[i] == t;
        assert(lookups[i] == dns_tally(events)(t));
        filter_map_keeps(lookups, fan_out(l), i);
        let a = fan_out(l)(lookups[i])->0;
        alarm_is_of_one(events, l, a);
        assert(is_alarm(a, "dns_fanout"@, client));
    }
}

/// A parent stands out for its children exactly if it had as many as the limit or
/// more: the machine's own, or eight on one whose history is too short or says
/// nothing. It is told with their number.
pub proof fn families_stand_out(events: Seq<EventView>, l: WindowLimits, pid: Seq<char>)
    requires
        events.len() <= u64::MAX,
    ensures
        ({
            let c = count_where(events, is_child_of(pid));
            let n = if l.cold || l.children == 0 {
                8
            } else {
                l.children
            };
            &&& (exists|a: AlarmView| #[trigger]
                is_alarm(a, "prolific_parent"@, pid) && alarms_of(events, l).contains(a)) <==> c > 0
                && c >= n
            &&& forall|a: AlarmView| #[trigger]
                is_alarm(a, "prolific_parent"@, pid) && alarms_of(events, l).contains(a)
                    ==> a.observed == c && a.entity == "parent:"@ + pid && a.kind
                    == "process_birth"@
        }),
{
    metrics_differ();
    let f = born_to();
    let p = is_child_of(pid);
    let c = count_where(events, p);
    let tallies = hour_tallies(events.filter_map(f));
    let y = tallies.filter_map(crowd(l));
    assert forall|e: EventView| #[trigger] p(e) <==> (f(e) matches Some(x) && x.0 == pid) by {}
    same_count(events, p, p);
    let n = parent_limit(l);
    let t = HourTallyView {
        name: pid,
        count: c as u64,
        hour: last_hour(events.filter_map(f), pid),
    };
    tallies_are_counts(events, f, pid, p, t);
    assert forall|a: AlarmView| #[trigger]
        is_alarm(a, "prolific_parent"@, pid) && alarms_of(events, l).contains(a) implies a.observed
        == c && a.entity == "parent:"@ + pid && a.kind == "process_birth"@ && c > 0 && c >= n by {
        alarm_is_of_one(events, l, a);
        let k = choose|k: int| 0 <= k < y.len() && y[k] == a;
        filter_map_from(tallies, crowd(l), k);
        let i = choose|i: int| 0 <= i < tallies.len() && crowd(l)(#[trigger] tallies[i]) == Some(y[k]);
        assert(tallies.contains(tallies[i]));
        tallies_are_counts(events, f, pid, p, tallies[i]);
    }
    if c > 0 && c >= n {
        let i = choose|i: int| 0 <= i < tallies.len() && tallies[i] == t;
        filter_map_keeps(tallies, crowd(l), i);
        let a = crowd(l)(t)->0;
        alarm_is_of_one(events, l, a);
        assert(is_alarm(a, "prolific_parent"@, pid));
    }
}

/// Whether an event is a connection of a program to a port of remote access.
pub open spec fn reaches(e: EventView, name: Seq<char>, addr: Seq<char>) -> bool {
    &&& e.kind == EventKind::ConnectionOpened || e.kind == EventKind::ConnectionCompleted
    &&& e.payload.str_at("foreign_addr"@) == Some(addr)
    &&& told_as(e, "process_name"@, name)
    &&& exists|port: u16, label: Seq<char>|
        port_behind(addr) == Some(port) && #[trigger] known_for(port, label)
}

proof fn touches_are_those(events: Seq<EventView>, name: Seq<char>, addr: Seq<char>)
    ensures
        touch_known(port_touches_of(events), name, addr) <==> exists|i: int|
            0 <= i < events.len() && reaches(#[trigger] events[i], name, addr),
        forall|k: int|
            0 <= k < port_touches_of(events).len() ==> port_behind(
                (#[trigger] port_touches_of(events)[k]).foreign_addr,
            ) == Some(port_touches_of(events)[k].port),
    decreases events.len(),
{
    if events.len() > 0 {
        let t = events.drop_last();
        let e = events.last();
        let n = events.len() - 1;
        touches_are_those(t, name, addr);
        let rest = port_touches_of(t);
        let all = port_touches_of(events);
        assert forall|i: int| 0 <= i < n implies #[trigger] events[i] == t[i] by {}
        assert(reaches(e, name, addr) <==> touched()(e) == Some((name, addr))) by {
            match touched()(e) {
                Some(c) => {
                    let (port, label) = sensitive(c.1)->0;
                    assert(known_for(port, label));
                },
                None => {
                    if reaches(e, name, addr) {
                        let (port, label) = choose|port: u16, label: Seq<char>|
                            port_behind(addr) == Some(port) && #[trigger] known_for(port, label);
                        assert(sensitive(addr) is Some);
                    }
                },
            }
        }
        if touch_known(rest, name, addr) {
            let k = choose|k: int|
                0 <= k < rest.len() && (#[trigger] rest[k]).process_name == name
                    && rest[k].foreign_addr == addr;
            assert(all[k] == rest[k]);
            let i = choose|i: int| 0 <= i < t.len() && reaches(#[trigger] t[i], name, addr);
            assert(reaches(events[i], name, addr));
        }
        if touch_known(all, name, addr) && !touch_known(rest, name, addr) {
            let k = choose|k: int|
                0 <= k < all.len() && (#[trigger] all[k]).process_name == name
                    && all[k].foreign_addr == addr;
            if k < rest.len() {
                assert(rest[k] == all[k]);
            }
            assert(reaches(events[n], name, addr));
        }
        if exists|i: int| 0 <= i < events.len() && reaches(#[trigger] events[i], name, addr) {
            let i = choose|i: int| 0 <= i < events.len() && reaches(#[trigger] events[i], name, addr);
            if i < n {
                assert(reaches(t[i], name, addr));
            } else if !touch_known(rest, name, addr) {
                assert(all[rest.len() as int].process_name == name);
            }
        }
        assert forall|k: int| 0 <= k < all.len() implies port_behind(
            (#[trigger] all[k]).foreign_addr,
        ) == Some(all[k].port) by {
            if k < rest.len() {
                assert(all[k] == rest[k]);
            }
        }
    }
}

/// A remote end stands out exactly if some program connected to it on a port of
/// remote access, however cold the history is; it is told with the port.
pub proof fn remote_access_stands_out(events: Seq<EventView>, l: WindowLimits, addr: Seq<char>)
    ensures
        (exists|a: AlarmView|
            a.entity == "endpoint:"@ + addr && #[trigger] is_alarm(a, "sensitive_port"@, a.subject)
                && alarms_of(events, l).contains(a)) <==> exists|i: int, name: Seq<char>|
            0 <= i < events.len() && #[trigger] reaches(events[i], name, addr),
        forall|a: AlarmView|
            a.entity == "endpoint:"@ + addr && #[trigger] is_alarm(a, "sensitive_port"@, a.subject)
                && alarms_of(events, l).contains(a) ==> (port_behind(addr) matches Some(p)
                && a.observed == p),
{
    metrics_differ();
    let ts = port_touches_of(events);
    let z = ts.map_values(touch_alarm());
    assert forall|a: AlarmView|
        a.entity == "endpoint:"@ + addr && #[trigger] is_alarm(a, "sensitive_port"@, a.subject)
            && alarms_of(events, l).contains(a) implies (port_behind(addr) matches Some(p)
        && a.observed == p) && exists|i: int, name: Seq<char>|
        0 <= i < events.len() && #[trigger] reaches(events[i], name, addr) by {
        alarm_is_of_one(events, l, a);
        let k = choose|k: int| 0 <= k < z.len() && z[k] == a;
        assert(a == touch_alarm()(ts[k]));
        let e = "endpoint:"@;
        assert((e + ts[k].foreign_addr).skip(e.len() as int) =~= ts[k].foreign_addr);
        assert((e + addr).skip(e.len() as int) =~= addr);
        assert(ts[k].foreign_addr == addr);
        touches_are_those(events, ts[k].process_name, addr);
        assert(touch_known(ts, ts[k].process_name, addr));
        let i = choose|i: int|
            0 <= i < events.len() && reaches(#[trigger] events[i], ts[k].process_name, addr);
        assert(reaches(events[i], ts[k].process_name, addr));
    }
    if exists|i: int, name: Seq<char>|
        0 <= i < events.len() && #[trigger] reaches(events[i], name, addr) {
        let (i, name) = choose|i: int, name: Seq<char>|
            0 <= i < events.len() && #[trigger] reaches(events[i], name, addr);
        touches_are_those(events, name, addr);
        let k = choose|k: int|
            0 <= k < ts.len() && (#[trigger] ts[k]).process_name == name && ts[k].foreign_addr
                == addr;
        let a = touch_alarm()(ts[k]);
        assert(z[k] == a);
        assert(z.contains(a));
        alarm_is_of_one(events, l, a);
        assert(is_alarm(a, "sensitive_port"@, a.subject));
    }
}

// ---------- the history to compare with --------------------------------------------

proof fn bounds_are_reached(ts: Seq<i64>)
    ensures
        bounds(ts) is None <==> ts.len() == 0,
        bounds(ts) is Some ==> ({
            let (lo, hi) = bounds(ts)->0;
            &&& ts.contains(lo) && ts.contains(hi)
            &&& forall|i: int| 0 <= i < ts.len() ==> lo <= #[trigger] ts[i] <= hi
        }),
    decreases ts.len(),
{
    if ts.len() > 0 {
        let t = ts.drop_last();
        let n = ts.len() - 1;
        bounds_are_reached(t);
        assert(ts[n] == ts.last());
        assert(ts.contains(ts[n]));
        if t.len() > 0 {
            let (lo, hi) = bounds(t)->0;
            let i = choose|i: int| 0 <= i < t.len() && t[i] == lo;
            let j = choose|j: int| 0 <= j < t.len() && t[j] == hi;
            assert(ts[i] == lo && ts[j] == hi);
            assert forall|k: int| 0 <= k < ts.len() implies (bounds(ts)->0).0 <= #[trigger] ts[k]
                <= (bounds(ts)->0).1 by {
                if k < n {
                    assert(t[k] == ts[k]);
                }
            }
        }
    }
}

/// A history can be compared with if what was seen spans three days, or if the
/// hours that were counted do, from the start of the first to the end of the last.
pub proof fn three_days_are_a_history(first: Option<i64>, last: Option<i64>, ts: Seq<i64>)
    ensures
        !is_cold_span(history_span(first, last, ts)) <==> {
            ||| first is Some && last is Some && last->0 - first->0 >= 259_200_000_000_000
            ||| exists|i: int, j: int|
                0 <= i < ts.len() && 0 <= j < ts.len() && #[trigger] ts[j] + 3_600_000_000_000
                    - #[trigger] ts[i] >= 259_200_000_000_000
        },
{
    bounds_are_reached(ts);
    if bounds(ts) is Some {
        let (lo, hi) = bounds(ts)->0;
        let i = choose|i: int| 0 <= i < ts.len() && ts[i] == lo;
        let j = choose|j: int| 0 <= j < ts.len() && ts[j] == hi;
        assert(ts[j] - ts[i] == hi - lo);
    }
}

} // verus!
