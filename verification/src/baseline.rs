//! The counts behind a machine's baseline.
//!
//! A window is unusual against the history of its machine: how often each
//! program, client and parent acted per hour, and when in the day. Here the
//! history and the window are counted, and it is decided whether the history
//! is long enough to compare with.

use vstd::prelude::*;
use vstd::string::*;

use crate::analytics::wrapped;
use crate::events::{Event, EventKind, EventView};
use crate::ip::foreign_port;
use crate::json::JsonView;
use crate::json_path::{is_char, lookup, plain_key_is_a_path, up_to_nul};
use crate::seqs::{
    collect, convert, count_where, count_where_step, filter_map_start, filter_map_step, first_where,
    first_where_is_first, push_item, sum_of, take_all, uniques, whole,
};
use crate::store::{EventRowView, Store, StoreError, StoreView};
use crate::store_admin::{earliest, latest};
use crate::store_lineage::{rate_of, unique_texts, EdgeRate, EdgeRateView};
use crate::store_trends::{
    all_countable, cell_count, cells, field_at, field_cells, field_path, is_bad_path,
    window_counts, FieldWindowCount, FieldWindowCountView, HourlyKindCount, HourlyKindCountView,
};
use crate::suspicions::{
    died_young, is_short_lived, port_flag, sensitive, sensitive_port, text_of_port_flag, touched,
};
use crate::tally::{
    insert_at_rank, keys_of, ranked, ranks_of, tally_texts, totals, wrapped_step, Rank,
};
use crate::text::{decimal, str_eq, u64_text};
use crate::timeline::{or_unknown, text_or_unknown};

verus! {

/// Nanoseconds in an hour.
pub const HOUR_NS: i64 = 3_600_000_000_000;

/// A history shorter than this many days says nothing about the machine yet.
pub const MIN_BASELINE_DAYS: i64 = 3;

/// The UTC hour of the day of an event.
pub open spec fn hour_of_event(e: EventView) -> u64 {
    let ns = e.timestamp.wall_anchor_ns + e.timestamp.mono_ns;
    let at = if ns > u64::MAX {
        u64::MAX as int
    } else {
        ns as int
    };
    ((at / HOUR_NS as int) % 24) as u64
}

/// The UTC hour of the day of an event.
pub fn event_hour(e: &Event) -> (r: u64)
    ensures
        r == hour_of_event(e.deep_view()),
        r < 24,
{
    (e.timestamp.wall_anchor_ns.saturating_add(e.timestamp.mono_ns) / 3_600_000_000_000) % 24
}

/// How often something happened, and the hour of the day in which it did last.
#[derive(Debug)]
pub struct HourTally {
    pub name: String,
    pub count: u64,
    pub hour: u64,
}

/// What an `HourTally` holds.
pub struct HourTallyView {
    pub name: Seq<char>,
    pub count: u64,
    pub hour: u64,
}

impl DeepView for HourTally {
    type V = HourTallyView;

    open spec fn deep_view(&self) -> HourTallyView {
        HourTallyView { name: self.name@, count: self.count, hour: self.hour }
    }
}

/// Whether an entry has a name.
pub open spec fn named(k: Seq<char>) -> spec_fn((Seq<char>, u64)) -> bool {
    |e: (Seq<char>, u64)| e.0 == k
}

/// The hour of the last entry with a name.
pub open spec fn last_hour(entries: Seq<(Seq<char>, u64)>, k: Seq<char>) -> u64
    decreases entries.len(),
{
    if entries.len() == 0 {
        0
    } else if entries.last().0 == k {
        entries.last().1
    } else {
        last_hour(entries.drop_last(), k)
    }
}

/// The tally of a name.
pub open spec fn hour_tally(entries: Seq<(Seq<char>, u64)>) -> spec_fn(Seq<char>) -> HourTallyView {
    |k: Seq<char>|
        HourTallyView {
            name: k,
            count: count_where(entries, named(k)) as u64,
            hour: last_hour(entries, k),
        }
}

/// The tallies of all names, in the order in which they first occur.
pub open spec fn hour_tallies(entries: Seq<(Seq<char>, u64)>) -> Seq<HourTallyView> {
    uniques(keys_of(entries)).map_values(hour_tally(entries))
}

fn name_of_entry(e: &(String, u64)) -> (r: String)
    ensures
        r.deep_view() == (|e: (Seq<char>, u64)| e.0)(e.deep_view()),
{
    e.0.clone()
}

fn tally_of_name(entries: &Vec<(String, u64)>, k: &str) -> (r: HourTally)
    ensures
        r.deep_view() == hour_tally(entries.deep_view())(k@),
{
    let ghost all = entries.deep_view();
    let mut n: u64 = 0;
    let mut hour: u64 = 0;
    let mut i: usize = 0;
    while i < entries.len()
        invariant
            all == entries.deep_view(),
            i <= entries@.len(),
            n <= i,
            n == count_where(all.take(i as int), named(k@)),
            hour == last_hour(all.take(i as int), k@),
        decreases entries@.len() - i,
    {
        assert(all[i as int] == entries@[i as int].deep_view());
        assert(all.take(i + 1).drop_last() =~= all.take(i as int));
        proof {
            count_where_step(all, named(k@), i as int);
        }
        if str_eq(entries[i].0.as_str(), k) {
            n = n + 1;
            hour = entries[i].1;
        }
        i = i + 1;
    }
    proof {
        take_all(all);
    }
    HourTally { name: k.to_string(), count: n, hour }
}

fn tally_hours(entries: &Vec<(String, u64)>) -> (r: Vec<HourTally>)
    ensures
        r.deep_view() == hour_tallies(entries.deep_view()),
{
    let ghost all = entries.deep_view();
    let names: Vec<String> = convert(
        whole(entries),
        name_of_entry,
        Ghost(|e: (Seq<char>, u64)| e.0),
    );
    let once: Vec<String> = unique_texts(&names);
    let ghost u = uniques(keys_of(all));
    let ghost want = u.map_values(hour_tally(all));
    let mut out: Vec<HourTally> = Vec::new();
    let mut i: usize = 0;
    assert(out.deep_view() =~= want.take(0));
    while i < once.len()
        invariant
            all == entries.deep_view(),
            u == once.deep_view(),
            want == u.map_values(hour_tally(all)),
            i <= once@.len(),
            out.deep_view() == want.take(i as int),
        decreases once@.len() - i,
    {
        assert(u[i as int] == once@[i as int]@);
        push_item(&mut out, tally_of_name(entries, once[i].as_str()));
        assert(want.take(i + 1) =~= want.take(i as int).push(want[i as int]));
        i = i + 1;
    }
    assert(want.take(want.len() as int) =~= want);
    out
}

/// A short-lived run of a program, and the hour of its end.
pub open spec fn young(events: Seq<EventView>) -> spec_fn(EventView) -> Option<(Seq<char>, u64)> {
    |e: EventView|
        if died_young(events, e) {
            Some((or_unknown(e.payload.str_at("comm"@)), hour_of_event(e)))
        } else {
            None
        }
}

/// Tallies in the order of their names.
pub open spec fn tally_name() -> spec_fn(HourTallyView) -> (u64, u64, Seq<char>) {
    |t: HourTallyView| (0u64, 0u64, t.name)
}

/// How many short-lived runs each program had, by name.
pub fn short_lived_tallies(events: &[Event]) -> (r: Vec<HourTally>)
    ensures
        r.deep_view() == ranked(
            hour_tallies(events.deep_view().filter_map(young(events.deep_view()))),
            tally_name(),
        ),
{
    let ghost all = events.deep_view();
    let ghost g = young(all);
    let mut runs: Vec<(String, u64)> = Vec::new();
    let mut i: usize = 0;
    proof {
        filter_map_start(all, g);
        assert(runs.deep_view() =~= Seq::<(Seq<char>, u64)>::empty());
    }
    while i < events.len()
        invariant
            all == events.deep_view(),
            g == young(all),
            i <= events@.len(),
            runs.deep_view() == all.take(i as int).filter_map(g),
        decreases events@.len() - i,
    {
        assert(all[i as int] == events@[i as int].deep_view());
        proof {
            filter_map_step(all, g, i as int);
        }
        if is_short_lived(events, &events[i]) {
            push_item(&mut runs, (text_or_unknown(&events[i].payload, "comm"), event_hour(&events[i])));
        }
        i = i + 1;
    }
    proof {
        take_all(all);
    }
    let found: Vec<HourTally> = tally_hours(&runs);
    let ghost rows = found.deep_view();
    let mut out: Vec<HourTally> = Vec::new();
    let mut ranks: Vec<Rank> = Vec::new();
    let mut j: usize = 0;
    assert(out.deep_view() =~= ranked(rows.take(0), tally_name()));
    while j < found.len()
        invariant
            rows == found.deep_view(),
            j <= found@.len(),
            out.deep_view() == ranked(rows.take(j as int), tally_name()),
            ranks_of(out.deep_view(), tally_name(), ranks.deep_view()),
        decreases found@.len() - j,
    {
        assert(rows.take(j + 1).drop_last() =~= rows.take(j as int));
        assert(rows[j as int] == found@[j as int].deep_view());
        let t: &HourTally = &found[j];
        insert_at_rank(
            &mut out,
            &mut ranks,
            HourTally { name: t.name.clone(), count: t.count, hour: t.hour },
            Rank { first: 0, second: 0, name: t.name.clone() },
            Ghost(tally_name()),
        );
        j = j + 1;
    }
    proof {
        take_all(rows);
    }
    out
}

/// How much a client looked up.
#[derive(Debug)]
pub struct DnsTally {
    pub client: String,
    pub total: u64,
    pub unique_names: u64,
    pub hour: u64,
}

/// What a `DnsTally` holds.
pub struct DnsTallyView {
    pub client: Seq<char>,
    pub total: u64,
    pub unique_names: u64,
    pub hour: u64,
}

impl DeepView for DnsTally {
    type V = DnsTallyView;

    open spec fn deep_view(&self) -> DnsTallyView {
        DnsTallyView {
            client: self.client@,
            total: self.total,
            unique_names: self.unique_names,
            hour: self.hour,
        }
    }
}

/// The client of a lookup, and its hour.
pub open spec fn asked() -> spec_fn(EventView) -> Option<(Seq<char>, u64)> {
    |e: EventView|
        if e.kind == EventKind::DnsQuery {
            Some((or_unknown(e.payload.str_at("client_process_name"@)), hour_of_event(e)))
        } else {
            None
        }
}

/// The hash of a name that a client looked up.
pub open spec fn hash_by(client: Seq<char>) -> spec_fn(EventView) -> Option<Seq<char>> {
    |e: EventView|
        if e.kind == EventKind::DnsQuery && or_unknown(e.payload.str_at("client_process_name"@))
            == client {
            e.payload.str_at("name_hash"@)
        } else {
            None
        }
}

/// What a client looked up, with the number of different names.
pub open spec fn dns_tally(events: Seq<EventView>) -> spec_fn(HourTallyView) -> DnsTallyView {
    |t: HourTallyView|
        DnsTallyView {
            client: t.name,
            total: t.count,
            unique_names: uniques(events.filter_map(hash_by(t.name))).len() as u64,
            hour: t.hour,
        }
}

fn lookup_of(e: &Event) -> (r: Option<(String, u64)>)
    ensures
        r.deep_view() == asked()(e.deep_view()),
{
    if e.kind == EventKind::DnsQuery {
        Some((text_or_unknown(&e.payload, "client_process_name"), event_hour(e)))
    } else {
        None
    }
}

fn hashes_by(events: &[Event], client: &str) -> (r: Vec<String>)
    ensures
        r.deep_view() == events.deep_view().filter_map(hash_by(client@)),
{
    let ghost all = events.deep_view();
    let ghost g = hash_by(client@);
    let mut out: Vec<String> = Vec::new();
    let mut i: usize = 0;
    proof {
        filter_map_start(all, g);
        assert(out.deep_view() =~= Seq::<Seq<char>>::empty());
    }
    while i < events.len()
        invariant
            all == events.deep_view(),
            g == hash_by(client@),
            i <= events@.len(),
            out.deep_view() == all.take(i as int).filter_map(g),
        decreases events@.len() - i,
    {
        assert(all[i as int] == events@[i as int].deep_view());
        proof {
            filter_map_step(all, g, i as int);
        }
        let e: &Event = &events[i];
        if e.kind == EventKind::DnsQuery {
            let who: String = text_or_unknown(&e.payload, "client_process_name");
            if str_eq(who.as_str(), client) {
                match e.payload.string_at("name_hash") {
                    Some(h) => {
                        push_item(&mut out, h);
                    },
                    None => {},
                }
            }
        }
        i = i + 1;
    }
    proof {
        take_all(all);
    }
    out
}

/// How much each client looked up.
pub fn dns_tallies(events: &[Event]) -> (r: Vec<DnsTally>)
    ensures
        r.deep_view() == hour_tallies(events.deep_view().filter_map(asked())).map_values(
            dns_tally(events.deep_view()),
        ),
{
    let ghost all = events.deep_view();
    let found: Vec<HourTally> = tally_hours(&collect(events, lookup_of, Ghost(asked())));
    let ghost rows = found.deep_view();
    let ghost want = rows.map_values(dns_tally(all));
    let mut out: Vec<DnsTally> = Vec::new();
    let mut i: usize = 0;
    assert(out.deep_view() =~= want.take(0));
    while i < found.len()
        invariant
            all == events.deep_view(),
            rows == found.deep_view(),
            want == rows.map_values(dns_tally(all)),
            i <= found@.len(),
            out.deep_view() == want.take(i as int),
        decreases found@.len() - i,
    {
        assert(rows[i as int] == found@[i as int].deep_view());
        let t: &HourTally = &found[i];
        let names: Vec<String> = unique_texts(&hashes_by(events, t.name.as_str()));
        push_item(
            &mut out,
            DnsTally {
                client: t.name.clone(),
                total: t.count,
                unique_names: names.len() as u64,
                hour: t.hour,
            },
        );
        assert(want.take(i + 1) =~= want.take(i as int).push(want[i as int]));
        i = i + 1;
    }
    assert(want.take(want.len() as int) =~= want);
    out
}

/// The parent of a process that was born, in decimal, and the hour.
pub open spec fn born_to() -> spec_fn(EventView) -> Option<(Seq<char>, u64)> {
    |e: EventView|
        match e.payload.u64_at("ppid"@) {
            Some(p) => if e.kind == EventKind::ProcessBirth {
                Some((decimal((p % 0x1_0000_0000) as nat), hour_of_event(e)))
            } else {
                None
            },
            None => None,
        }
}

fn parent_of(e: &Event) -> (r: Option<(String, u64)>)
    ensures
        r.deep_view() == born_to()(e.deep_view()),
{
    match e.payload.u64_at("ppid") {
        Some(p) => if e.kind == EventKind::ProcessBirth {
            Some((u64_text(p % 0x1_0000_0000), event_hour(e)))
        } else {
            None
        },
        None => None,
    }
}

/// How many children each parent had, under its process id in decimal.
pub fn children_tallies(events: &[Event]) -> (r: Vec<HourTally>)
    ensures
        r.deep_view() == hour_tallies(events.deep_view().filter_map(born_to())),
{
    tally_hours(&collect(events, parent_of, Ghost(born_to())))
}

/// A connection to a port of remote access.
#[derive(Debug)]
pub struct PortTouch {
    pub process_name: String,
    pub foreign_addr: String,
    pub port: u16,
    pub label: &'static str,
    pub hour: u64,
}

/// What a `PortTouch` holds.
pub struct PortTouchView {
    pub process_name: Seq<char>,
    pub foreign_addr: Seq<char>,
    pub port: u16,
    pub label: Seq<char>,
    pub hour: u64,
}

impl DeepView for PortTouch {
    type V = PortTouchView;

    open spec fn deep_view(&self) -> PortTouchView {
        PortTouchView {
            process_name: self.process_name@,
            foreign_addr: self.foreign_addr@,
            port: self.port,
            label: self.label@,
            hour: self.hour,
        }
    }
}

/// The connections to ports of remote access so far, each program and remote
/// end once, with the hour of the first.
pub open spec fn port_touches_of(events: Seq<EventView>) -> Seq<PortTouchView>
    decreases events.len(),
{
    if events.len() == 0 {
        Seq::empty()
    } else {
        let rest = port_touches_of(events.drop_last());
        let e = events.last();
        match touched()(e) {
            Some((who, foreign)) => if touch_known(rest, who, foreign) {
                rest
            } else {
                let (port, label) = sensitive(foreign)->0;
                rest.push(
                    PortTouchView {
                        process_name: who,
                        foreign_addr: foreign,
                        port,
                        label,
                        hour: hour_of_event(e),
                    },
                )
            },
            None => rest,
        }
    }
}

/// Whether a program and a remote end are among the connections.
pub open spec fn touch_known(ts: Seq<PortTouchView>, who: Seq<char>, foreign: Seq<char>) -> bool {
    exists|k: int|
        0 <= k < ts.len() && (#[trigger] ts[k]).process_name == who && ts[k].foreign_addr == foreign
}

fn knows_touch(v: &Vec<PortTouch>, who: &str, foreign: &str) -> (r: bool)
    ensures
        r == touch_known(v.deep_view(), who@, foreign@),
{
    let ghost all = v.deep_view();
    let mut i: usize = 0;
    while i < v.len()
        invariant
            all == v.deep_view(),
            i <= v@.len(),
            forall|k: int|
                0 <= k < i ==> !((#[trigger] all[k]).process_name == who@ && all[k].foreign_addr
                    == foreign@),
        decreases v@.len() - i,
    {
        assert(all[i as int] == v@[i as int].deep_view());
        if str_eq(v[i].process_name.as_str(), who) && str_eq(v[i].foreign_addr.as_str(), foreign) {
            return true;
        }
        i = i + 1;
    }
    false
}

/// The connections to ports of remote access, each program and remote end
/// once.
pub fn port_touches(events: &[Event]) -> (r: Vec<PortTouch>)
    ensures
        r.deep_view() == port_touches_of(events.deep_view()),
{
    let ghost all = events.deep_view();
    let mut out: Vec<PortTouch> = Vec::new();
    let mut i: usize = 0;
    assert(out.deep_view() =~= port_touches_of(all.take(0)));
    while i < events.len()
        invariant
            all == events.deep_view(),
            i <= events@.len(),
            out.deep_view() == port_touches_of(all.take(i as int)),
        decreases events@.len() - i,
    {
        assert(all[i as int] == events@[i as int].deep_view());
        assert(all.take(i + 1).drop_last() =~= all.take(i as int));
        let e: &Event = &events[i];
        if e.kind == EventKind::ConnectionOpened || e.kind == EventKind::ConnectionCompleted {
            match e.payload.string_at("foreign_addr") {
                Some(foreign) => match foreign_port(foreign.as_str()) {
                    Some(port) => match sensitive_port(port) {
                        Some(label) => {
                            let who: String = text_or_unknown(&e.payload, "process_name");
                            if !knows_touch(&out, who.as_str(), foreign.as_str()) {
                                push_item(
                                    &mut out,
                                    PortTouch {
                                        process_name: who,
                                        foreign_addr: foreign,
                                        port,
                                        label,
                                        hour: event_hour(e),
                                    },
                                );
                            }
                        },
                        None => {},
                    },
                    None => {},
                },
                None => {},
            }
        }
        i = i + 1;
    }
    proof {
        take_all(all);
    }
    out
}

/// How often each hour of the day saw events of a kind.
#[derive(Debug)]
pub struct HourCounts {
    pub kind: String,
    /// One for each hour.
    pub counts: Vec<u64>,
}

impl DeepView for HourCounts {
    type V = (Seq<char>, Seq<u64>);

    open spec fn deep_view(&self) -> (Seq<char>, Seq<u64>) {
        (self.kind@, self.counts@)
    }
}

/// The events of a kind in an hour.
pub open spec fn in_hour(kind: Seq<char>, hour: int) -> spec_fn(HourlyKindCountView) -> int {
    |c: HourlyKindCountView|
        if c.kind == kind && c.hour_of_day % 24 == hour {
            c.count as int
        } else {
            0
        }
}

/// The kinds of a profile.
pub open spec fn profile_kinds(rows: Seq<HourlyKindCountView>) -> Seq<Seq<char>> {
    rows.map_values(|c: HourlyKindCountView| c.kind)
}

/// The hours of a kind.
pub open spec fn hours_of(rows: Seq<HourlyKindCountView>) -> spec_fn(Seq<char>) -> (
    Seq<char>,
    Seq<u64>,
) {
    |k: Seq<char>| (k, Seq::new(24, |h: int| wrapped(sum_of(rows, in_hour(k, h)))))
}

fn kind_of_row(c: &HourlyKindCount) -> (r: String)
    ensures
        r.deep_view() == (|c: HourlyKindCountView| c.kind)(c.deep_view()),
{
    c.kind.clone()
}

fn count_hour(rows: &Vec<HourlyKindCount>, kind: &str, hour: u8) -> (r: u64)
    ensures
        r == wrapped(sum_of(rows.deep_view(), in_hour(kind@, hour as int))),
{
    let ghost all = rows.deep_view();
    let ghost f = in_hour(kind@, hour as int);
    let mut sum: u64 = 0;
    let mut i: usize = 0;
    while i < rows.len()
        invariant
            all == rows.deep_view(),
            f == in_hour(kind@, hour as int),
            i <= rows@.len(),
            sum == wrapped(sum_of(all.take(i as int), f)),
        decreases rows@.len() - i,
    {
        assert(all.take(i + 1).drop_last() =~= all.take(i as int));
        assert(all[i as int] == rows@[i as int].deep_view());
        proof {
            wrapped_step(sum_of(all.take(i as int), f), f(all[i as int]));
        }
        if str_eq(rows[i].kind.as_str(), kind) && rows[i].hour_of_day % 24 == hour {
            sum = sum.wrapping_add(rows[i].count);
        }
        i = i + 1;
    }
    proof {
        take_all(all);
    }
    sum
}

fn hour_counts(rows: &Vec<HourlyKindCount>) -> (r: Vec<HourCounts>)
    ensures
        r.deep_view() == uniques(profile_kinds(rows.deep_view())).map_values(
            hours_of(rows.deep_view()),
        ),
{
    let ghost all = rows.deep_view();
    let kinds: Vec<String> = convert(
        whole(rows),
        kind_of_row,
        Ghost(|c: HourlyKindCountView| c.kind),
    );
    let once: Vec<String> = unique_texts(&kinds);
    let ghost u = uniques(profile_kinds(all));
    let ghost want = u.map_values(hours_of(all));
    let mut out: Vec<HourCounts> = Vec::new();
    let mut i: usize = 0;
    assert(out.deep_view() =~= want.take(0));
    while i < once.len()
        invariant
            all == rows.deep_view(),
            u == once.deep_view(),
            want == u.map_values(hours_of(all)),
            i <= once@.len(),
            out.deep_view() == want.take(i as int),
        decreases once@.len() - i,
    {
        assert(u[i as int] == once@[i as int]@);
        let ghost hours = want[i as int].1;
        let mut counts: Vec<u64> = Vec::new();
        let mut h: u8 = 0;
        while h < 24
            invariant
                all == rows.deep_view(),
                i < once@.len(),
                hours == hours_of(all)(once@[i as int]@).1,
                h <= 24,
                counts@ == hours.take(h as int),
            decreases 24 - h,
        {
            counts.push(count_hour(rows, once[i].as_str(), h));
            assert(hours.take(h + 1) =~= hours.take(h as int).push(hours[h as int]));
            h = h + 1;
        }
        assert(hours.take(24) =~= hours);
        push_item(&mut out, HourCounts { kind: once[i].clone(), counts });
        assert(want.take(i + 1) =~= want.take(i as int).push(want[i as int]));
        i = i + 1;
    }
    assert(want.take(want.len() as int) =~= want);
    out
}

/// How often a value occurred in each hour in which it did, in order.
#[derive(Debug)]
pub struct EntityCounts {
    pub entity: String,
    pub counts: Vec<u64>,
}

impl DeepView for EntityCounts {
    type V = (Seq<char>, Seq<u64>);

    open spec fn deep_view(&self) -> (Seq<char>, Seq<u64>) {
        (self.entity@, self.counts@)
    }
}

/// The count of a row with a value.
pub open spec fn count_with(v: Seq<char>) -> spec_fn(FieldWindowCountView) -> Option<u64> {
    |c: FieldWindowCountView|
        if c.value == v {
            Some(c.count)
        } else {
            None
        }
}

/// The values of rows.
pub open spec fn row_values(rows: Seq<FieldWindowCountView>) -> Seq<Seq<char>> {
    rows.map_values(|c: FieldWindowCountView| c.value)
}

/// The counts of a value.
pub open spec fn counts_of(rows: Seq<FieldWindowCountView>) -> spec_fn(Seq<char>) -> (
    Seq<char>,
    Seq<u64>,
) {
    |v: Seq<char>| (v, rows.filter_map(count_with(v)))
}

/// The counts of every value.
pub open spec fn entity_counts(rows: Seq<FieldWindowCountView>) -> Seq<(Seq<char>, Seq<u64>)> {
    uniques(row_values(rows)).map_values(counts_of(rows))
}

fn value_of_row(c: &FieldWindowCount) -> (r: String)
    ensures
        r.deep_view() == (|c: FieldWindowCountView| c.value)(c.deep_view()),
{
    c.value.clone()
}

fn counts_with(rows: &Vec<FieldWindowCount>, v: &str) -> (r: Vec<u64>)
    ensures
        r@ == rows.deep_view().filter_map(count_with(v@)),
{
    let ghost all = rows.deep_view();
    let ghost g = count_with(v@);
    let mut out: Vec<u64> = Vec::new();
    let mut i: usize = 0;
    proof {
        filter_map_start(all, g);
    }
    while i < rows.len()
        invariant
            all == rows.deep_view(),
            g == count_with(v@),
            i <= rows@.len(),
            out@ == all.take(i as int).filter_map(g),
        decreases rows@.len() - i,
    {
        assert(all[i as int] == rows@[i as int].deep_view());
        proof {
            filter_map_step(all, g, i as int);
        }
        if str_eq(rows[i].value.as_str(), v) {
            out.push(rows[i].count);
        }
        i = i + 1;
    }
    proof {
        take_all(all);
    }
    out
}

/// The counts of every value of hourly rows.
pub fn group_counts(rows: &Vec<FieldWindowCount>) -> (r: Vec<EntityCounts>)
    ensures
        r.deep_view() == entity_counts(rows.deep_view()),
{
    let ghost all = rows.deep_view();
    let values: Vec<String> = convert(
        whole(rows),
        value_of_row,
        Ghost(|c: FieldWindowCountView| c.value),
    );
    let once: Vec<String> = unique_texts(&values);
    let ghost u = uniques(row_values(all));
    let ghost want = u.map_values(counts_of(all));
    let mut out: Vec<EntityCounts> = Vec::new();
    let mut i: usize = 0;
    assert(out.deep_view() =~= want.take(0));
    while i < once.len()
        invariant
            all == rows.deep_view(),
            u == once.deep_view(),
            want == u.map_values(counts_of(all)),
            i <= once@.len(),
            out.deep_view() == want.take(i as int),
        decreases once@.len() - i,
    {
        assert(u[i as int] == once@[i as int]@);
        let counts: Vec<u64> = counts_with(rows, once[i].as_str());
        push_item(&mut out, EntityCounts { entity: once[i].clone(), counts });
        assert(want.take(i + 1) =~= want.take(i as int).push(want[i as int]));
        i = i + 1;
    }
    assert(want.take(want.len() as int) =~= want);
    out
}

/// The starts of rows' windows.
pub open spec fn starts(rows: Seq<FieldWindowCountView>) -> Seq<i64> {
    rows.map_values(|c: FieldWindowCountView| c.window_start_unix_ns)
}

/// The least and the greatest of some times.
pub open spec fn bounds(ts: Seq<i64>) -> Option<(i64, i64)>
    decreases ts.len(),
{
    if ts.len() == 0 {
        None
    } else {
        let t = ts.last();
        match bounds(ts.drop_last()) {
            None => Some((t, t)),
            Some((lo, hi)) => Some(
                (
                    if t < lo {
                        t
                    } else {
                        lo
                    },
                    if t > hi {
                        t
                    } else {
                        hi
                    },
                ),
            ),
        }
    }
}

/// How far the history of a machine reaches: over its nodes, or over hours in
/// which it saw events, whichever is longer.
pub open spec fn history_span(first: Option<i64>, last: Option<i64>, ts: Seq<i64>) -> int {
    let nodes = match (first, last) {
        (Some(a), Some(b)) => if b > a {
            b - a
        } else {
            0
        },
        _ => 0,
    };
    let events = match bounds(ts) {
        Some((lo, hi)) => hi - lo + HOUR_NS,
        None => 0,
    };
    if nodes > events {
        nodes
    } else {
        events
    }
}

/// Whether a history is too short to compare with.
pub open spec fn is_cold_span(span: int) -> bool {
    span < MIN_BASELINE_DAYS * 24 * HOUR_NS
}

fn start_of_row(c: &FieldWindowCount) -> (r: i64)
    ensures
        r.deep_view() == (|c: FieldWindowCountView| c.window_start_unix_ns)(c.deep_view()),
{
    c.window_start_unix_ns
}

fn bounds_of(ts: &Vec<i64>) -> (r: Option<(i64, i64)>)
    ensures
        r == bounds(ts@),
        r is Some ==> (r->0).0 <= (r->0).1,
{
    let mut out: Option<(i64, i64)> = None;
    let mut i: usize = 0;
    while i < ts.len()
        invariant
            i <= ts@.len(),
            out == bounds(ts@.take(i as int)),
            out is Some ==> (out->0).0 <= (out->0).1,
        decreases ts@.len() - i,
    {
        assert(ts@.take(i + 1).drop_last() =~= ts@.take(i as int));
        let t: i64 = ts[i];
        out = match out {
            None => Some((t, t)),
            Some((lo, hi)) => Some(
                (
                    if t < lo {
                        t
                    } else {
                        lo
                    },
                    if t > hi {
                        t
                    } else {
                        hi
                    },
                ),
            ),
        };
        i = i + 1;
    }
    proof {
        take_all(ts@);
    }
    out
}

/// Whether a history is too short to compare with.
pub fn history_is_cold(
    first_seen: Option<i64>,
    last_seen: Option<i64>,
    deaths: &Vec<FieldWindowCount>,
    lookups: &Vec<FieldWindowCount>,
) -> (r: bool)
    ensures
        r == is_cold_span(
            history_span(
                first_seen,
                last_seen,
                starts(deaths.deep_view()) + starts(lookups.deep_view()),
            ),
        ),
{
    let mut ts: Vec<i64> = convert(
        whole(deaths),
        start_of_row,
        Ghost(|c: FieldWindowCountView| c.window_start_unix_ns),
    );
    let mut more: Vec<i64> = convert(
        whole(lookups),
        start_of_row,
        Ghost(|c: FieldWindowCountView| c.window_start_unix_ns),
    );
    assert(ts@ =~= ts.deep_view());
    assert(more@ =~= more.deep_view());
    ts.append(&mut more);
    let nodes: i128 = match (first_seen, last_seen) {
        (Some(a), Some(b)) => if b > a {
            b as i128 - a as i128
        } else {
            0
        },
        _ => 0,
    };
    let events: i128 = match bounds_of(&ts) {
        Some((lo, hi)) => hi as i128 - lo as i128 + 3_600_000_000_000,
        None => 0,
    };
    let span: i128 = if nodes > events {
        nodes
    } else {
        events
    };
    span < 3 * 24 * 3_600_000_000_000
}

/// The counts of a machine's history.
#[derive(Debug)]
pub struct BaselineCounts {
    /// The history is too short to compare with.
    pub cold: bool,
    /// Ends of processes per program and hour.
    pub deaths: Vec<EntityCounts>,
    /// Lookups per client and hour.
    pub lookups: Vec<EntityCounts>,
    /// Children per parent.
    pub children: Vec<(String, u64)>,
    /// Events per kind and hour of the day.
    pub hours: Vec<HourCounts>,
}

/// A child of a parent.
pub open spec fn child_of() -> spec_fn(EdgeRateView) -> (Seq<char>, u64) {
    |e: EdgeRateView| (e.from_id, 1u64)
}

fn child_entry(e: &EdgeRate) -> (r: (String, u64))
    ensures
        r.deep_view() == child_of()(e.deep_view()),
{
    (e.from_id.clone(), 1)
}

/// The fields of a payload that the hourly rows of a kind are made from.
pub open spec fn history_fields(s: StoreView, kind: EventKind, key: Seq<char>, from: i64) -> Seq<
    (JsonView, i64),
> {
    s.events.filter_map(field_at(kind, key, from))
}

/// The hourly rows of a kind.
pub open spec fn history_rows(s: StoreView, kind: EventKind, key: Seq<char>, from: i64) -> Seq<
    FieldWindowCountView,
> {
    window_counts(field_cells(history_fields(s, kind, key, from), HOUR_NS))
}

/// When the lookback begins.
pub open spec fn lookback_start(now: i64, days: u32) -> i64 {
    let t = now - days * 24 * HOUR_NS;
    if t < i64::MIN {
        i64::MIN
    } else {
        t as i64
    }
}

/// Whether the counts are those of a store's history since a time.
pub open spec fn counted(s: StoreView, from: i64, b: BaselineCounts) -> bool {
    let deaths = history_rows(s, EventKind::ProcessDeath, "comm"@, from);
    let lookups = history_rows(s, EventKind::DnsQuery, "client_process_name"@, from);
    let profile = cells().filter_map(cell_count(s.events, from));
    &&& b.cold == is_cold_span(
        history_span(earliest(s.nodes), latest(s.nodes), starts(deaths) + starts(lookups)),
    )
    &&& b.deaths.deep_view() == entity_counts(deaths)
    &&& b.lookups.deep_view() == entity_counts(lookups)
    &&& b.children.deep_view() == totals(
        s.edges.filter_map(rate_of("parent_of"@)).map_values(child_of()),
    )
    &&& b.hours.deep_view() == uniques(profile_kinds(profile)).map_values(hours_of(profile))
}

/// The counted fields are paths into every payload.
proof fn fields_are_paths(rows: Seq<EventRowView>, kind: EventKind, from: i64)
    ensures
        !is_bad_path(rows, kind, "comm"@, from),
        !is_bad_path(rows, kind, "client_process_name"@, from),
{
    reveal_strlit("comm");
    reveal_strlit("client_process_name");
    first_where_is_first("comm"@, is_char('\0'));
    first_where_is_first("client_process_name"@, is_char('\0'));
    take_all("comm"@);
    take_all("client_process_name"@);
    assert(up_to_nul("comm"@) == "comm"@);
    assert(up_to_nul("client_process_name"@) == "client_process_name"@);
    assert forall|i: int| 0 <= i < rows.len() implies lookup(
        (#[trigger] rows[i]).payload,
        field_path("comm"@),
    ) is Some && lookup(rows[i].payload, field_path("client_process_name"@)) is Some by {
        plain_key_is_a_path(rows[i].payload, "comm"@);
        plain_key_is_a_path(rows[i].payload, "client_process_name"@);
    }
}

impl BaselineCounts {
    /// Counts the history of the last days before `now_unix_ns`. A number or a
    /// truth value where a name is counted is an error.
    pub fn from_store(store: &Store, now_unix_ns: i64, lookback_days: u32) -> (r: Result<
        Self,
        StoreError,
    >)
        requires
            lookback_days * 24 * HOUR_NS <= i64::MAX,
        ensures
            ({
                let from = lookback_start(now_unix_ns, lookback_days);
                if all_countable(
                    history_fields(store@, EventKind::ProcessDeath, "comm"@, from),
                    HOUR_NS,
                ) && all_countable(
                    history_fields(store@, EventKind::DnsQuery, "client_process_name"@, from),
                    HOUR_NS,
                ) {
                    r is Ok && counted(store@, from, r->Ok_0)
                } else {
                    r matches Err(StoreError::Sql(m)) && m@ == "Invalid column type"@
                }
            }),
    {
        let span: i64 = lookback_days as i64 * 24 * 3_600_000_000_000;
        let from: i64 = if now_unix_ns < i64::MIN + span {
            i64::MIN
        } else {
            now_unix_ns - span
        };
        proof {
            fields_are_paths(store@.events, EventKind::ProcessDeath, from);
            fields_are_paths(store@.events, EventKind::DnsQuery, from);
        }
        let death_rows: Vec<FieldWindowCount> = match store.event_field_window_counts(
            EventKind::ProcessDeath,
            "comm",
            from,
            HOUR_NS,
        ) {
            Ok(v) => v,
            Err(e) => {
                return Err(e);
            },
        };
        let dns_rows: Vec<FieldWindowCount> = match store.event_field_window_counts(
            EventKind::DnsQuery,
            "client_process_name",
            from,
            HOUR_NS,
        ) {
            Ok(v) => v,
            Err(e) => {
                return Err(e);
            },
        };
        let summary = match store.summary() {
            Ok(s) => s,
            Err(e) => {
                return Err(e);
            },
        };
        let cold: bool = history_is_cold(
            summary.first_seen_unix_ns,
            summary.last_seen_unix_ns,
            &death_rows,
            &dns_rows,
        );
        let rates: Vec<EdgeRate> = match store.edge_rates("parent_of") {
            Ok(v) => v,
            Err(e) => {
                return Err(e);
            },
        };
        let profile: Vec<HourlyKindCount> = match store.event_hourly_profile(from) {
            Ok(v) => v,
            Err(e) => {
                return Err(e);
            },
        };
        let entries: Vec<(String, u64)> = convert(whole(&rates), child_entry, Ghost(child_of()));
        Ok(
            BaselineCounts {
                cold,
                deaths: group_counts(&death_rows),
                lookups: group_counts(&dns_rows),
                children: tally_texts(&entries),
                hours: hour_counts(&profile),
            },
        )
    }
}

// ---------- what stands out ---------------------------------------------------------

/// Limits of a machine: from how many on something stands out. Those that no
/// limit is known for take the default, unless it is zero.
#[derive(Debug)]
pub struct Limits {
    pub per_entity: Vec<(String, u64)>,
    pub default: u64,
}

/// What `Limits` hold.
pub struct LimitsView {
    pub per_entity: Seq<(Seq<char>, u64)>,
    pub default: u64,
}

impl DeepView for Limits {
    type V = LimitsView;

    open spec fn deep_view(&self) -> LimitsView {
        LimitsView { per_entity: self.per_entity.deep_view(), default: self.default }
    }
}

/// The limits of a machine for a window. While its history is too short they
/// do not count, and fixed ones do.
#[derive(Debug)]
pub struct WindowLimits {
    pub cold: bool,
    /// Short-lived runs per program.
    pub deaths: Limits,
    /// Lookups per client.
    pub lookups: Limits,
    /// Children of any parent.
    pub children: u64,
}

/// From how many short-lived runs on a program stands out on any machine.
pub const LEGACY_SHORT_LIVED_BURST_MIN: u64 = 5;

/// From how many lookups on a client stands out on any machine.
pub const LEGACY_HEAVY_DNS_QUERIES: u64 = 50;

/// From how many children on a parent stands out on any machine.
pub const LEGACY_PROLIFIC_PARENT: u64 = 8;

/// The limit of an entity.
pub open spec fn limit_of(l: LimitsView, name: Seq<char>, legacy: u64, cold: bool) -> u64 {
    if cold {
        legacy
    } else {
        match first_where(l.per_entity, named(name)) {
            Some(i) => l.per_entity[i].1,
            None => if l.default > 0 {
                l.default
            } else {
                legacy
            },
        }
    }
}

/// The limit of an entity.
pub fn threshold(l: &Limits, name: &str, legacy: u64, cold: bool) -> (r: u64)
    ensures
        r == limit_of(l.deep_view(), name@, legacy, cold),
{
    if cold {
        return legacy;
    }
    let ghost all = l.per_entity.deep_view();
    let ghost p = named(name@);
    let mut i: usize = 0;
    while i < l.per_entity.len()
        invariant
            all == l.per_entity.deep_view(),
            p == named(name@),
            i <= l.per_entity@.len(),
            !cold,
            forall|k: int| 0 <= k < i ==> !p(#[trigger] all[k]),
        decreases l.per_entity@.len() - i,
    {
        assert(all[i as int] == l.per_entity@[i as int].deep_view());
        if str_eq(l.per_entity[i].0.as_str(), name) {
            proof {
                first_where_is_first(all, p);
                let f = first_where(all, p)->0;
                assert(p(all[i as int]));
                if f < i {
                    assert(!p(all[f]));
                }
                if i < f {
                    assert(!p(all[i as int]));
                }
            }
            return l.per_entity[i].1;
        }
        i = i + 1;
    }
    proof {
        first_where_is_first(all, p);
    }
    if l.default > 0 {
        l.default
    } else {
        legacy
    }
}

/// Something that stands out in a window.
#[derive(Debug)]
pub struct Alarm {
    /// What it is, with the name of its kind before it.
    pub entity: String,
    /// What it is measured by.
    pub metric: &'static str,
    /// Its name alone.
    pub subject: String,
    pub observed: u64,
    /// The different names of a client's lookups.
    pub unique_names: u64,
    /// The kind of event whose hours it is compared with.
    pub kind: &'static str,
    /// The hour of the day.
    pub hour: u64,
}

/// What an `Alarm` holds.
pub struct AlarmView {
    pub entity: Seq<char>,
    pub metric: Seq<char>,
    pub subject: Seq<char>,
    pub observed: u64,
    pub unique_names: u64,
    pub kind: Seq<char>,
    pub hour: u64,
}

impl DeepView for Alarm {
    type V = AlarmView;

    open spec fn deep_view(&self) -> AlarmView {
        AlarmView {
            entity: self.entity@,
            metric: self.metric@,
            subject: self.subject@,
            observed: self.observed,
            unique_names: self.unique_names,
            kind: self.kind@,
            hour: self.hour,
        }
    }
}

/// A program with a burst of short-lived runs.
pub open spec fn burst(l: WindowLimits) -> spec_fn(HourTallyView) -> Option<AlarmView> {
    |t: HourTallyView|
        if t.count >= limit_of(
            l.deaths.deep_view(),
            t.name,
            LEGACY_SHORT_LIVED_BURST_MIN,
            l.cold,
        ) {
            Some(
                AlarmView {
                    entity: "process:"@ + t.name,
                    metric: "spawn_burst"@,
                    subject: t.name,
                    observed: t.count,
                    unique_names: 0,
                    kind: "process_death"@,
                    hour: t.hour,
                },
            )
        } else {
            None
        }
}

/// A client with many lookups.
pub open spec fn fan_out(l: WindowLimits) -> spec_fn(DnsTallyView) -> Option<AlarmView> {
    |t: DnsTallyView|
        if t.total >= limit_of(
            l.lookups.deep_view(),
            t.client,
            LEGACY_HEAVY_DNS_QUERIES,
            l.cold,
        ) {
            Some(
                AlarmView {
                    entity: "dns_client:"@ + t.client,
                    metric: "dns_fanout"@,
                    subject: t.client,
                    observed: t.total,
                    unique_names: t.unique_names,
                    kind: "dns_query"@,
                    hour: t.hour,
                },
            )
        } else {
            None
        }
}

/// The limit of every parent: when it started is not known in a window, so that
/// no parent has one of its own.
pub open spec fn parent_limit(l: WindowLimits) -> u64 {
    if l.cold || l.children == 0 {
        LEGACY_PROLIFIC_PARENT
    } else {
        l.children
    }
}

/// A parent with many children.
pub open spec fn crowd(l: WindowLimits) -> spec_fn(HourTallyView) -> Option<AlarmView> {
    |t: HourTallyView|
        if t.count >= parent_limit(l) {
            Some(
                AlarmView {
                    entity: "parent:"@ + t.name,
                    metric: "prolific_parent"@,
                    subject: t.name,
                    observed: t.count,
                    unique_names: 0,
                    kind: "process_birth"@,
                    hour: t.hour,
                },
            )
        } else {
            None
        }
}

/// A connection to a port of remote access, which stands out on any machine.
pub open spec fn touch_alarm() -> spec_fn(PortTouchView) -> AlarmView {
    |t: PortTouchView|
        AlarmView {
            entity: "endpoint:"@ + t.foreign_addr,
            metric: "sensitive_port"@,
            subject: port_flag()((t.process_name, t.foreign_addr)),
            observed: t.port as u64,
            unique_names: 0,
            kind: "connection_opened"@,
            hour: t.hour,
        }
}

/// What stands out in a window: bursts by name, clients, parents, and ports.
pub open spec fn alarms_of(events: Seq<EventView>, l: WindowLimits) -> Seq<AlarmView> {
    ranked(hour_tallies(events.filter_map(young(events))), tally_name()).filter_map(burst(l))
        + hour_tallies(events.filter_map(asked())).map_values(dns_tally(events)).filter_map(
        fan_out(l),
    ) + hour_tallies(events.filter_map(born_to())).filter_map(crowd(l)) + port_touches_of(
        events,
    ).map_values(touch_alarm())
}

fn entity_text(kind: &str, name: &str) -> (r: String)
    ensures
        r@ == kind@ + name@,
{
    let mut s: String = kind.to_string();
    s.append(name);
    s
}

/// What stands out in a window, against the limits of the machine.
pub fn window_alarms(events: &[Event], limits: &WindowLimits) -> (r: Vec<Alarm>)
    ensures
        r.deep_view() == alarms_of(events.deep_view(), *limits),
{
    let ghost ev = events.deep_view();
    let mut out: Vec<Alarm> = Vec::new();
    let runs: Vec<HourTally> = short_lived_tallies(events);
    let ghost all = runs.deep_view();
    let ghost f = burst(*limits);
    let mut i: usize = 0;
    proof {
        filter_map_start(all, f);
        assert(out.deep_view() =~= Seq::<AlarmView>::empty());
    }
    while i < runs.len()
        invariant
            all == runs.deep_view(),
            f == burst(*limits),
            i <= runs@.len(),
            out.deep_view() == all.take(i as int).filter_map(f),
        decreases runs@.len() - i,
    {
        assert(all[i as int] == runs@[i as int].deep_view());
        proof {
            filter_map_step(all, f, i as int);
        }
        let t: &HourTally = &runs[i];
        if t.count >= threshold(
            &limits.deaths,
            t.name.as_str(),
            LEGACY_SHORT_LIVED_BURST_MIN,
            limits.cold,
        ) {
            push_item(
                &mut out,
                Alarm {
                    entity: entity_text("process:", t.name.as_str()),
                    metric: "spawn_burst",
                    subject: t.name.clone(),
                    observed: t.count,
                    unique_names: 0,
                    kind: "process_death",
                    hour: t.hour,
                },
            );
        }
        i = i + 1;
    }
    proof {
        take_all(all);
    }
    let ghost first = all.filter_map(f);
    let lookups: Vec<DnsTally> = dns_tallies(events);
    let ghost all = lookups.deep_view();
    let ghost f = fan_out(*limits);
    let mut i: usize = 0;
    proof {
        filter_map_start(all, f);
        assert(first + Seq::<AlarmView>::empty() =~= first);
    }
    while i < lookups.len()
        invariant
            all == lookups.deep_view(),
            f == fan_out(*limits),
            i <= lookups@.len(),
            out.deep_view() == first + all.take(i as int).filter_map(f),
        decreases lookups@.len() - i,
    {
        assert(all[i as int] == lookups@[i as int].deep_view());
        proof {
            filter_map_step(all, f, i as int);
        }
        let t: &DnsTally = &lookups[i];
        let ghost have = all.take(i as int).filter_map(f);
        if t.total >= threshold(
            &limits.lookups,
            t.client.as_str(),
            LEGACY_HEAVY_DNS_QUERIES,
            limits.cold,
        ) {
            let a = Alarm {
                entity: entity_text("dns_client:", t.client.as_str()),
                metric: "dns_fanout",
                subject: t.client.clone(),
                observed: t.total,
                unique_names: t.unique_names,
                kind: "dns_query",
                hour: t.hour,
            };
            let ghost v = a.deep_view();
            push_item(&mut out, a);
            assert((first + have).push(v) =~= first + have.push(v));
        }
        i = i + 1;
    }
    proof {
        take_all(all);
    }
    let ghost second = first + all.filter_map(f);
    let parents: Vec<HourTally> = children_tallies(events);
    let ghost all = parents.deep_view();
    let ghost f = crowd(*limits);
    let limit: u64 = if limits.cold || limits.children == 0 {
        LEGACY_PROLIFIC_PARENT
    } else {
        limits.children
    };
    let mut i: usize = 0;
    proof {
        filter_map_start(all, f);
        assert(second + Seq::<AlarmView>::empty() =~= second);
    }
    while i < parents.len()
        invariant
            all == parents.deep_view(),
            f == crowd(*limits),
            limit == parent_limit(*limits),
            i <= parents@.len(),
            out.deep_view() == second + all.take(i as int).filter_map(f),
        decreases parents@.len() - i,
    {
        assert(all[i as int] == parents@[i as int].deep_view());
        proof {
            filter_map_step(all, f, i as int);
        }
        let t: &HourTally = &parents[i];
        let ghost have = all.take(i as int).filter_map(f);
        if t.count >= limit {
            let a = Alarm {
                entity: entity_text("parent:", t.name.as_str()),
                metric: "prolific_parent",
                subject: t.name.clone(),
                observed: t.count,
                unique_names: 0,
                kind: "process_birth",
                hour: t.hour,
            };
            let ghost v = a.deep_view();
            push_item(&mut out, a);
            assert((second + have).push(v) =~= second + have.push(v));
        }
        i = i + 1;
    }
    proof {
        take_all(all);
        touches_are_sensitive(ev);
    }
    let ghost third = second + all.filter_map(f);
    let touches: Vec<PortTouch> = port_touches(events);
    let ghost all = touches.deep_view();
    let ghost want = all.map_values(touch_alarm());
    let mut i: usize = 0;
    assert(third + want.take(0) =~= third);
    while i < touches.len()
        invariant
            all == touches.deep_view(),
            want == all.map_values(touch_alarm()),
            forall|k: int|
                0 <= k < all.len() ==> sensitive((#[trigger] all[k]).foreign_addr) is Some,
            i <= touches@.len(),
            out.deep_view() == third + want.take(i as int),
        decreases touches@.len() - i,
    {
        assert(all[i as int] == touches@[i as int].deep_view());
        let t: &PortTouch = &touches[i];
        push_item(
            &mut out,
            Alarm {
                entity: entity_text("endpoint:", t.foreign_addr.as_str()),
                metric: "sensitive_port",
                subject: text_of_port_flag(&(t.process_name.clone(), t.foreign_addr.clone())),
                observed: t.port as u64,
                unique_names: 0,
                kind: "connection_opened",
                hour: t.hour,
            },
        );
        assert(third + want.take(i + 1) =~= (third + want.take(i as int)).push(want[i as int]));
        i = i + 1;
    }
    assert(want.take(want.len() as int) =~= want);
    out
}

/// Every connection told of went to a port of remote access.
proof fn touches_are_sensitive(events: Seq<EventView>)
    ensures
        forall|k: int|
            0 <= k < port_touches_of(events).len() ==> sensitive(
                (#[trigger] port_touches_of(events)[k]).foreign_addr,
            ) is Some,
    decreases events.len(),
{
    if events.len() > 0 {
        touches_are_sensitive(events.drop_last());
    }
}

/// While the history is too short, the machine's own limits do not matter.
pub proof fn cold_limits_do_not_matter(events: Seq<EventView>, a: WindowLimits, b: WindowLimits)
    requires
        a.cold,
        b.cold,
    ensures
        alarms_of(events, a) == alarms_of(events, b),
{
    assert(burst(a) =~= burst(b));
    assert(fan_out(a) =~= fan_out(b));
    assert(crowd(a) =~= crowd(b));
}

} // verus!
