//! The summary of a window, from its events or from a graph of it.

use vstd::prelude::*;
use vstd::string::*;

use crate::events::{Event, EventKind, EventView};
use crate::graph::{
    AppNode, AppNodeView, FileNode, FileNodeView, Graph, GraphView, Interval, ProcessNode,
    ProcessNodeView, SocketNode, SocketNodeView,
};
use crate::json::{copy_opt, copy_strings};
use crate::observation::Timestamp;
use crate::order::{first_n, insert_row, keyed, sort_by_key, sort_by_key_sorts};
use crate::seqs::{
    chain, collect, convert, count_where, count_where_step, filter_map_is_no_longer,
    filter_map_start, filter_map_step, gather,
    push_item, take_all, whole,
};
use crate::store_history::{
    NewApp, NewAppView, NewEndpoint, NewEndpointView, NewProcessIdentity, NewProcessIdentityView,
    NoveltyReport,
};
use crate::store_trends::kinds_by_name;
use crate::suspicions::{event_suspicions, flags_of};
use crate::tally::{low_32, tally_pairs, totals, wrapped32};
use crate::text::{decimal, flat, Parts};
use crate::timeline::{
    busiest, busiest_of, changed, directory_bucket, endpoint_fact, endpoints_of, is_noisy,
    leading_clients, leading_endpoints, liveliest, liveliest_of, looked_up, most_bytes, noisy_comm,
    number_or_zero, or_unknown, or_zero, place_endpoints, spawned, top_directories, top_dns_clients,
    top_endpoints, top_processes, DirectoryFact, DirectoryFactView, DnsClientFact, DnsClientFactView,
    EndpointFact, EndpointFactView, FocusSegment, FocusSegmentView, ProcessFact, ProcessFactView,
    SECOND_NS, TOP_N_ENDPOINTS,
};

verus! {

/// What a window had that was never seen before, ready to print.
#[derive(Debug)]
pub struct NoveltySummary {
    /// The history hardly reaches back before the window, so that nothing can
    /// be called new yet; the lists are then empty.
    pub baseline_cold: bool,
    pub new_processes: Vec<String>,
    pub new_domains: Vec<String>,
    pub new_endpoints: Vec<String>,
    pub new_apps: Vec<String>,
}

/// What a `NoveltySummary` holds.
pub struct NoveltySummaryView {
    pub baseline_cold: bool,
    pub new_processes: Seq<Seq<char>>,
    pub new_domains: Seq<Seq<char>>,
    pub new_endpoints: Seq<Seq<char>>,
    pub new_apps: Seq<Seq<char>>,
}

impl DeepView for NoveltySummary {
    type V = NoveltySummaryView;

    open spec fn deep_view(&self) -> NoveltySummaryView {
        NoveltySummaryView {
            baseline_cold: self.baseline_cold,
            new_processes: self.new_processes.deep_view(),
            new_domains: self.new_domains.deep_view(),
            new_endpoints: self.new_endpoints.deep_view(),
            new_apps: self.new_apps.deep_view(),
        }
    }
}

impl NoveltySummaryView {
    /// Whether anything is new.
    pub open spec fn has_novelty(self) -> bool {
        self.new_processes.len() > 0 || self.new_domains.len() > 0 || self.new_endpoints.len() > 0
            || self.new_apps.len() > 0
    }

    /// Nothing new.
    pub open spec fn nothing(baseline_cold: bool) -> NoveltySummaryView {
        NoveltySummaryView {
            baseline_cold,
            new_processes: Seq::empty(),
            new_domains: Seq::empty(),
            new_endpoints: Seq::empty(),
            new_apps: Seq::empty(),
        }
    }
}

/// A new program: its name and its path, as far as they are known, and its
/// runs where there was more than one.
pub open spec fn new_process_text() -> spec_fn(NewProcessIdentityView) -> Seq<char> {
    |p: NewProcessIdentityView|
        {
            let who = match (p.comm, p.exec_path) {
                (Some(c), Some(e)) => seq![c, " ("@, e, ")"@],
                (Some(c), None) => seq![c],
                (None, Some(e)) => seq![e],
                (None, None) => seq!["?"@],
            };
            if p.instances > 1 {
                flat(who + seq![" — "@, decimal(p.instances as nat), " runs"@])
            } else {
                flat(who)
            }
        }
}

/// A new remote end, and a program that met it.
pub open spec fn new_endpoint_text() -> spec_fn(NewEndpointView) -> Seq<char> {
    |e: NewEndpointView|
        match e.example_process {
            Some(p) => flat(seq![e.foreign_addr, " (via "@, p, ")"@]),
            None => e.foreign_addr,
        }
}

/// A new application: its name and its id.
pub open spec fn new_app_text() -> spec_fn(NewAppView) -> Seq<char> {
    |a: NewAppView|
        match a.name {
            Some(n) => flat(seq![n, " ["@, a.id, "]"@]),
            None => a.id,
        }
}

/// What a report of new things says.
pub open spec fn novelty_of(r: NoveltyReport, baseline_cold: bool) -> NoveltySummaryView {
    if baseline_cold {
        NoveltySummaryView::nothing(true)
    } else {
        NoveltySummaryView {
            baseline_cold: false,
            new_processes: r.new_processes.deep_view().map_values(new_process_text()),
            new_domains: r.new_domains.deep_view(),
            new_endpoints: r.new_endpoints.deep_view().map_values(new_endpoint_text()),
            new_apps: r.new_apps.deep_view().map_values(new_app_text()),
        }
    }
}

fn process_line(p: &NewProcessIdentity) -> (r: String)
    ensures
        r.deep_view() == new_process_text()(p.deep_view()),
{
    let mut t = Parts::new();
    match (&p.comm, &p.exec_path) {
        (Some(c), Some(e)) => {
            t.add(c.as_str());
            t.add(" (");
            t.add(e.as_str());
            t.add(")");
        },
        (Some(c), None) => {
            t.add(c.as_str());
        },
        (None, Some(e)) => {
            t.add(e.as_str());
        },
        (None, None) => {
            t.add("?");
        },
    }
    if p.instances > 1 {
        t.add(" — ");
        t.add_number(p.instances as u64);
        t.add(" runs");
    }
    t.finish()
}

fn endpoint_line(e: &NewEndpoint) -> (r: String)
    ensures
        r.deep_view() == new_endpoint_text()(e.deep_view()),
{
    match &e.example_process {
        Some(p) => {
            let mut t = Parts::new();
            t.add(e.foreign_addr.as_str());
            t.add(" (via ");
            t.add(p.as_str());
            t.add(")");
            t.finish()
        },
        None => e.foreign_addr.clone(),
    }
}

fn app_line(a: &NewApp) -> (r: String)
    ensures
        r.deep_view() == new_app_text()(a.deep_view()),
{
    match &a.name {
        Some(n) => {
            let mut t = Parts::new();
            t.add(n.as_str());
            t.add(" [");
            t.add(a.id.as_str());
            t.add("]");
            t.finish()
        },
        None => a.id.clone(),
    }
}

impl NoveltySummary {
    /// Whether anything is new.
    pub fn has_novelty(&self) -> (r: bool)
        ensures
            r == self.deep_view().has_novelty(),
    {
        self.new_processes.len() > 0 || self.new_domains.len() > 0 || self.new_endpoints.len() > 0
            || self.new_apps.len() > 0
    }

    /// Nothing new.
    pub fn nothing(baseline_cold: bool) -> (r: Self)
        ensures
            r.deep_view() == NoveltySummaryView::nothing(baseline_cold),
    {
        let r = NoveltySummary {
            baseline_cold,
            new_processes: Vec::new(),
            new_domains: Vec::new(),
            new_endpoints: Vec::new(),
            new_apps: Vec::new(),
        };
        assert(r.new_processes.deep_view() =~= Seq::<Seq<char>>::empty());
        assert(r.new_domains.deep_view() =~= Seq::<Seq<char>>::empty());
        assert(r.new_endpoints.deep_view() =~= Seq::<Seq<char>>::empty());
        assert(r.new_apps.deep_view() =~= Seq::<Seq<char>>::empty());
        r
    }

    /// What a report of new things says. While the history hardly reaches back
    /// before the window, nothing is called new.
    pub fn from_report(r: &NoveltyReport, baseline_cold: bool) -> (s: Self)
        ensures
            s.deep_view() == novelty_of(*r, baseline_cold),
    {
        if baseline_cold {
            return NoveltySummary::nothing(true);
        }
        NoveltySummary {
            baseline_cold: false,
            new_processes: convert(whole(&r.new_processes), process_line, Ghost(new_process_text())),
            new_domains: copy_strings(&r.new_domains),
            new_endpoints: convert(whole(&r.new_endpoints), endpoint_line, Ghost(new_endpoint_text())),
            new_apps: convert(whole(&r.new_apps), app_line, Ghost(new_app_text())),
        }
    }
}

impl Default for NoveltySummary {
    fn default() -> (r: Self)
        ensures
            r.deep_view() == NoveltySummaryView::nothing(false),
    {
        NoveltySummary::nothing(false)
    }
}

/// The facts of a window.
#[derive(Debug)]
pub struct CaptureSummary {
    pub duration_secs: u64,
    pub events_total: usize,
    pub focus_segments: Vec<FocusSegment>,
    pub top_processes: Vec<ProcessFact>,
    pub top_endpoints: Vec<EndpointFact>,
    pub top_directories: Vec<DirectoryFact>,
    pub top_dns_clients: Vec<DnsClientFact>,
    pub kind_counts: Vec<(String, u32)>,
    /// None where there was no history to compare with.
    pub novelty: Option<NoveltySummary>,
    pub suspicions: Vec<String>,
}

/// What a `CaptureSummary` holds.
pub struct CaptureSummaryView {
    pub duration_secs: u64,
    pub events_total: usize,
    pub focus_segments: Seq<FocusSegmentView>,
    pub top_processes: Seq<ProcessFactView>,
    pub top_endpoints: Seq<EndpointFactView>,
    pub top_directories: Seq<DirectoryFactView>,
    pub top_dns_clients: Seq<DnsClientFactView>,
    pub kind_counts: Seq<(Seq<char>, u32)>,
    pub novelty: Option<NoveltySummaryView>,
    pub suspicions: Seq<Seq<char>>,
}

impl DeepView for CaptureSummary {
    type V = CaptureSummaryView;

    open spec fn deep_view(&self) -> CaptureSummaryView {
        CaptureSummaryView {
            duration_secs: self.duration_secs,
            events_total: self.events_total,
            focus_segments: self.focus_segments.deep_view(),
            top_processes: self.top_processes.deep_view(),
            top_endpoints: self.top_endpoints.deep_view(),
            top_directories: self.top_directories.deep_view(),
            top_dns_clients: self.top_dns_clients.deep_view(),
            kind_counts: self.kind_counts.deep_view(),
            novelty: self.novelty.deep_view(),
            suspicions: self.suspicions.deep_view(),
        }
    }
}

/// The least of some times.
pub open spec fn least(ts: Seq<u64>) -> u64
    decreases ts.len(),
{
    if ts.len() == 0 {
        u64::MAX
    } else if ts.last() < least(ts.drop_last()) {
        ts.last()
    } else {
        least(ts.drop_last())
    }
}

/// The greatest of some times.
pub open spec fn greatest(ts: Seq<u64>) -> u64
    decreases ts.len(),
{
    if ts.len() == 0 {
        0
    } else if ts.last() > greatest(ts.drop_last()) {
        ts.last()
    } else {
        greatest(ts.drop_last())
    }
}

/// The whole seconds between the least and the greatest of some times.
pub open spec fn spread(ts: Seq<u64>) -> u64 {
    if ts.len() == 0 {
        0
    } else {
        ((greatest(ts) - least(ts)) / SECOND_NS as int) as u64
    }
}

/// No time is below the least or above the greatest.
pub proof fn least_and_greatest_bound(ts: Seq<u64>)
    ensures
        forall|i: int| 0 <= i < ts.len() ==> least(ts) <= #[trigger] ts[i] <= greatest(ts),
        ts.len() > 0 ==> ts.contains(least(ts)) && ts.contains(greatest(ts)),
    decreases ts.len(),
{
    if ts.len() > 0 {
        let t = ts.drop_last();
        least_and_greatest_bound(t);
        assert forall|i: int| 0 <= i < ts.len() implies least(ts) <= #[trigger] ts[i] <= greatest(
            ts,
        ) by {
            if i < t.len() {
                assert(t[i] == ts[i]);
            }
        }
        assert(ts[ts.len() - 1] == ts.last());
        if least(ts) != ts.last() {
            assert(t.len() > 0);
            let k = choose|k: int| 0 <= k < t.len() && t[k] == least(t);
            assert(ts[k] == least(ts));
        }
        if greatest(ts) != ts.last() {
            assert(t.len() > 0);
            let k = choose|k: int| 0 <= k < t.len() && t[k] == greatest(t);
            assert(ts[k] == greatest(ts));
        }
    }
}

/// The least, the greatest, and the seconds between them.
fn spread_of(ts: &Vec<u64>) -> (r: (u64, u64))
    ensures
        r.0 == greatest(ts@),
        r.1 == spread(ts@),
{
    let mut lo: u64 = u64::MAX;
    let mut hi: u64 = 0;
    let mut i: usize = 0;
    while i < ts.len()
        invariant
            i <= ts@.len(),
            lo == least(ts@.take(i as int)),
            hi == greatest(ts@.take(i as int)),
        decreases ts@.len() - i,
    {
        assert(ts@.take(i + 1).drop_last() =~= ts@.take(i as int));
        if ts[i] < lo {
            lo = ts[i];
        }
        if ts[i] > hi {
            hi = ts[i];
        }
        i = i + 1;
    }
    proof {
        take_all(ts@);
        least_and_greatest_bound(ts@);
    }
    if ts.len() == 0 {
        (hi, 0)
    } else {
        assert(least(ts@) <= ts@[0]);
        (hi, (hi - lo) / SECOND_NS)
    }
}

/// Whether an event is of a kind.
pub open spec fn of_kind(k: EventKind) -> spec_fn(EventView) -> bool {
    |e: EventView| e.kind == k
}

/// How many events are of a kind, where there are any.
pub open spec fn kind_count(events: Seq<EventView>) -> spec_fn(EventKind) -> Option<
    (Seq<char>, u32),
> {
    |k: EventKind|
        {
            let n = count_where(events, of_kind(k));
            if n > 0 {
                Some((k.spec_name(), wrapped32(n as int)))
            } else {
                None
            }
        }
}

fn count_kind(events: &[Event], k: EventKind) -> (r: u64)
    ensures
        r == count_where(events.deep_view(), of_kind(k)),
{
    let ghost all = events.deep_view();
    let mut n: u64 = 0;
    let mut i: usize = 0;
    while i < events.len()
        invariant
            all == events.deep_view(),
            i <= events@.len(),
            n == count_where(all.take(i as int), of_kind(k)),
            n <= i,
        decreases events@.len() - i,
    {
        assert(all[i as int] == events@[i as int].deep_view());
        proof {
            count_where_step(all, of_kind(k), i as int);
        }
        if events[i].kind == k {
            n = n + 1;
        }
        i = i + 1;
    }
    proof {
        take_all(all);
    }
    n
}

/// How many events there are of each kind that occurs, in the order of the
/// kinds' names.
pub fn kind_counts(events: &[Event]) -> (r: Vec<(String, u32)>)
    ensures
        r.deep_view() == kinds_by_name().filter_map(kind_count(events.deep_view())),
{
    let kinds = [
        EventKind::AppFocus,
        EventKind::ConnectionClosed,
        EventKind::ConnectionCompleted,
        EventKind::ConnectionOpened,
        EventKind::DnsQuery,
        EventKind::FileChanged,
        EventKind::ProcessBirth,
        EventKind::ProcessDeath,
    ];
    let ghost all = kinds_by_name();
    assert(kinds@ =~= all);
    let ghost g = kind_count(events.deep_view());
    let mut out: Vec<(String, u32)> = Vec::new();
    let mut i: usize = 0;
    proof {
        filter_map_start(all, g);
        assert(out.deep_view() =~= Seq::<(Seq<char>, u32)>::empty());
    }
    while i < 8
        invariant
            all == kinds_by_name(),
            kinds@ == all,
            g == kind_count(events.deep_view()),
            i <= 8,
            out.deep_view() == all.take(i as int).filter_map(g),
        decreases 8 - i,
    {
        proof {
            filter_map_step(all, g, i as int);
        }
        let n: u64 = count_kind(events, kinds[i]);
        if n > 0 {
            push_item(&mut out, (kinds[i].name().to_string(), low_32(n)));
        }
        i = i + 1;
    }
    proof {
        take_all(all);
    }
    out
}

/// A change of the application in front.
pub struct FocusMark {
    pub at: u64,
    pub name: String,
    pub bundle: Option<String>,
}

/// What a `FocusMark` holds.
pub struct FocusMarkView {
    pub at: u64,
    pub name: Seq<char>,
    pub bundle: Option<Seq<char>>,
}

impl DeepView for FocusMark {
    type V = FocusMarkView;

    open spec fn deep_view(&self) -> FocusMarkView {
        FocusMarkView { at: self.at, name: self.name@, bundle: self.bundle.deep_view() }
    }
}

/// The change of application that an event is.
pub open spec fn focused() -> spec_fn(EventView) -> Option<FocusMarkView> {
    |e: EventView|
        if e.kind == EventKind::AppFocus {
            Some(
                FocusMarkView {
                    at: e.timestamp.mono_ns,
                    name: match e.payload.str_at("to_name"@) {
                        Some(n) => n,
                        None => "(unknown)"@,
                    },
                    bundle: e.payload.str_at("to_bundle_id"@),
                },
            )
        } else {
            None
        }
}

/// Changes are ordered by their time.
pub open spec fn by_time() -> spec_fn(FocusMarkView) -> int {
    |m: FocusMarkView| m.at as int
}

/// The span from one time to a later one, in whole seconds.
pub open spec fn secs_between(from: u64, to: u64) -> u64 {
    if to > from {
        ((to - from) / SECOND_NS as int) as u64
    } else {
        0
    }
}

/// Each application was in front until the next change, and the last until the
/// end of the window.
pub open spec fn segments(marks: Seq<FocusMarkView>, end: u64) -> Seq<FocusSegmentView> {
    Seq::new(
        marks.len(),
        |i: int|
            FocusSegmentView {
                app_name: marks[i].name,
                bundle_id: marks[i].bundle,
                started_secs: marks[i].at / SECOND_NS,
                duration_secs: secs_between(
                    marks[i].at,
                    if i + 1 < marks.len() {
                        marks[i + 1].at
                    } else {
                        end
                    },
                ),
            },
    )
}

fn mark_of(e: &Event) -> (r: Option<FocusMark>)
    ensures
        r.deep_view() == focused()(e.deep_view()),
{
    if e.kind != EventKind::AppFocus {
        return None;
    }
    let name: String = match e.payload.string_at("to_name") {
        Some(n) => n,
        None => "(unknown)".to_string(),
    };
    Some(FocusMark { at: e.timestamp.mono_ns, name, bundle: e.payload.string_at("to_bundle_id") })
}

/// The applications in front, one after the other. Each change ends the span
/// before it, and the end of the window ends the last.
pub fn build_focus_segments(events: &[Event], capture_end_ns: u64) -> (r: Vec<FocusSegment>)
    ensures
        r.deep_view() == segments(
            sort_by_key(events.deep_view().filter_map(focused()), by_time()),
            capture_end_ns,
        ),
{
    let found: Vec<FocusMark> = collect(events, mark_of, Ghost(focused()));
    let ghost all = found.deep_view();
    let mut marks: Vec<FocusMark> = Vec::new();
    let mut keys: Vec<i128> = Vec::new();
    let mut i: usize = 0;
    assert(marks.deep_view() =~= sort_by_key(all.take(0), by_time()));
    while i < found.len()
        invariant
            all == found.deep_view(),
            i <= found@.len(),
            marks.deep_view() == sort_by_key(all.take(i as int), by_time()),
            keyed(marks.deep_view(), by_time(), keys@),
        decreases found@.len() - i,
    {
        assert(all[i as int] == found@[i as int].deep_view());
        assert(all.take(i + 1).drop_last() =~= all.take(i as int));
        let m: &FocusMark = &found[i];
        let k: i128 = m.at as i128;
        let row = FocusMark { at: m.at, name: m.name.clone(), bundle: copy_opt(&m.bundle) };
        insert_row(&mut marks, &mut keys, row, k, Ghost(by_time()));
        i = i + 1;
    }
    proof {
        take_all(all);
    }
    let ghost order = marks.deep_view();
    let ghost want = segments(order, capture_end_ns);
    let mut out: Vec<FocusSegment> = Vec::new();
    let mut j: usize = 0;
    assert(out.deep_view() =~= want.take(0));
    while j < marks.len()
        invariant
            order == marks.deep_view(),
            want == segments(order, capture_end_ns),
            j <= marks@.len(),
            out.deep_view() == want.take(j as int),
        decreases marks@.len() - j,
    {
        assert(order[j as int] == marks@[j as int].deep_view());
        let m: &FocusMark = &marks[j];
        let end: u64 = if j < marks.len() - 1 {
            assert(order[j + 1] == marks@[j + 1].deep_view());
            marks[j + 1].at
        } else {
            capture_end_ns
        };
        push_item(
            &mut out,
            FocusSegment {
                app_name: m.name.clone(),
                bundle_id: copy_opt(&m.bundle),
                started_secs: m.at / SECOND_NS,
                duration_secs: end.saturating_sub(m.at) / SECOND_NS,
            },
        );
        assert(want.take(j + 1) =~= want.take(j as int).push(want[j as int]));
        j = j + 1;
    }
    assert(want.take(want.len() as int) =~= want);
    out
}

/// The summary of nothing.
pub open spec fn no_summary() -> CaptureSummaryView {
    CaptureSummaryView {
        duration_secs: 0,
        events_total: 0,
        focus_segments: Seq::empty(),
        top_processes: Seq::empty(),
        top_endpoints: Seq::empty(),
        top_directories: Seq::empty(),
        top_dns_clients: Seq::empty(),
        kind_counts: Seq::empty(),
        novelty: None,
        suspicions: Seq::empty(),
    }
}

/// When the events happened.
pub open spec fn event_times(events: Seq<EventView>) -> Seq<u64> {
    events.map_values(|e: EventView| e.timestamp.mono_ns)
}

/// The summary of a window of events.
pub open spec fn capture_summary(events: Seq<EventView>) -> CaptureSummaryView {
    if events.len() == 0 {
        no_summary()
    } else {
        CaptureSummaryView {
            duration_secs: spread(event_times(events)),
            events_total: events.len() as usize,
            focus_segments: segments(
                sort_by_key(events.filter_map(focused()), by_time()),
                greatest(event_times(events)),
            ),
            top_processes: busiest(events.filter_map(spawned())),
            top_endpoints: leading_endpoints(endpoints_of(events)),
            top_directories: liveliest(events.filter_map(changed())),
            top_dns_clients: leading_clients(events.filter_map(looked_up())),
            kind_counts: kinds_by_name().filter_map(kind_count(events)),
            novelty: None,
            suspicions: flags_of(events),
        }
    }
}

fn empty_summary() -> (r: CaptureSummary)
    ensures
        r.deep_view() == no_summary(),
{
    let r = CaptureSummary {
        duration_secs: 0,
        events_total: 0,
        focus_segments: Vec::new(),
        top_processes: Vec::new(),
        top_endpoints: Vec::new(),
        top_directories: Vec::new(),
        top_dns_clients: Vec::new(),
        kind_counts: Vec::new(),
        novelty: None,
        suspicions: Vec::new(),
    };
    assert(r.focus_segments.deep_view() =~= Seq::empty());
    assert(r.top_processes.deep_view() =~= Seq::empty());
    assert(r.top_endpoints.deep_view() =~= Seq::empty());
    assert(r.top_directories.deep_view() =~= Seq::empty());
    assert(r.top_dns_clients.deep_view() =~= Seq::empty());
    assert(r.kind_counts.deep_view() =~= Seq::empty());
    assert(r.suspicions.deep_view() =~= Seq::empty());
    r
}

fn time_of(e: &Event) -> (r: u64)
    ensures
        r.deep_view() == (|e: EventView| e.timestamp.mono_ns)(e.deep_view()),
{
    e.timestamp.mono_ns
}

/// The summary of a window of events.
pub fn summarize_capture(events: &[Event]) -> (r: CaptureSummary)
    ensures
        r.deep_view() == capture_summary(events.deep_view()),
{
    if events.len() == 0 {
        return empty_summary();
    }
    let times: Vec<u64> = convert(events, time_of, Ghost(|e: EventView| e.timestamp.mono_ns));
    assert(times@ =~= times.deep_view());
    let (end, secs): (u64, u64) = spread_of(&times);
    CaptureSummary {
        duration_secs: secs,
        events_total: events.len(),
        focus_segments: build_focus_segments(events, end),
        top_processes: top_processes(events),
        top_endpoints: top_endpoints(events),
        top_directories: top_directories(events),
        top_dns_clients: top_dns_clients(events),
        kind_counts: kind_counts(events),
        novelty: None,
        suspicions: event_suspicions(events),
    }
}

/// A time, unless it was never set.
pub open spec fn nonzero() -> spec_fn(u64) -> Option<u64> {
    |t: u64|
        if t == 0 {
            None
        } else {
            Some(t)
        }
}

/// Two times, of which the second may be missing.
pub open spec fn one_or_two(a: Timestamp, b: Option<Timestamp>) -> Seq<u64> {
    match b {
        Some(t) => seq![a.mono_ns, t.mono_ns],
        None => seq![a.mono_ns],
    }
}

/// The times of a process.
pub open spec fn process_times() -> spec_fn(ProcessNodeView) -> Seq<u64> {
    |p: ProcessNodeView| one_or_two(p.birth, p.death)
}

/// The times of an interval.
pub open spec fn interval_times() -> spec_fn(Interval) -> Seq<u64> {
    |iv: Interval| one_or_two(iv.from, iv.to)
}

/// The times of an application.
pub open spec fn app_times() -> spec_fn(AppNodeView) -> Seq<u64> {
    |a: AppNodeView| chain(a.intervals, interval_times())
}

/// The times of a connection.
pub open spec fn socket_times() -> spec_fn(SocketNodeView) -> Seq<u64> {
    |s: SocketNodeView| one_or_two(s.opened, s.closed)
}

/// The times of a file.
pub open spec fn file_times() -> spec_fn(FileNodeView) -> Seq<u64> {
    |f: FileNodeView| seq![f.first_seen.mono_ns, f.last_seen.mono_ns]
}

/// The times of a graph that were set.
pub open spec fn graph_times(g: GraphView) -> Seq<u64> {
    (chain(g.processes, process_times()) + chain(g.apps, app_times()) + chain(
        g.sockets,
        socket_times(),
    ) + chain(g.files, file_times())).filter_map(nonzero())
}

fn pair_of_times(a: Timestamp, b: Option<Timestamp>) -> (r: Vec<u64>)
    ensures
        r.deep_view() == one_or_two(a, b),
{
    let mut out: Vec<u64> = Vec::new();
    out.push(a.mono_ns);
    match b {
        Some(t) => {
            out.push(t.mono_ns);
        },
        None => {},
    }
    assert(out.deep_view() =~= one_or_two(a, b));
    out
}

fn times_of_process(p: &ProcessNode) -> (r: Vec<u64>)
    ensures
        r.deep_view() == process_times()(p.deep_view()),
{
    pair_of_times(p.birth, p.death)
}

fn times_of_interval(iv: &Interval) -> (r: Vec<u64>)
    ensures
        r.deep_view() == interval_times()(iv.deep_view()),
{
    pair_of_times(iv.from, iv.to)
}

fn times_of_app(a: &AppNode) -> (r: Vec<u64>)
    ensures
        r.deep_view() == app_times()(a.deep_view()),
{
    assert(a.intervals.deep_view() =~= a.intervals@);
    gather(whole(&a.intervals), times_of_interval, Ghost(interval_times()))
}

fn times_of_socket(s: &SocketNode) -> (r: Vec<u64>)
    ensures
        r.deep_view() == socket_times()(s.deep_view()),
{
    pair_of_times(s.opened, s.closed)
}

fn times_of_file(f: &FileNode) -> (r: Vec<u64>)
    ensures
        r.deep_view() == file_times()(f.deep_view()),
{
    let mut out: Vec<u64> = Vec::new();
    out.push(f.first_seen.mono_ns);
    out.push(f.last_seen.mono_ns);
    assert(out.deep_view() =~= file_times()(f.deep_view()));
    out
}

fn nonzero_time(t: &u64) -> (r: Option<u64>)
    ensures
        r.deep_view() == nonzero()(t.deep_view()),
{
    if *t == 0 {
        None
    } else {
        Some(*t)
    }
}

fn times_of_graph(g: &Graph) -> (r: Vec<u64>)
    ensures
        r@ == graph_times(g.deep_view()),
{
    let mut all: Vec<u64> = gather(whole(&g.processes), times_of_process, Ghost(process_times()));
    let mut more: Vec<u64> = gather(whole(&g.apps), times_of_app, Ghost(app_times()));
    let mut sockets: Vec<u64> = gather(whole(&g.sockets), times_of_socket, Ghost(socket_times()));
    let mut files: Vec<u64> = gather(whole(&g.files), times_of_file, Ghost(file_times()));
    let ghost want = all.deep_view() + more.deep_view() + sockets.deep_view() + files.deep_view();
    all.append(&mut more);
    all.append(&mut sockets);
    all.append(&mut files);
    assert(all.deep_view() =~= want);
    let out: Vec<u64> = collect(whole(&all), nonzero_time, Ghost(nonzero()));
    assert(out@ =~= out.deep_view());
    out
}

/// The span of an application in an interval.
pub open spec fn interval_segment(a: AppNodeView) -> spec_fn(Interval) -> FocusSegmentView {
    |iv: Interval|
        FocusSegmentView {
            app_name: match a.name {
                Some(n) => n,
                None => a.id,
            },
            bundle_id: Some(a.id),
            started_secs: iv.from.mono_ns / SECOND_NS,
            duration_secs: match iv.to {
                Some(t) => secs_between(iv.from.mono_ns, t.mono_ns),
                None => 0,
            },
        }
}

/// The spans of an application.
pub open spec fn app_segments() -> spec_fn(AppNodeView) -> Seq<FocusSegmentView> {
    |a: AppNodeView| a.intervals.map_values(interval_segment(a))
}

/// Spans are ordered by their start.
pub open spec fn by_start() -> spec_fn(FocusSegmentView) -> int {
    |s: FocusSegmentView| s.started_secs as int
}

fn segments_of_app(a: &AppNode) -> (r: Vec<FocusSegment>)
    ensures
        r.deep_view() == app_segments()(a.deep_view()),
{
    let ghost want = app_segments()(a.deep_view());
    let mut out: Vec<FocusSegment> = Vec::new();
    let mut i: usize = 0;
    assert(out.deep_view() =~= want.take(0));
    while i < a.intervals.len()
        invariant
            want == app_segments()(a.deep_view()),
            i <= a.intervals@.len(),
            out.deep_view() == want.take(i as int),
        decreases a.intervals@.len() - i,
    {
        let iv: Interval = a.intervals[i];
        let name: String = match &a.name {
            Some(n) => n.clone(),
            None => a.id.clone(),
        };
        let secs: u64 = match iv.to {
            Some(t) => t.mono_ns.saturating_sub(iv.from.mono_ns) / SECOND_NS,
            None => 0,
        };
        push_item(
            &mut out,
            FocusSegment {
                app_name: name,
                bundle_id: Some(a.id.clone()),
                started_secs: iv.from.mono_ns / SECOND_NS,
                duration_secs: secs,
            },
        );
        assert(want.take(i + 1) =~= want.take(i as int).push(want[i as int]));
        i = i + 1;
    }
    assert(want.take(want.len() as int) =~= want);
    out
}

/// The spans in which applications were in front, by their start.
pub fn focus_segments_from_apps(apps: &[AppNode]) -> (r: Vec<FocusSegment>)
    ensures
        r.deep_view() == sort_by_key(chain(apps.deep_view(), app_segments()), by_start()),
{
    let found: Vec<FocusSegment> = gather(apps, segments_of_app, Ghost(app_segments()));
    let ghost all = found.deep_view();
    let mut out: Vec<FocusSegment> = Vec::new();
    let mut keys: Vec<i128> = Vec::new();
    let mut i: usize = 0;
    assert(out.deep_view() =~= sort_by_key(all.take(0), by_start()));
    while i < found.len()
        invariant
            all == found.deep_view(),
            i <= found@.len(),
            out.deep_view() == sort_by_key(all.take(i as int), by_start()),
            keyed(out.deep_view(), by_start(), keys@),
        decreases found@.len() - i,
    {
        assert(all[i as int] == found@[i as int].deep_view());
        assert(all.take(i + 1).drop_last() =~= all.take(i as int));
        let k: i128 = found[i].started_secs as i128;
        insert_row(&mut out, &mut keys, found[i].clone(), k, Ghost(by_start()));
        i = i + 1;
    }
    proof {
        take_all(all);
    }
    out
}

/// A process worth naming.
pub open spec fn ran() -> spec_fn(ProcessNodeView) -> Option<(Seq<char>, u64)> {
    |p: ProcessNodeView|
        match p.comm {
            Some(c) => if is_noisy(c) {
                None
            } else {
                Some((c, 1u64))
            },
            None => None,
        }
}

fn run_of(p: &ProcessNode) -> (r: Option<(String, u64)>)
    ensures
        r.deep_view() == ran()(p.deep_view()),
{
    match &p.comm {
        Some(c) => if noisy_comm(c.as_str()) {
            None
        } else {
            Some((c.clone(), 1))
        },
        None => None,
    }
}

/// The programs with the most processes.
pub fn top_processes_from_graph(processes: &[ProcessNode]) -> (r: Vec<ProcessFact>)
    ensures
        r.deep_view() == busiest(processes.deep_view().filter_map(ran())),
{
    busiest_of(&collect(processes, run_of, Ghost(ran())))
}

/// The sum of two numbers, or the largest number where it is larger.
pub open spec fn saturated(a: u64, b: u64) -> u64 {
    if a + b > u64::MAX {
        u64::MAX
    } else {
        (a + b) as u64
    }
}

/// The remote end and the program of a connection, with its bytes.
pub open spec fn socket_bytes() -> spec_fn(SocketNodeView) -> ((Seq<char>, Seq<char>), u64) {
    |s: SocketNodeView|
        (
            (s.id.foreign_addr, or_unknown(s.process_name)),
            saturated(or_zero(s.rxbytes_last), or_zero(s.txbytes_last)),
        )
}

fn bytes_of_socket(s: &SocketNode) -> (r: ((String, String), u64))
    ensures
        r.deep_view() == socket_bytes()(s.deep_view()),
{
    let who: String = match &s.process_name {
        Some(p) => p.clone(),
        None => "?".to_string(),
    };
    let bytes: u64 = number_or_zero(s.rxbytes_last).saturating_add(number_or_zero(s.txbytes_last));
    ((s.id.foreign_addr.clone(), who), bytes)
}

/// The remote ends with the most bytes.
pub fn top_endpoints_from_graph(sockets: &[SocketNode]) -> (r: Vec<EndpointFact>)
    ensures
        r.deep_view() == first_n(
            sort_by_key(
                totals(sockets.deep_view().map_values(socket_bytes())).map_values(
                    endpoint_fact(false),
                ),
                most_bytes(),
            ),
            TOP_N_ENDPOINTS as int,
        ),
{
    let entries: Vec<((String, String), u64)> = convert(
        sockets,
        bytes_of_socket,
        Ghost(socket_bytes()),
    );
    let ghost all = totals(entries.deep_view()).map_values(endpoint_fact(false));
    let mut out: Vec<EndpointFact> = Vec::new();
    let mut keys: Vec<i128> = Vec::new();
    assert(out.deep_view() =~= Seq::<EndpointFactView>::empty());
    place_endpoints(&mut out, &mut keys, &tally_pairs(&entries), false, Ghost(Seq::empty()));
    assert(Seq::<EndpointFactView>::empty() + all =~= all);
    let ghost order = out.deep_view();
    if out.len() > TOP_N_ENDPOINTS {
        out.truncate(TOP_N_ENDPOINTS);
        assert(out.deep_view() =~= order.take(TOP_N_ENDPOINTS as int));
    }
    out
}

/// The touches of a file, counted for its directory.
pub open spec fn touches() -> spec_fn(FileNodeView) -> (Seq<char>, u64) {
    |f: FileNodeView|
        (
            crate::timeline::bucket(f.path),
            if f.touch_count > u32::MAX {
                u32::MAX as u64
            } else {
                f.touch_count
            },
        )
}

fn touches_of(f: &FileNode) -> (r: (String, u64))
    ensures
        r.deep_view() == touches()(f.deep_view()),
{
    let n: u64 = if f.touch_count > 4_294_967_295 {
        4_294_967_295
    } else {
        f.touch_count
    };
    (directory_bucket(f.path.as_str()), n)
}

/// The directories with the most touches.
pub fn top_directories_from_graph(files: &[FileNode]) -> (r: Vec<DirectoryFact>)
    ensures
        r.deep_view() == liveliest(files.deep_view().map_values(touches())),
{
    liveliest_of(&convert(files, touches_of, Ghost(touches())))
}

/// How many nodes of the kinds that are summed up there are.
pub open spec fn things(g: GraphView) -> nat {
    g.processes.len() + g.apps.len() + g.sockets.len() + g.files.len()
}

/// How many nodes a graph has of each kind.
pub open spec fn node_counts(g: GraphView) -> Seq<(Seq<char>, u32)> {
    seq![
        ("processes"@, wrapped32(g.processes.len() as int)),
        ("apps"@, wrapped32(g.apps.len() as int)),
        ("sockets"@, wrapped32(g.sockets.len() as int)),
        ("files"@, wrapped32(g.files.len() as int)),
        ("domains"@, wrapped32(g.domains.len() as int)),
    ]
}

/// The summary of a graph.
pub open spec fn graph_summary(g: GraphView) -> CaptureSummaryView {
    if things(g) == 0 {
        no_summary()
    } else {
        CaptureSummaryView {
            duration_secs: spread(graph_times(g)),
            events_total: if things(g) > usize::MAX {
                usize::MAX
            } else {
                things(g) as usize
            },
            focus_segments: sort_by_key(chain(g.apps, app_segments()), by_start()),
            top_processes: busiest(g.processes.filter_map(ran())),
            top_endpoints: first_n(
                sort_by_key(
                    totals(g.sockets.map_values(socket_bytes())).map_values(endpoint_fact(false)),
                    most_bytes(),
                ),
                TOP_N_ENDPOINTS as int,
            ),
            top_directories: liveliest(g.files.map_values(touches())),
            top_dns_clients: Seq::empty(),
            kind_counts: node_counts(g),
            novelty: None,
            suspicions: Seq::empty(),
        }
    }
}

/// The summary of a graph, in place of the events that it came from. Lookups
/// are not told apart by client in a graph, so none are summed up.
pub fn summarize_graph(g: &Graph) -> (r: CaptureSummary)
    ensures
        r.deep_view() == graph_summary(g.deep_view()),
{
    let total: usize = g.processes.len().saturating_add(g.apps.len()).saturating_add(
        g.sockets.len(),
    ).saturating_add(g.files.len());
    if total == 0 {
        return empty_summary();
    }
    let (_, secs): (u64, u64) = spread_of(&times_of_graph(g));
    let mut counts: Vec<(String, u32)> = Vec::new();
    push_item(&mut counts, ("processes".to_string(), low_32(g.processes.len() as u64)));
    push_item(&mut counts, ("apps".to_string(), low_32(g.apps.len() as u64)));
    push_item(&mut counts, ("sockets".to_string(), low_32(g.sockets.len() as u64)));
    push_item(&mut counts, ("files".to_string(), low_32(g.files.len() as u64)));
    push_item(&mut counts, ("domains".to_string(), low_32(g.domains.len() as u64)));
    assert(counts.deep_view() =~= node_counts(g.deep_view()));
    let clients: Vec<DnsClientFact> = Vec::new();
    let flags: Vec<String> = Vec::new();
    assert(clients.deep_view() =~= Seq::empty());
    assert(flags.deep_view() =~= Seq::empty());
    CaptureSummary {
        duration_secs: secs,
        events_total: total,
        focus_segments: focus_segments_from_apps(whole(&g.apps)),
        top_processes: top_processes_from_graph(whole(&g.processes)),
        top_endpoints: top_endpoints_from_graph(whole(&g.sockets)),
        top_directories: top_directories_from_graph(whole(&g.files)),
        top_dns_clients: clients,
        kind_counts: counts,
        novelty: None,
        suspicions: flags,
    }
}

/// However many events a window has, the lists of its summary are bounded, but
/// for the applications in front, which are as many as there were changes.
pub proof fn summary_is_bounded(events: Seq<EventView>)
    ensures
        ({
            let s = capture_summary(events);
            &&& s.top_processes.len() <= 8
            &&& s.top_endpoints.len() <= 10
            &&& s.top_directories.len() <= 6
            &&& s.top_dns_clients.len() <= 6
            &&& s.kind_counts.len() <= 8
            &&& s.suspicions.len() <= 8
            &&& s.focus_segments.len() == events.filter_map(focused()).len() || events.len() == 0
        }),
{
    filter_map_is_no_longer(kinds_by_name(), kind_count(events));
    sort_by_key_sorts(events.filter_map(focused()), by_time());
}

/// While the history is too short, nothing is called new.
pub proof fn cold_baseline_claims_nothing(r: NoveltyReport)
    ensures
        novelty_of(r, true).baseline_cold,
        !novelty_of(r, true).has_novelty(),
{
}

} // verus!
