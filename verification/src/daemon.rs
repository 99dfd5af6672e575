//! What the daemon decides between the work that it has done outside.
//!
//! Observations and the events they brought come in; a tick merges what was
//! built into the store, appends the events, prunes what is too old, and says
//! what there is to narrate.

use vstd::prelude::*;
use vstd::string::*;

use crate::capture::{
    new_app_text, new_endpoint_text, new_process_text, CaptureSummary, CaptureSummaryView,
    NoveltySummary, NoveltySummaryView,
};
use crate::events::{Event, EventView};
use crate::graph::Graph;
use crate::graph_builder::{BuilderView, GraphBuilder};
use crate::ndjson::{source_name, source_text};
use crate::observation::{Observation, ObservationView, Source, Timestamp};
use crate::order::{first_n, insert_row, keyed, sort_by_key, sort_by_key_sorts};
use crate::process_anomaly::{
    as_slices, default_trusted_path_prefixes, store_flags, suspicion_flags_from_store, trusted_paths,
    DEFAULT_PROLIFIC_PARENT_THRESHOLD,
};
use crate::seqs::{convert, filter_map_start, filter_map_step, push_item, take_all, whole};
use crate::store::{MergeReport, Store, StoreView};
use crate::store_admin::{earliest, pruned, upsert_meta, PruneReport};
use crate::store_history::{new_apps, new_domains, new_endpoints, new_programs};
use crate::store_lineage::append_texts;
use crate::store_load::event_row;
use crate::store_merge::{merge_report, merged};
use crate::text::{decimal, flat, i64_text, join_texts, joined, signed_decimal, str_eq, Parts};

verus! {

/// The history must reach this far back before the window for anything to be
/// called new.
pub const NOVELTY_MIN_BASELINE_NS: i64 = 1_800_000_000_000;

/// How many suspicions are told.
pub const MAX_SUSPICIONS: usize = 8;

/// How often the store is pruned and the baseline rebuilt at most.
pub const MAINTENANCE_NS: u64 = 3_600_000_000_000;

/// Transport counters of the stage that drains the bus.
#[derive(Debug, Clone, Copy, PartialEq, Eq, Structural)]
pub struct DrainStats {
    pub forwarded: u64,
    pub dropped: u64,
}

impl Default for DrainStats {
    fn default() -> (r: Self)
        ensures
            r == (DrainStats { forwarded: 0, dropped: 0 }),
    {
        DrainStats { forwarded: 0, dropped: 0 }
    }
}

impl DrainStats {
    /// Counts an observation that the next stage took or had no room for.
    pub fn record(&mut self, taken: bool)
        ensures
            final(self).forwarded == if taken {
                ((old(self).forwarded + 1) % 0x1_0000_0000_0000_0000) as u64
            } else {
                old(self).forwarded
            },
            final(self).dropped == if taken {
                old(self).dropped
            } else {
                ((old(self).dropped + 1) % 0x1_0000_0000_0000_0000) as u64
            },
    {
        if taken {
            self.forwarded = self.forwarded.wrapping_add(1);
        } else {
            self.dropped = self.dropped.wrapping_add(1);
        }
    }

    /// How many observations were dropped.
    pub fn dropped_total(&self) -> (r: u64)
        ensures
            r == self.dropped,
    {
        self.dropped
    }
}

// ---------- the window --------------------------------------------------------------

/// Events without those at the front that are older than a time.
pub open spec fn without_older(w: Seq<EventView>, cutoff: int) -> Seq<EventView>
    decreases w.len(),
{
    if w.len() > 0 && w[0].timestamp.mono_ns < cutoff {
        without_older(w.skip(1), cutoff)
    } else {
        w
    }
}

/// Events without those at the front that are older than a span before the
/// newest.
pub open spec fn evicted(w: Seq<EventView>, window_ns: u64) -> Seq<EventView> {
    if w.len() == 0 {
        w
    } else {
        without_older(w, w.last().timestamp.mono_ns - window_ns)
    }
}

/// What is left is the end of what there was, and does not begin with an event
/// that is too old.
proof fn without_older_is_end(w: Seq<EventView>, cutoff: int)
    ensures
        ({
            let r = without_older(w, cutoff);
            &&& r.len() <= w.len()
            &&& r == w.skip(w.len() - r.len())
            &&& r.len() > 0 ==> r[0].timestamp.mono_ns >= cutoff
            &&& forall|i: int|
                0 <= i < w.len() - r.len() ==> (#[trigger] w[i]).timestamp.mono_ns < cutoff
        }),
    decreases w.len(),
{
    if w.len() > 0 && w[0].timestamp.mono_ns < cutoff {
        let t = w.skip(1);
        without_older_is_end(t, cutoff);
        let r = without_older(w, cutoff);
        assert(r =~= w.skip(w.len() - r.len()));
        assert forall|i: int| 0 <= i < w.len() - r.len() implies (
        #[trigger] w[i]).timestamp.mono_ns < cutoff by {
            if i > 0 {
                assert(t[i - 1] == w[i]);
            }
        }
    } else {
        assert(w.skip(0) =~= w);
    }
}

/// A window keeps its newest event, keeps the order, loses only events older
/// than its span, and does not begin with one.
pub proof fn window_keeps_what_is_recent(w: Seq<EventView>, window_ns: u64)
    requires
        w.len() > 0,
    ensures
        ({
            let r = evicted(w, window_ns);
            let cutoff = w.last().timestamp.mono_ns - window_ns;
            &&& 0 < r.len() <= w.len()
            &&& r.last() == w.last()
            &&& r == w.skip(w.len() - r.len())
            &&& r[0].timestamp.mono_ns >= cutoff
            &&& forall|i: int|
                0 <= i < w.len() - r.len() ==> (#[trigger] w[i]).timestamp.mono_ns < cutoff
        }),
{
    let cutoff = w.last().timestamp.mono_ns - window_ns;
    without_older_is_end(w, cutoff);
    let r = evicted(w, window_ns);
    if r.len() == 0 {
        assert(w[w.len() - 1].timestamp.mono_ns < cutoff);
    }
}

fn evict(window: &mut Vec<Event>, window_ns: u64)
    ensures
        final(window).deep_view() == evicted(old(window).deep_view(), window_ns),
{
    let ghost w = window.deep_view();
    let n: usize = window.len();
    if n == 0 {
        return;
    }
    let newest: u64 = window[n - 1].timestamp.mono_ns;
    let cutoff: u64 = newest.saturating_sub(window_ns);
    let ghost c = newest - window_ns;
    let mut k: usize = 0;
    assert(w.skip(0) =~= w);
    while k < n && window[k].timestamp.mono_ns < cutoff
        invariant
            w == window.deep_view(),
            n == w.len(),
            k <= n,
            c == newest - window_ns,
            cutoff == if c > 0 {
                c
            } else {
                0
            },
            without_older(w.skip(k as int), c) == without_older(w, c),
        decreases n - k,
    {
        assert(w.skip(k as int)[0] == w[k as int]);
        assert(w.skip(k as int).skip(1) =~= w.skip(k + 1));
        k = k + 1;
    }
    proof {
        if k < n {
            assert(w.skip(k as int)[0] == w[k as int]);
        }
    }
    let mut rest: Vec<Event> = window.split_off(k);
    core::mem::swap(window, &mut rest);
    assert(window.deep_view() =~= w.skip(k as int));
}

/// A builder that was fed events.
pub open spec fn fed(b: BuilderView, events: Seq<EventView>) -> BuilderView
    decreases events.len(),
{
    if events.len() == 0 {
        b
    } else {
        fed(b, events.drop_last()).after(events.last())
    }
}

/// A builder that was fed an observation and the events it brought.
pub open spec fn fed_both(b: BuilderView, o: ObservationView, events: Seq<EventView>) -> BuilderView {
    fed(BuilderView { last_ts: Some(o.timestamp), ..b }, events)
}

/// What the daemon remembers.
pub struct Daemon {
    window: Vec<Event>,
    pending: Vec<Event>,
    sources: [u64; 5],
    builder: Option<GraphBuilder>,
    last_prune: Option<u64>,
    baseline_at: Option<u64>,
}

/// What a `Daemon` remembers.
pub struct DaemonView {
    /// The events of the narrated window.
    pub window: Seq<EventView>,
    /// The events that the store does not have yet.
    pub pending: Seq<EventView>,
    /// How many observations each source brought since the last tick.
    pub sources: Seq<u64>,
    /// The graph under way, where there is a store for it.
    pub builder: Option<BuilderView>,
    /// When the store was last pruned, by the monotonic clock.
    pub last_prune: Option<u64>,
    /// When the baseline was last built, by the monotonic clock.
    pub baseline_at: Option<u64>,
}

impl View for Daemon {
    type V = DaemonView;

    closed spec fn view(&self) -> DaemonView {
        DaemonView {
            window: self.window.deep_view(),
            pending: self.pending.deep_view(),
            sources: self.sources@,
            builder: match self.builder {
                Some(b) => Some(b@),
                None => None,
            },
            last_prune: self.last_prune,
            baseline_at: self.baseline_at,
        }
    }
}

/// Whether an hour has passed since a time, or there was none.
pub open spec fn is_due(last: Option<u64>, now: u64) -> bool {
    match last {
        Some(t) => now - t >= MAINTENANCE_NS,
        None => true,
    }
}

fn due(last: Option<u64>, now: u64) -> (r: bool)
    ensures
        r == is_due(last, now),
{
    match last {
        Some(t) => now >= t && now - t >= MAINTENANCE_NS,
        None => true,
    }
}

/// What a tick did to the store.
#[derive(Debug)]
pub struct TickReport {
    pub merge: MergeReport,
    /// How many nodes the graph under way let go.
    pub trimmed: u128,
    /// How many events were appended, where there were any.
    pub appended: Option<u64>,
    /// What was pruned, where it was time to.
    pub pruned: Option<PruneReport>,
}

/// A store after a graph was merged and events were appended.
pub open spec fn stored(s: StoreView, g: crate::graph::GraphView, events: Seq<EventView>) -> StoreView {
    let m = merged(s, g);
    StoreView { events: m.events + events.map_values(|e: EventView| event_row(e)), ..m }
}

/// A store with the signs of life of the daemon.
pub open spec fn marked(s: StoreView, now_unix_ns: i64, bus_stats: Seq<char>) -> StoreView {
    StoreView {
        meta: upsert_meta(
            upsert_meta(s.meta, "daemon_heartbeat_unix_ns"@, signed_decimal(now_unix_ns as int)),
            "bus_drops_json"@,
            bus_stats,
        ),
        ..s
    }
}

/// The time before which the graph under way lets go: a span before the newest
/// event of the window.
pub open spec fn trim_cutoff(window: Seq<EventView>, ttl_ns: u64) -> Timestamp {
    let t = window.last().timestamp.mono_ns - ttl_ns;
    Timestamp {
        mono_ns: if t < 0 {
            0
        } else {
            t as u64
        },
        wall_anchor_ns: 0,
    }
}

/// The graph under way after a tick: without what was quiet for longer than a
/// span, as far as there is an event to measure from.
pub open spec fn after_tick(b: BuilderView, window: Seq<EventView>, ttl_ns: u64) -> BuilderView {
    if window.len() > 0 {
        b.trimmed(trim_cutoff(window, ttl_ns))
    } else {
        b
    }
}

/// The time before which a store forgets.
pub open spec fn retention_cutoff(now_unix_ns: i64, days: u64) -> i64 {
    let t = now_unix_ns - days * 86_400_000_000_000;
    if t < i64::MIN {
        i64::MIN
    } else {
        t as i64
    }
}

/// The time before which a store forgets.
pub fn cutoff_before(now_unix_ns: i64, days: u64) -> (r: i64)
    ensures
        r == retention_cutoff(now_unix_ns, days),
{
    let t: i128 = now_unix_ns as i128 - days as i128 * 86_400_000_000_000;
    if t < i64::MIN as i128 {
        i64::MIN
    } else {
        t as i64
    }
}

impl Daemon {
    /// A daemon that remembers nothing, with or without a store.
    pub fn new(storing: bool) -> (r: Self)
        ensures
            r@.window == Seq::<EventView>::empty(),
            r@.pending == Seq::<EventView>::empty(),
            r@.sources == seq![0u64, 0u64, 0u64, 0u64, 0u64],
            r@.builder is Some == storing,
            storing ==> r@.builder == Some(
                BuilderView {
                    processes: Seq::empty(),
                    apps: Seq::empty(),
                    sockets: Seq::empty(),
                    files: Seq::empty(),
                    current_frontmost: None,
                    last_ts: None,
                },
            ),
            r@.last_prune is None,
            r@.baseline_at is None,
    {
        let builder: Option<GraphBuilder> = if storing {
            Some(GraphBuilder::new())
        } else {
            None
        };
        let r = Daemon {
            window: Vec::new(),
            pending: Vec::new(),
            sources: [0, 0, 0, 0, 0],
            builder,
            last_prune: None,
            baseline_at: None,
        };
        assert(r.window.deep_view() =~= Seq::<EventView>::empty());
        assert(r.pending.deep_view() =~= Seq::<EventView>::empty());
        assert(r.sources@ =~= seq![0u64, 0u64, 0u64, 0u64, 0u64]);
        r
    }
}

/// A memory after an observation and the events that it brought. Without a
/// store nothing waits to be appended.
pub open spec fn received(
    d: DaemonView,
    o: ObservationView,
    events: Seq<EventView>,
    window_ns: u64,
) -> DaemonView {
    let i = o.source.position();
    DaemonView {
        window: evicted(d.window + events, window_ns),
        pending: if d.builder is Some {
            d.pending + events
        } else {
            d.pending
        },
        sources: d.sources.update(
            i,
            ((d.sources[i] + 1) % 0x1_0000_0000_0000_0000) as u64,
        ),
        builder: match d.builder {
            Some(b) => Some(fed_both(b, o, events)),
            None => None,
        },
        ..d
    }
}

/// The time from which on a window is narrated.
pub open spec fn window_start(now_unix_ns: i64, window_ns: u64) -> i64 {
    let t = now_unix_ns - window_ns;
    if t < i64::MIN {
        i64::MIN
    } else {
        t as i64
    }
}

/// The time from which on a window is narrated.
pub fn start_of_window(now_unix_ns: i64, window_ns: u64) -> (r: i64)
    ensures
        r == window_start(now_unix_ns, window_ns),
{
    let t: i128 = now_unix_ns as i128 - window_ns as i128;
    if t < i64::MIN as i128 {
        i64::MIN
    } else {
        t as i64
    }
}

impl Daemon {
    /// Takes in an observation and the events that it brought: they join the
    /// window, which loses what has become too old, and wait to be appended
    /// where there is a store.
    pub fn receive(&mut self, obs: &Observation, events: Vec<Event>, window_ns: u64)
        ensures
            final(self)@ == received(old(self)@, obs.deep_view(), events.deep_view(), window_ns),
    {
        let ghost start = self@;
        let ghost all = events.deep_view();
        let k: usize = obs.source.index();
        let n: u64 = self.sources[k].wrapping_add(1);
        self.sources[k] = n;
        assert(self.sources@ =~= start.sources.update(
            obs.source.position(),
            ((start.sources[obs.source.position()] + 1) % 0x1_0000_0000_0000_0000) as u64,
        ));
        let storing: bool = self.builder.is_some();
        let ghost sources = self.sources@;
        let ghost b0 = match start.builder {
            Some(b) => Some(BuilderView { last_ts: Some(obs.deep_view().timestamp), ..b }),
            None => None,
        };
        match &mut self.builder {
            Some(b) => {
                b.on_observation(obs);
            },
            None => {},
        }
        assert(self@.builder == b0);
        let mut i: usize = 0;
        assert(start.window + all.take(0) =~= start.window);
        assert(start.pending + all.take(0) =~= start.pending);
        while i < events.len()
            invariant
                all == events.deep_view(),
                i <= events@.len(),
                storing == (start.builder is Some),
                b0 is Some == storing,
                self.sources@ == sources,
                self.last_prune == start.last_prune,
                self.baseline_at == start.baseline_at,
                self.window.deep_view() == start.window + all.take(i as int),
                self.pending.deep_view() == if storing {
                    start.pending + all.take(i as int)
                } else {
                    start.pending
                },
                self@.builder == match b0 {
                    Some(b) => Some(fed(b, all.take(i as int))),
                    None => None,
                },
            decreases events@.len() - i,
        {
            let e: &Event = &events[i];
            assert(all[i as int] == e.deep_view());
            assert(all.take(i + 1).drop_last() =~= all.take(i as int));
            assert(start.window + all.take(i + 1) =~= (start.window + all.take(i as int)).push(
                all[i as int],
            ));
            assert(start.pending + all.take(i + 1) =~= (start.pending + all.take(i as int)).push(
                all[i as int],
            ));
            match &mut self.builder {
                Some(b) => {
                    b.on_event(e);
                },
                None => {},
            }
            if storing {
                push_item(&mut self.pending, e.clone());
            }
            push_item(&mut self.window, e.clone());
            i = i + 1;
        }
        proof {
            take_all(all);
        }
        evict(&mut self.window, window_ns);
    }

    /// Merges the graph into the store and lets go of what was quiet for long,
    /// appends the events that wait, leaves signs of life, and prunes once an
    /// hour where there is a limit. Nothing happens without a store.
    pub fn flush(
        &mut self,
        store: &mut Store,
        now_unix_ns: i64,
        now_ns: u64,
        bus_stats: &str,
        retention_days: u64,
        store_ttl_ns: u64,
    ) -> (r: Option<(TickReport, Graph)>)
        ensures
            r is Some == old(self)@.builder is Some,
            r is None ==> final(self)@ == old(self)@ && final(store)@ == old(store)@,
            r is Some ==> ({
                let g = old(self)@.builder->0.graph();
                let s = marked(stored(old(store)@, g, old(self)@.pending), now_unix_ns, bus_stats@);
                let prune = retention_days > 0 && is_due(old(self)@.last_prune, now_ns);
                let rest = after_tick(old(self)@.builder->0, old(self)@.window, store_ttl_ns);
                let report = (r->0).0;
                &&& (r->0).1.deep_view() == g
                &&& merge_report(old(store)@, g, report.merge)
                &&& report.trimmed == old(self)@.builder->0.size() - rest.size()
                &&& report.appended == if old(self)@.pending.len() > 0 {
                    Some(old(self)@.pending.len() as u64)
                } else {
                    None
                }
                &&& report.pruned is Some == prune
                &&& final(store)@ == if prune {
                    pruned(s, retention_cutoff(now_unix_ns, retention_days))
                } else {
                    s
                }
                &&& prune ==> report.pruned->0.nodes_deleted == s.nodes.len()
                    - final(store)@.nodes.len() && report.pruned->0.edges_deleted == s.edges.len()
                    - final(store)@.edges.len() && report.pruned->0.events_deleted == s.events.len()
                    - final(store)@.events.len()
                &&& final(self)@ == (DaemonView {
                    pending: Seq::empty(),
                    builder: Some(rest),
                    last_prune: if prune {
                        Some(now_ns)
                    } else {
                        old(self)@.last_prune
                    },
                    ..old(self)@
                })
            }),
    {
        let ghost start = self@;
        let ghost s0 = store@;
        let graph: Graph = match &self.builder {
            Some(b) => b.snapshot(),
            None => {
                return None;
            },
        };
        let ghost g = graph.deep_view();
        let merge: MergeReport = match store.merge_graph(&graph) {
            Ok(m) => m,
            Err(_) => {
                return None;
            },
        };
        let mut trimmed: u128 = 0;
        let n: usize = self.window.len();
        if n > 0 {
            let newest: u64 = self.window[n - 1].timestamp.mono_ns;
            let cutoff = Timestamp {
                mono_ns: newest.saturating_sub(store_ttl_ns),
                wall_anchor_ns: 0,
            };
            assert(cutoff == trim_cutoff(start.window, store_ttl_ns));
            match &mut self.builder {
                Some(b) => {
                    trimmed = b.trim_before(cutoff);
                },
                None => {},
            }
        }
        assert(self@.builder == Some(after_tick(start.builder->0, start.window, store_ttl_ns)));
        let appended: Option<u64> = append_pending(store, &self.pending);
        assert(store@ == stored(s0, g, start.pending));
        self.pending = Vec::new();
        assert(self.pending.deep_view() =~= Seq::<EventView>::empty());
        proof {
            reveal_strlit("daemon_heartbeat_unix_ns");
            reveal_strlit("bus_drops_json");
            reveal_strlit("schema_version");
            assert("schema_version"@.len() == 14 && "bus_drops_json"@.len() == 14);
            assert("schema_version"@[0] != "bus_drops_json"@[0]);
            assert("daemon_heartbeat_unix_ns"@.len() == 24);
        }
        let beat: String = i64_text(now_unix_ns);
        let _ = store.set_meta("daemon_heartbeat_unix_ns", beat.as_str());
        let _ = store.set_meta("bus_drops_json", bus_stats);
        let ghost s = store@;
        assert(s == marked(stored(s0, g, start.pending), now_unix_ns, bus_stats@));
        let mut pruned_rows: Option<PruneReport> = None;
        if retention_days > 0 && due(self.last_prune, now_ns) {
            self.last_prune = Some(now_ns);
            match store.prune_before(cutoff_before(now_unix_ns, retention_days)) {
                Ok(p) => {
                    pruned_rows = Some(p);
                },
                Err(_) => {},
            }
        }
        Some((TickReport { merge, trimmed, appended, pruned: pruned_rows }, graph))
    }

    /// How many observations each source brought since the last tick; the
    /// count begins anew.
    pub fn take_sources(&mut self) -> (r: Vec<u64>)
        ensures
            r@ == old(self)@.sources,
            final(self)@ == (DaemonView {
                sources: seq![0u64, 0u64, 0u64, 0u64, 0u64],
                ..old(self)@
            }),
    {
        let mut out: Vec<u64> = Vec::new();
        let mut i: usize = 0;
        while i < 5
            invariant
                i <= 5,
                out@ == self.sources@.take(i as int),
                *self == *old(self),
            decreases 5 - i,
        {
            out.push(self.sources[i]);
            assert(self.sources@.take(i + 1) =~= self.sources@.take(i as int).push(
                self.sources@[i as int],
            ));
            i = i + 1;
        }
        assert(out@ =~= self.sources@);
        self.sources = [0, 0, 0, 0, 0];
        assert(self.sources@ =~= seq![0u64, 0u64, 0u64, 0u64, 0u64]);
        out
    }

    /// Whether a tick is taken, for whether the last narration has finished, where
    /// one was begun: a tick during a narration is skipped, not queued.
    pub fn takes_tick(finished: Option<bool>) -> (r: bool)
        ensures
            r == (finished != Some(false)),
    {
        match finished {
            Some(done) => done,
            None => true,
        }
    }

    /// The events of the window, where there is anything to narrate.
    pub fn to_narrate(&self, narrate: bool) -> (r: Option<&Vec<Event>>)
        ensures
            r is Some == (narrate && self@.window.len() > 0),
            r is Some ==> r->0.deep_view() == self@.window,
    {
        if narrate && self.window.len() > 0 {
            Some(&self.window)
        } else {
            None
        }
    }

    /// Whether it is time to build the baseline anew.
    pub fn baseline_due(&self, now_ns: u64) -> (r: bool)
        ensures
            r == is_due(self@.baseline_at, now_ns),
    {
        due(self.baseline_at, now_ns)
    }

    /// Notes that the baseline was built.
    pub fn baseline_built(&mut self, now_ns: u64)
        ensures
            final(self)@ == (DaemonView { baseline_at: Some(now_ns), ..old(self)@ }),
    {
        self.baseline_at = Some(now_ns);
    }

    /// Merges and appends once more before the daemon stops, and takes its
    /// process id back, so that the store shows a clean stop. Nothing happens
    /// without a store.
    pub fn stop(&mut self, store: &mut Store) -> (r: Option<(MergeReport, Option<u64>)>)
        ensures
            r is Some == old(self)@.builder is Some,
            r is None ==> final(store)@ == old(store)@,
            r is Some ==> ({
                let g = old(self)@.builder->0.graph();
                let s = stored(old(store)@, g, old(self)@.pending);
                &&& merge_report(old(store)@, g, (r->0).0)
                &&& (r->0).1 == if old(self)@.pending.len() > 0 {
                    Some(old(self)@.pending.len() as u64)
                } else {
                    None
                }
                &&& final(store)@ == (StoreView {
                    meta: upsert_meta(s.meta, "daemon_pid"@, ""@),
                    ..s
                })
            }),
    {
        let ghost start = self@;
        let ghost s0 = store@;
        let graph: Graph = match &self.builder {
            Some(b) => b.snapshot(),
            None => {
                return None;
            },
        };
        let merge: MergeReport = match store.merge_graph(&graph) {
            Ok(m) => m,
            Err(_) => {
                return None;
            },
        };
        let appended: Option<u64> = append_pending(store, &self.pending);
        proof {
            reveal_strlit("daemon_pid");
            reveal_strlit("schema_version");
            assert("schema_version"@.len() == 14 && "daemon_pid"@.len() == 10);
        }
        let _ = store.set_meta("daemon_pid", "");
        Some((merge, appended))
    }
}

/// Appends events, where there are any.
fn append_pending(store: &mut Store, pending: &Vec<Event>) -> (r: Option<u64>)
    ensures
        final(store)@ == (StoreView {
            events: old(store)@.events + pending.deep_view().map_values(
                |e: EventView| event_row(e),
            ),
            ..old(store)@
        }),
        r == if pending@.len() > 0 {
            Some(pending@.len() as u64)
        } else {
            None
        },
{
    let ghost rows = pending.deep_view().map_values(|e: EventView| event_row(e));
    if pending.len() > 0 {
        let _ = store.append_events(pending.as_slice());
        assert(Seq::new(pending@.len(), |i: int| event_row(pending@[i].deep_view())) =~= rows);
        Some(pending.len() as u64)
    } else {
        assert(store@.events + rows =~= store@.events);
        None
    }
}

/// Leaves the process id of the daemon and a sign of life.
pub fn mark_start(store: &mut Store, pid: &str, now_unix_ns: i64)
    ensures
        final(store)@ == (StoreView {
            meta: upsert_meta(
                upsert_meta(old(store)@.meta, "daemon_pid"@, pid@),
                "daemon_heartbeat_unix_ns"@,
                signed_decimal(now_unix_ns as int),
            ),
            ..old(store)@
        }),
{
    proof {
        reveal_strlit("daemon_pid");
        reveal_strlit("daemon_heartbeat_unix_ns");
        reveal_strlit("schema_version");
        assert("schema_version"@.len() == 14 && "daemon_pid"@.len() == 10);
        assert("daemon_heartbeat_unix_ns"@.len() == 24);
    }
    let _ = store.set_meta("daemon_pid", pid);
    let beat: String = i64_text(now_unix_ns);
    let _ = store.set_meta("daemon_heartbeat_unix_ns", beat.as_str());
}

/// How many days of history a baseline looks back over.
pub fn lookback_days(retention_days: u64) -> (r: u32)
    ensures
        r == if retention_days == 0 || retention_days > 30 {
            30
        } else {
            retention_days
        },
{
    if retention_days == 0 || retention_days > 30 {
        30
    } else {
        retention_days as u32
    }
}

// ---------- what there is to tell ---------------------------------------------------

/// Whether the history hardly reaches back before a window.
pub open spec fn history_is_short(oldest: Option<i64>, from: i64) -> bool {
    match oldest {
        Some(t) => t > from - NOVELTY_MIN_BASELINE_NS,
        None => true,
    }
}

/// What of a window was never seen before in a store.
pub open spec fn store_novelty(s: StoreView, from: i64) -> NoveltySummaryView {
    if history_is_short(earliest(s.nodes), from) {
        NoveltySummaryView::nothing(true)
    } else {
        NoveltySummaryView {
            baseline_cold: false,
            new_processes: new_programs(s.nodes, from).map_values(new_process_text()),
            new_domains: new_domains(s.nodes, from),
            new_endpoints: new_endpoints(s.nodes, from).map_values(new_endpoint_text()),
            new_apps: new_apps(s.nodes, from).map_values(new_app_text()),
        }
    }
}

/// A summary with what a store knows of its window.
pub open spec fn enriched_summary(c: CaptureSummaryView, s: StoreView, from: i64) -> CaptureSummaryView {
    CaptureSummaryView {
        novelty: Some(store_novelty(s, from)),
        suspicions: c.suspicions + store_flags(
            s,
            from,
            trusted_paths(),
            DEFAULT_PROLIFIC_PARENT_THRESHOLD,
        ),
        ..c
    }
}

/// Adds to a summary what a store knows of its window: what was seen for the
/// first time ever, and the flags that the processes in it raise.
pub fn enrich_summary_from_store(summary: &mut CaptureSummary, store: &Store, from_unix_ns: i64)
    ensures
        final(summary).deep_view() == enriched_summary(
            old(summary).deep_view(),
            store@,
            from_unix_ns,
        ),
{
    let ghost start = summary.deep_view();
    match store.novel_since(from_unix_ns) {
        Ok(report) => {
            let cold: bool = match report.oldest_first_seen_unix_ns {
                Some(oldest) => oldest as i128 > from_unix_ns as i128
                    - NOVELTY_MIN_BASELINE_NS as i128,
                None => true,
            };
            summary.novelty = Some(NoveltySummary::from_report(&report, cold));
        },
        Err(_) => {},
    }
    let trusted: Vec<String> = default_trusted_path_prefixes();
    let slices: Vec<&str> = as_slices(&trusted);
    match suspicion_flags_from_store(
        store,
        from_unix_ns,
        whole(&slices),
        DEFAULT_PROLIFIC_PARENT_THRESHOLD,
    ) {
        Ok(flags) => {
            append_texts(&mut summary.suspicions, &flags);
        },
        Err(_) => {},
    }
}

/// A suspicion with its rank: the larger, the more unusual.
#[derive(Debug)]
pub struct ScoredSuspicion {
    pub text: String,
    pub rank: i64,
}

impl DeepView for ScoredSuspicion {
    type V = (Seq<char>, i64);

    open spec fn deep_view(&self) -> (Seq<char>, i64) {
        (self.text@, self.rank)
    }
}

/// The rank of the score one, which a flag without a score gets.
pub const NOMINAL_RANK: i64 = 4_607_182_418_800_017_408;

/// The rank of a score that is written in 64 bits, sign first, then exponent,
/// then fraction: ranks order as the numbers do, and those with a sign the
/// other way round.
pub open spec fn rank_of(bits: u64) -> i64 {
    if bits < 0x8000_0000_0000_0000 {
        bits as i64
    } else {
        (0x7fff_ffff_ffff_ffff - bits) as i64
    }
}

/// The rank of a score that is written in 64 bits.
pub fn rank_of_bits(bits: u64) -> (r: i64)
    ensures
        r == rank_of(bits),
{
    if bits < 0x8000_0000_0000_0000 {
        bits as i64
    } else {
        -1 - ((bits - 0x8000_0000_0000_0000) as i64)
    }
}

/// The 64 bits that a rank is of.
pub fn bits_of_rank(rank: i64) -> (r: u64)
    ensures
        rank_of(r) == rank,
{
    if rank >= 0 {
        rank as u64
    } else {
        0x8000_0000_0000_0000 + ((-1 - rank) as u64)
    }
}

/// Different scores have different ranks.
pub proof fn ranks_are_different(a: u64, b: u64)
    requires
        a != b,
    ensures
        rank_of(a) != rank_of(b),
{
}

/// Whether a list has a text.
pub open spec fn has_scored(s: Seq<(Seq<char>, i64)>, text: Seq<char>) -> bool {
    exists|i: int| 0 <= i < s.len() && (#[trigger] s[i]).0 == text
}

/// A list with those of more suspicions whose text it lacks.
pub open spec fn joined_scores(s: Seq<(Seq<char>, i64)>, more: Seq<(Seq<char>, i64)>) -> Seq<
    (Seq<char>, i64),
>
    decreases more.len(),
{
    if more.len() == 0 {
        s
    } else {
        let rest = joined_scores(s, more.drop_last());
        if has_scored(rest, more.last().0) {
            rest
        } else {
            rest.push(more.last())
        }
    }
}

/// A flag with the rank of a flag.
pub open spec fn nominal() -> spec_fn(Seq<char>) -> (Seq<char>, i64) {
    |t: Seq<char>| (t, NOMINAL_RANK)
}

/// Suspicions are ordered by rank, the largest first.
pub open spec fn highest_first() -> spec_fn((Seq<char>, i64)) -> int {
    |s: (Seq<char>, i64)| -(s.1 as int)
}

/// New suspicions, with earlier ones and flags that they do not repeat, the
/// most unusual first.
pub open spec fn merged_scores(
    new: Seq<(Seq<char>, i64)>,
    earlier: Seq<(Seq<char>, i64)>,
    flags: Seq<Seq<char>>,
) -> Seq<(Seq<char>, i64)> {
    first_n(
        sort_by_key(
            joined_scores(joined_scores(new, earlier), flags.map_values(nominal())),
            highest_first(),
        ),
        MAX_SUSPICIONS as int,
    )
}

fn knows_text(v: &Vec<ScoredSuspicion>, text: &str) -> (r: bool)
    ensures
        r == has_scored(v.deep_view(), text@),
{
    let ghost all = v.deep_view();
    let mut i: usize = 0;
    while i < v.len()
        invariant
            all == v.deep_view(),
            i <= v@.len(),
            forall|k: int| 0 <= k < i ==> (#[trigger] all[k]).0 != text@,
        decreases v@.len() - i,
    {
        assert(all[i as int] == v@[i as int].deep_view());
        if str_eq(v[i].text.as_str(), text) {
            return true;
        }
        i = i + 1;
    }
    false
}

fn join_scores(s: &mut Vec<ScoredSuspicion>, more: &Vec<ScoredSuspicion>)
    ensures
        final(s).deep_view() == joined_scores(old(s).deep_view(), more.deep_view()),
{
    let ghost start = s.deep_view();
    let ghost all = more.deep_view();
    let mut i: usize = 0;
    assert(all.take(0) =~= Seq::empty());
    while i < more.len()
        invariant
            all == more.deep_view(),
            i <= more@.len(),
            s.deep_view() == joined_scores(start, all.take(i as int)),
        decreases more@.len() - i,
    {
        assert(all[i as int] == more@[i as int].deep_view());
        assert(all.take(i + 1).drop_last() =~= all.take(i as int));
        if !knows_text(s, more[i].text.as_str()) {
            push_item(s, ScoredSuspicion { text: more[i].text.clone(), rank: more[i].rank });
        }
        i = i + 1;
    }
    proof {
        take_all(all);
    }
}

fn nominal_of(t: &String) -> (r: ScoredSuspicion)
    ensures
        r.deep_view() == nominal()(t.deep_view()),
{
    ScoredSuspicion { text: t.clone(), rank: NOMINAL_RANK }
}

fn text_of(s: &ScoredSuspicion) -> (r: String)
    ensures
        r.deep_view() == (|s: (Seq<char>, i64)| s.0)(s.deep_view()),
{
    s.text.clone()
}

/// Joins new suspicions with earlier ones and with flags: a text is told once,
/// with its newest rank, flags rank as flags, and the most unusual come first.
/// The flags of the summary become the texts of the result.
pub fn merge_scored_suspicions(
    summary: &mut CaptureSummary,
    earlier: &Vec<ScoredSuspicion>,
    new: Vec<ScoredSuspicion>,
) -> (r: Vec<ScoredSuspicion>)
    ensures
        r.deep_view() == merged_scores(
            new.deep_view(),
            earlier.deep_view(),
            old(summary).deep_view().suspicions,
        ),
        final(summary).deep_view() == (CaptureSummaryView {
            suspicions: r.deep_view().map_values(|s: (Seq<char>, i64)| s.0),
            ..old(summary).deep_view()
        }),
{
    let ghost start = summary.deep_view();
    let mut list: Vec<ScoredSuspicion> = new;
    join_scores(&mut list, earlier);
    let flags: Vec<ScoredSuspicion> = convert(
        whole(&summary.suspicions),
        nominal_of,
        Ghost(nominal()),
    );
    join_scores(&mut list, &flags);
    let ghost all = list.deep_view();
    let mut out: Vec<ScoredSuspicion> = Vec::new();
    let mut keys: Vec<i128> = Vec::new();
    let mut i: usize = 0;
    assert(out.deep_view() =~= sort_by_key(all.take(0), highest_first()));
    while i < list.len()
        invariant
            all == list.deep_view(),
            i <= list@.len(),
            out.deep_view() == sort_by_key(all.take(i as int), highest_first()),
            keyed(out.deep_view(), highest_first(), keys@),
        decreases list@.len() - i,
    {
        assert(all[i as int] == list@[i as int].deep_view());
        assert(all.take(i + 1).drop_last() =~= all.take(i as int));
        let k: i128 = -(list[i].rank as i128);
        let row = ScoredSuspicion { text: list[i].text.clone(), rank: list[i].rank };
        insert_row(&mut out, &mut keys, row, k, Ghost(highest_first()));
        i = i + 1;
    }
    proof {
        take_all(all);
    }
    let ghost order = out.deep_view();
    if out.len() > MAX_SUSPICIONS {
        out.truncate(MAX_SUSPICIONS);
        assert(out.deep_view() =~= order.take(MAX_SUSPICIONS as int));
    }
    summary.suspicions = convert(whole(&out), text_of, Ghost(|s: (Seq<char>, i64)| s.0));
    out
}

// ---------- health ------------------------------------------------------------------

/// A source with its count.
pub open spec fn health_item(counts: Seq<u64>) -> spec_fn(Source) -> Seq<char> {
    |s: Source| flat(seq![source_text(s), "="@, decimal(counts[s.position()] as nat)])
}

/// The name of a source that brought nothing.
pub open spec fn silent(counts: Seq<u64>) -> spec_fn(Source) -> Option<Seq<char>> {
    |s: Source|
        if counts[s.position()] == 0 {
            Some(source_text(s))
        } else {
            None
        }
}

/// All sources.
pub open spec fn all_sources() -> Seq<Source> {
    seq![Source::FileSystem, Source::Process, Source::Network, Source::Window, Source::System]
}

/// What is said of the sources: the count of each, a warning of observations
/// that were dropped, and a warning of sources that brought nothing.
pub open spec fn health(prefix: Seq<char>, counts: Seq<u64>, dropped: u64) -> Seq<Seq<char>> {
    let items = all_sources().map_values(health_item(counts));
    let quiet = all_sources().filter_map(silent(counts));
    let first = if dropped > 0 {
        items.push(flat(seq!["dropped="@, decimal(dropped as nat)]))
    } else {
        items
    };
    let lines = seq![flat(seq![prefix, ": source health: "@, joined(first, " "@)])];
    let lost = if dropped > 0 {
        lines.push(
            flat(
                seq![
                    prefix,
                    ": warning — the bus dropped "@,
                    decimal(dropped as nat),
                    " observations (consumer lag); the scheduler will widen poll intervals under sustained pressure."@,
                ],
            ),
        )
    } else {
        lines
    };
    if quiet.len() > 0 {
        lost.push(
            flat(
                seq![
                    prefix,
                    ": warning — no observations from: "@,
                    joined(quiet, ", "@),
                    ". On macOS this usually means a missing permission (Window needs Accessibility for the frontmost-app poll; Endpoint Security events need sudo)."@,
                ],
            ),
        )
    } else {
        lost
    }
}

/// What is said of the sources.
pub fn capture_health(prefix: &str, counts: &Vec<u64>, dropped: u64) -> (r: Vec<String>)
    requires
        counts@.len() == 5,
    ensures
        r.deep_view() == health(prefix@, counts@, dropped),
{
    let sources = Source::ALL;
    let ghost all = all_sources();
    assert(sources@ =~= all);
    let ghost want = all.map_values(health_item(counts@));
    let ghost g = silent(counts@);
    let mut items: Vec<String> = Vec::new();
    let mut quiet: Vec<String> = Vec::new();
    let mut i: usize = 0;
    proof {
        filter_map_start(all, g);
        assert(items.deep_view() =~= want.take(0));
        assert(quiet.deep_view() =~= Seq::<Seq<char>>::empty());
    }
    while i < 5
        invariant
            counts@.len() == 5,
            sources@ == all,
            all == all_sources(),
            want == all.map_values(health_item(counts@)),
            g == silent(counts@),
            i <= 5,
            items.deep_view() == want.take(i as int),
            quiet.deep_view() == all.take(i as int).filter_map(g),
        decreases 5 - i,
    {
        proof {
            filter_map_step(all, g, i as int);
        }
        let s: Source = sources[i];
        let n: u64 = counts[s.index()];
        let mut p = Parts::new();
        p.add(source_name(s));
        p.add("=");
        p.add_number(n);
        push_item(&mut items, p.finish());
        assert(want.take(i + 1) =~= want.take(i as int).push(want[i as int]));
        if n == 0 {
            push_item(&mut quiet, source_name(s).to_string());
        }
        i = i + 1;
    }
    proof {
        take_all(all);
        assert(want.take(5) =~= want);
    }
    if dropped > 0 {
        let mut p = Parts::new();
        p.add("dropped=");
        p.add_number(dropped);
        push_item(&mut items, p.finish());
    }
    let mut out: Vec<String> = Vec::new();
    let mut p = Parts::new();
    p.add(prefix);
    p.add(": source health: ");
    p.add(join_texts(&items, " ").as_str());
    push_item(&mut out, p.finish());
    if dropped > 0 {
        let mut q = Parts::new();
        q.add(prefix);
        q.add(": warning — the bus dropped ");
        q.add_number(dropped);
        q.add(
            " observations (consumer lag); the scheduler will widen poll intervals under sustained pressure.",
        );
        push_item(&mut out, q.finish());
    }
    if quiet.len() > 0 {
        let mut q = Parts::new();
        q.add(prefix);
        q.add(": warning — no observations from: ");
        q.add(join_texts(&quiet, ", ").as_str());
        q.add(
            ". On macOS this usually means a missing permission (Window needs Accessibility for the frontmost-app poll; Endpoint Security events need sudo).",
        );
        push_item(&mut out, q.finish());
    }
    assert(out.deep_view() =~= health(prefix@, counts@, dropped));
    out
}

/// What is told is ordered by rank, the most unusual first, and is not too
/// much.
pub proof fn merged_scores_are_ranked(
    new: Seq<(Seq<char>, i64)>,
    earlier: Seq<(Seq<char>, i64)>,
    flags: Seq<Seq<char>>,
)
    ensures
        ({
            let r = merged_scores(new, earlier, flags);
            &&& r.len() <= MAX_SUSPICIONS
            &&& forall|i: int, j: int| 0 <= i < j < r.len() ==> (#[trigger] r[i]).1 >= (#[trigger] r[j]).1
        }),
{
    let all = joined_scores(joined_scores(new, earlier), flags.map_values(nominal()));
    let key = highest_first();
    sort_by_key_sorts(all, key);
    let s = sort_by_key(all, key);
    let r = merged_scores(new, earlier, flags);
    assert forall|i: int, j: int| 0 <= i < j < r.len() implies (#[trigger] r[i]).1 >= (
    #[trigger] r[j]).1 by {
        assert(r[i] == s[i] && r[j] == s[j]);
        assert(key(s[i]) <= key(s[j]));
    }
}

/// Nothing that was told before is lost in joining: every text is among the
/// joined ones.
pub proof fn joining_keeps_every_text(
    s: Seq<(Seq<char>, i64)>,
    more: Seq<(Seq<char>, i64)>,
    text: Seq<char>,
)
    ensures
        has_scored(s, text) || has_scored(more, text) ==> has_scored(joined_scores(s, more), text),
    decreases more.len(),
{
    if more.len() > 0 {
        let t = more.drop_last();
        joining_keeps_every_text(s, t, text);
        let rest = joined_scores(s, t);
        let all = joined_scores(s, more);
        if has_scored(rest, text) {
            let k = choose|k: int| 0 <= k < rest.len() && (#[trigger] rest[k]).0 == text;
            assert(all[k].0 == text);
        } else if has_scored(more, text) {
            let k = choose|k: int| 0 <= k < more.len() && (#[trigger] more[k]).0 == text;
            if k < t.len() {
                assert(t[k].0 == text);
            } else {
                assert(all[rest.len() as int].0 == text);
            }
        }
    }
}

} // verus!
