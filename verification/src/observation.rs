//! Observations: what a source reports, when, and about which process.

use vstd::prelude::*;

use crate::json::{Json, JsonView};

verus! {

/// Source category.
#[derive(Debug, Clone, Copy, PartialEq, Eq, Hash, Structural)]
pub enum Source {
    FileSystem,
    Process,
    Network,
    Window,
    System,
}

impl Source {
    /// All source categories, in `index()` order.
    pub const ALL: [Source; 5] = [
        Source::FileSystem,
        Source::Process,
        Source::Network,
        Source::Window,
        Source::System,
    ];

    /// The position of the category among all of them.
    pub open spec fn position(self) -> int {
        match self {
            Source::FileSystem => 0,
            Source::Process => 1,
            Source::Network => 2,
            Source::Window => 3,
            Source::System => 4,
        }
    }

    /// Stable dense index for per-source counter arrays.
    pub fn index(self) -> (r: usize)
        ensures
            r == self.position(),
            r < 5,
    {
        match self {
            Source::FileSystem => 0,
            Source::Process => 1,
            Source::Network => 2,
            Source::Window => 3,
            Source::System => 4,
        }
    }
}

/// How a source is driven.
#[derive(Debug, Clone, Copy, PartialEq, Eq, Hash, Structural)]
pub enum SourceBehavior {
    Stream,
    Snapshot,
    Diff,
}

/// Nanoseconds since the clock's wall-clock anchor, with the anchor.
#[derive(Debug, Clone, Copy, PartialEq, Eq, PartialOrd, Ord, Structural)]
pub struct Timestamp {
    /// Nanoseconds since the clock's wall-clock anchor.
    pub mono_ns: u64,
    /// Wall-clock anchor in unix nanoseconds; zero where there is none.
    pub wall_anchor_ns: u64,
}

impl DeepView for Timestamp {
    type V = Timestamp;

    open spec fn deep_view(&self) -> Timestamp {
        *self
    }
}

impl Timestamp {
    /// Order by the monotonic part, then by the anchor.
    pub open spec fn le(self, other: Timestamp) -> bool {
        self.mono_ns < other.mono_ns || (self.mono_ns == other.mono_ns && self.wall_anchor_ns
            <= other.wall_anchor_ns)
    }

    /// Whether this timestamp is no later than the other.
    pub fn at_most(self, other: Timestamp) -> (r: bool)
        ensures
            r == self.le(other),
    {
        self.mono_ns < other.mono_ns || (self.mono_ns == other.mono_ns && self.wall_anchor_ns
            <= other.wall_anchor_ns)
    }
}

/// One record of a source: `(timestamp, source, pid?, payload, tags?)`.
#[derive(Debug)]
pub struct Observation {
    pub timestamp: Timestamp,
    pub source: Source,
    pub pid: Option<u32>,
    pub payload: Json,
    pub tags: Option<Json>,
}

/// What an observation holds.
pub struct ObservationView {
    pub timestamp: Timestamp,
    pub source: Source,
    pub pid: Option<u32>,
    pub payload: JsonView,
    pub tags: Option<JsonView>,
}

impl DeepView for Observation {
    type V = ObservationView;

    open spec fn deep_view(&self) -> ObservationView {
        ObservationView {
            timestamp: self.timestamp,
            source: self.source,
            pid: self.pid,
            payload: self.payload@,
            tags: self.tags.deep_view(),
        }
    }
}

impl Clone for Observation {
    fn clone(&self) -> (r: Self)
        ensures
            r.deep_view() == self.deep_view(),
    {
        Observation {
            timestamp: self.timestamp,
            source: self.source,
            pid: self.pid,
            payload: self.payload.clone(),
            tags: match &self.tags {
                Some(tags) => Some(tags.clone()),
                None => None,
            },
        }
    }
}

/// A reading of the monotonic clock.
#[verifier::external_type_specification]
#[verifier::external_body]
pub struct ExInstant(std::time::Instant);

/// Reads the monotonic clock with `Instant::now`. Nothing is claimed of it.
#[verifier::external_body]
fn instant_now() -> (r: std::time::Instant) {
    std::time::Instant::now()
}

/// The time since a reading, with `Instant::elapsed`. Nothing is claimed of it.
#[verifier::external_body]
fn instant_elapsed(start: &std::time::Instant) -> (r: std::time::Duration) {
    start.elapsed()
}

/// The wall clock's distance from the unix epoch, with `SystemTime::elapsed`;
/// none where the clock stands before the epoch. Nothing is claimed of the time
/// read.
#[verifier::external_body]
pub(crate) fn since_epoch() -> (r: Option<std::time::Duration>) {
    std::time::UNIX_EPOCH.elapsed().ok()
}

/// How many nanoseconds a span of time lasts.
pub uninterp spec fn span_nanos(d: std::time::Duration) -> u128;

/// The nanoseconds of a span, with `Duration::as_nanos`.
///
/// Claimed of it: the number depends on the span alone.
#[verifier::external_body]
pub(crate) fn duration_nanos(d: &std::time::Duration) -> (r: u128)
    ensures
        r == span_nanos(*d),
{
    d.as_nanos()
}

/// A span in nanoseconds that a `u64` holds, or the largest `u64`.
pub fn nanos_saturated(n: u128) -> (r: u64)
    ensures
        r as int == if n <= u64::MAX as int {
            n as int
        } else {
            u64::MAX as int
        },
{
    if n <= u64::MAX as u128 {
        n as u64
    } else {
        u64::MAX
    }
}

/// The anchor of a clock, from the wall clock's distance from the unix epoch in
/// nanoseconds: zero for a wall clock before the epoch, and the largest `u64`
/// where none holds it.
pub fn anchor_of(since_epoch: Option<u128>) -> (r: u64)
    ensures
        r as int == match since_epoch {
            Some(n) => if n <= u64::MAX as int {
                n as int
            } else {
                u64::MAX as int
            },
            None => 0,
        },
{
    match since_epoch {
        Some(n) => nanos_saturated(n),
        None => 0,
    }
}

/// The timestamp of a clock that was anchored at `wall_anchor_ns` and has run
/// for `elapsed_ns`: the elapsed part keeps its low 64 bits.
pub fn timestamp_at(wall_anchor_ns: u64, elapsed_ns: u128) -> (r: Timestamp)
    ensures
        r == (Timestamp { mono_ns: elapsed_ns as u64, wall_anchor_ns }),
{
    Timestamp { mono_ns: #[verifier::truncate] (elapsed_ns as u64), wall_anchor_ns }
}

/// A monotonic clock with a wall-clock anchor taken when it was made.
#[derive(Debug)]
pub struct MonotonicClock {
    start: std::time::Instant,
    wall_anchor_ns: u64,
}

impl Clone for MonotonicClock {
    fn clone(&self) -> (r: Self)
        ensures
            r == *self,
    {
        MonotonicClock {
            start: self.start,
            wall_anchor_ns: self.wall_anchor_ns,
        }
    }
}

impl MonotonicClock {
    /// The wall-clock anchor, in unix nanoseconds.
    pub closed spec fn anchor(self) -> u64 {
        self.wall_anchor_ns
    }

    /// A clock anchored now. The anchor is zero where the wall clock stands
    /// before the unix epoch; which time is read is left to the machine.
    pub fn new() -> Self {
        let reading: Option<u128> = match since_epoch() {
            Some(d) => Some(duration_nanos(&d)),
            None => None,
        };
        MonotonicClock { start: instant_now(), wall_anchor_ns: anchor_of(reading) }
    }

    /// The current timestamp. It carries the clock's anchor; the elapsed part
    /// is left to the machine.
    pub fn now(&self) -> (r: Timestamp)
        ensures
            r.wall_anchor_ns == self.anchor(),
    {
        timestamp_at(self.wall_anchor_ns, duration_nanos(&instant_elapsed(&self.start)))
    }
}

impl Default for MonotonicClock {
    fn default() -> Self {
        MonotonicClock::new()
    }
}

/// One source's transport counters.
#[derive(Debug, Clone, Copy, PartialEq, Eq, Structural)]
pub struct BusSourceStats {
    pub source: Source,
    pub sent: u64,
    pub dropped: u64,
}

/// Per-source counters of a bounded channel: what was sent and what was
/// dropped because the channel was full or its receiver gone.
#[derive(Debug)]
pub struct BusCounters {
    sent: Vec<u64>,
    dropped: Vec<u64>,
}

/// The sum of a sequence of counters.
pub open spec fn total(s: Seq<u64>) -> int
    decreases s.len(),
{
    if s.len() == 0 {
        0
    } else {
        total(s.drop_last()) + s.last()
    }
}

impl BusCounters {
    /// One counter for each source.
    pub closed spec fn wf(self) -> bool {
        self.sent@.len() == 5 && self.dropped@.len() == 5
    }

    /// What was sent for a source.
    pub closed spec fn sent_of(self, source: Source) -> u64 {
        self.sent@[source.position()]
    }

    /// What was dropped for a source.
    pub closed spec fn dropped_of(self, source: Source) -> u64 {
        self.dropped@[source.position()]
    }

    /// The drop counters, by source index.
    pub open spec fn drops(self) -> Seq<u64> {
        seq![
            self.dropped_of(Source::FileSystem),
            self.dropped_of(Source::Process),
            self.dropped_of(Source::Network),
            self.dropped_of(Source::Window),
            self.dropped_of(Source::System),
        ]
    }

    /// Counters at zero.
    pub fn new() -> (r: Self)
        ensures
            r.wf(),
            forall|s: Source| #[trigger] r.sent_of(s) == 0 && #[trigger] r.dropped_of(s) == 0,
    {
        BusCounters { sent: vec![0, 0, 0, 0, 0], dropped: vec![0, 0, 0, 0, 0] }
    }

    /// Counts one attempt to send: as sent where the channel took the
    /// observation, as dropped where it did not. A counter that is full starts
    /// again at zero.
    pub fn record(&mut self, source: Source, accepted: bool)
        requires
            old(self).wf(),
        ensures
            final(self).wf(),
            final(self).sent_of(source) == if accepted {
                (old(self).sent_of(source) + 1) % 0x1_0000_0000_0000_0000
            } else {
                old(self).sent_of(source) as int
            },
            final(self).dropped_of(source) == if accepted {
                old(self).dropped_of(source) as int
            } else {
                (old(self).dropped_of(source) + 1) % 0x1_0000_0000_0000_0000
            },
            forall|s: Source|
                s != source ==> #[trigger] final(self).sent_of(s) == old(self).sent_of(s),
            forall|s: Source|
                s != source ==> #[trigger] final(self).dropped_of(s) == old(self).dropped_of(s),
    {
        let i: usize = source.index();
        if accepted {
            let n: u64 = self.sent[i];
            self.sent[i] = if n == u64::MAX {
                0
            } else {
                n + 1
            };
        } else {
            let n: u64 = self.dropped[i];
            self.dropped[i] = if n == u64::MAX {
                0
            } else {
                n + 1
            };
        }
    }

    /// The counters of every source, in index order.
    pub fn stats(&self) -> (r: Vec<BusSourceStats>)
        requires
            self.wf(),
        ensures
            r@.len() == 5,
            forall|i: int|
                0 <= i < 5 ==> (#[trigger] r@[i]).source.position() == i && r@[i].sent
                    == self.sent_of(r@[i].source) && r@[i].dropped == self.dropped_of(r@[i].source),
    {
        let mut out: Vec<BusSourceStats> = Vec::new();
        let all = [
            Source::FileSystem,
            Source::Process,
            Source::Network,
            Source::Window,
            Source::System,
        ];
        let mut i: usize = 0;
        while i < 5
            invariant
                self.wf(),
                i <= 5,
                out@.len() == i,
                all@.len() == 5,
                forall|k: int| 0 <= k < 5 ==> (#[trigger] all@[k]).position() == k,
                forall|k: int|
                    0 <= k < i ==> (#[trigger] out@[k]).source.position() == k && out@[k].sent
                        == self.sent_of(out@[k].source) && out@[k].dropped == self.dropped_of(
                        out@[k].source,
                    ),
            decreases 5 - i,
        {
            out.push(
                BusSourceStats { source: all[i], sent: self.sent[i], dropped: self.dropped[i] },
            );
            i = i + 1;
        }
        out
    }

    /// Total drops across all sources.
    pub fn dropped_total(&self) -> (r: u64)
        requires
            self.wf(),
            total(self.drops()) <= u64::MAX,
        ensures
            r == total(self.drops()),
    {
        proof {
            reveal_with_fuel(total, 6);
            let d = self.drops();
            assert(d.drop_last().drop_last().drop_last().drop_last().drop_last() =~= Seq::empty());
        }
        self.dropped[0] + self.dropped[1] + self.dropped[2] + self.dropped[3] + self.dropped[4]
    }
}

} // verus!
