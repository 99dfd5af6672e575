//! What the store knows over time: what is new, which application was
//! frontmost when, and how events spread over hours and windows.

use vstd::prelude::*;
use vstd::string::*;

use crate::json::{copy_opt, copy_strings, Json, JsonView};
use crate::order::{first_n, insert_row, keyed, sort_by_key, text_before, text_lt};
use crate::seqs::{
    copy_all, count_where, count_where_step, filter_map_start, filter_map_step, push_item,
    take_all, uniques,
};
use crate::store::{
    process_id_from_string, process_id_of, EdgeKind, EdgeRow, EdgeRowView, NodeKind, NodeRow,
    NodeRowView, Store, StoreError,
};
use crate::store_admin::{earliest, node_span};
use crate::store_merge::{find_node, min_time, node_at};
use crate::store_query::opt_text_eq;

verus! {

// ---------- focus segments -------------------------------------------------------

/// A stretch of time in which a process was frontmost, clipped to a window.
#[derive(Debug)]
pub struct FocusSegment {
    pub app_id: String,
    pub app_name: String,
    pub process_pid: u32,
    pub from_unix_ns: i64,
    pub to_unix_ns: i64,
    pub duration_secs: u64,
}

/// What a `FocusSegment` holds.
pub struct FocusSegmentView {
    pub app_id: Seq<char>,
    pub app_name: Seq<char>,
    pub process_pid: u32,
    pub from_unix_ns: i64,
    pub to_unix_ns: i64,
    pub duration_secs: u64,
}

impl DeepView for FocusSegment {
    type V = FocusSegmentView;

    open spec fn deep_view(&self) -> FocusSegmentView {
        FocusSegmentView {
            app_id: self.app_id@,
            app_name: self.app_name@,
            process_pid: self.process_pid,
            from_unix_ns: self.from_unix_ns,
            to_unix_ns: self.to_unix_ns,
            duration_secs: self.duration_secs,
        }
    }
}

/// The integer at a value, as a database integer.
pub open spec fn db_int(j: Option<JsonView>) -> Option<i64> {
    match j {
        Some(JsonView::Int(n)) => Some(
            if n > i64::MAX {
                i64::MAX
            } else if n < i64::MIN {
                i64::MIN
            } else {
                n as i64
            },
        ),
        _ => None,
    }
}

/// The value under two keys, one inside the other.
pub open spec fn get2(j: Option<JsonView>, a: Seq<char>, b: Seq<char>) -> Option<JsonView> {
    match j {
        Some(v) => match v.get(a) {
            Some(w) => w.get(b),
            None => None,
        },
        None => None,
    }
}

/// A time in unix nanoseconds from its two parts: without an anchor the
/// monotonic part alone, else their sum, held within `i64`.
pub open spec fn combined(mono_ns: i64, wall_anchor_ns: i64) -> i64 {
    if wall_anchor_ns == 0 {
        mono_ns
    } else if wall_anchor_ns + mono_ns > i64::MAX {
        i64::MAX
    } else if wall_anchor_ns + mono_ns < i64::MIN {
        i64::MIN
    } else {
        (wall_anchor_ns + mono_ns) as i64
    }
}

/// An anchor, or zero.
pub open spec fn anchor_or_zero(a: Option<i64>) -> i64 {
    match a {
        Some(n) => n,
        None => 0,
    }
}

/// Whole seconds between two times; none if they are the wrong way round.
/// The difference is held within `i64`.
pub open spec fn span_secs(from: i64, to: i64) -> u64 {
    let d = to - from;
    if d <= 0 {
        0
    } else if d > i64::MAX {
        (i64::MAX as int / 1_000_000_000) as u64
    } else {
        (d / 1_000_000_000) as u64
    }
}

/// The focus segment of an edge, clipped to the window, if they overlap. An
/// open end counts as the window's end; an edge without a start has no
/// segment.
pub open spec fn focus_of(nodes: Seq<NodeRowView>, from: i64, to: i64) -> spec_fn(
    EdgeRowView,
) -> Option<FocusSegmentView> {
    |e: EdgeRowView|
        {
            let overlap = e.attrs.get("overlap"@);
            let from_mono = db_int(get2(overlap, "from"@, "mono_ns"@));
            let from_anchor = db_int(get2(overlap, "from"@, "wall_anchor_ns"@));
            let to_mono = db_int(get2(overlap, "to"@, "mono_ns"@));
            let to_anchor = db_int(get2(overlap, "to"@, "wall_anchor_ns"@));
            match from_mono {
                Some(m) if e.kind == EdgeKind::FrontmostDuring => {
                    let seg_from = combined(m, anchor_or_zero(from_anchor));
                    let seg_to = match to_mono {
                        Some(n) => combined(n, anchor_or_zero(to_anchor)),
                        None => to,
                    };
                    if seg_to < from || seg_from > to {
                        None
                    } else {
                        let clipped_from = if seg_from >= from {
                            seg_from
                        } else {
                            from
                        };
                        let clipped_to = if seg_to <= to {
                            seg_to
                        } else {
                            to
                        };
                        Some(
                            FocusSegmentView {
                                app_id: e.from_id,
                                app_name: match node_at(nodes, NodeKind::App, e.from_id) {
                                    Some(r) => match r.attrs.str_at("name"@) {
                                        Some(n) => n,
                                        None => e.from_id,
                                    },
                                    None => e.from_id,
                                },
                                process_pid: process_id_of(e.to_id).pid,
                                from_unix_ns: clipped_from,
                                to_unix_ns: clipped_to,
                                duration_secs: span_secs(clipped_from, clipped_to),
                            },
                        )
                    }
                },
                _ => None,
            }
        }
}

/// Orders segments by their start.
pub open spec fn by_start() -> spec_fn(FocusSegmentView) -> int {
    |s: FocusSegmentView| s.from_unix_ns as int
}

/// The focus segments of a window, in order of their start.
pub open spec fn focus_segments(
    nodes: Seq<NodeRowView>,
    edges: Seq<EdgeRowView>,
    from: i64,
    to: i64,
) -> Seq<FocusSegmentView> {
    sort_by_key(edges.filter_map(focus_of(nodes, from, to)), by_start())
}

/// The integer at a value, as a database integer.
fn read_db_int(j: Option<&Json>) -> (r: Option<i64>)
    ensures
        r == db_int(j.deep_view()),
{
    match j {
        Some(Json::U64(n)) => Some(
            if *n > i64::MAX as u64 {
                i64::MAX
            } else {
                *n as i64
            },
        ),
        Some(Json::I64(n)) => Some(*n),
        _ => None,
    }
}

/// The value under two keys, one inside the other.
fn read2<'a>(j: Option<&'a Json>, a: &str, b: &str) -> (r: Option<&'a Json>)
    ensures
        r.deep_view() == get2(j.deep_view(), a@, b@),
{
    match j {
        Some(v) => match v.get(a) {
            Some(w) => w.get(b),
            None => None,
        },
        None => None,
    }
}

/// A time in unix nanoseconds from its two parts.
pub fn combine_ts(mono_ns: i64, wall_anchor_ns: i64) -> (r: i64)
    ensures
        r == combined(mono_ns, wall_anchor_ns),
{
    if wall_anchor_ns == 0 {
        mono_ns
    } else {
        let sum: i128 = wall_anchor_ns as i128 + mono_ns as i128;
        if sum > i64::MAX as i128 {
            i64::MAX
        } else if sum < i64::MIN as i128 {
            i64::MIN
        } else {
            sum as i64
        }
    }
}

/// Whole seconds between two times.
fn seconds_between(from: i64, to: i64) -> (r: u64)
    ensures
        r == span_secs(from, to),
{
    let d: i128 = to as i128 - from as i128;
    if d <= 0 {
        0
    } else if d > i64::MAX as i128 {
        i64::MAX as u64 / 1_000_000_000
    } else {
        (d as u64) / 1_000_000_000
    }
}

/// The focus segment of an edge, clipped to the window.
fn focus_segment(nodes: &Vec<NodeRow>, from: i64, to: i64, e: &EdgeRow) -> (r: Option<FocusSegment>)
    ensures
        r.deep_view() == focus_of(nodes.deep_view(), from, to)(e.deep_view()),
{
    let overlap = e.attrs.get("overlap");
    let from_mono = read_db_int(read2(overlap, "from", "mono_ns"));
    let from_anchor = read_db_int(read2(overlap, "from", "wall_anchor_ns"));
    let to_mono = read_db_int(read2(overlap, "to", "mono_ns"));
    let to_anchor = read_db_int(read2(overlap, "to", "wall_anchor_ns"));
    if e.kind != EdgeKind::FrontmostDuring {
        return None;
    }
    let m: i64 = match from_mono {
        Some(m) => m,
        None => return None,
    };
    let seg_from: i64 = combine_ts(
        m,
        match from_anchor {
            Some(a) => a,
            None => 0,
        },
    );
    let seg_to: i64 = match to_mono {
        Some(n) => combine_ts(
            n,
            match to_anchor {
                Some(a) => a,
                None => 0,
            },
        ),
        None => to,
    };
    if seg_to < from || seg_from > to {
        return None;
    }
    let clipped_from: i64 = if seg_from >= from {
        seg_from
    } else {
        from
    };
    let clipped_to: i64 = if seg_to <= to {
        seg_to
    } else {
        to
    };
    let app_name: String = match find_node(nodes, NodeKind::App, e.from_id.as_str()) {
        Some(k) => match nodes[k].attrs.string_at("name") {
            Some(n) => n,
            None => e.from_id.clone(),
        },
        None => e.from_id.clone(),
    };
    Some(
        FocusSegment {
            app_id: e.from_id.clone(),
            app_name,
            process_pid: process_id_from_string(e.to_id.as_str()).pid,
            from_unix_ns: clipped_from,
            to_unix_ns: clipped_to,
            duration_secs: seconds_between(clipped_from, clipped_to),
        },
    )
}

impl Store {
    /// Every stretch of time in which an application's process was frontmost,
    /// clipped to `[from_unix_ns, to_unix_ns]`, in order of their start.
    pub fn focus_segments_in_window(&self, from_unix_ns: i64, to_unix_ns: i64) -> (r: Result<
        Vec<FocusSegment>,
        StoreError,
    >)
        ensures
            r is Ok,
            r->Ok_0.deep_view() == focus_segments(
                self@.nodes,
                self@.edges,
                from_unix_ns,
                to_unix_ns,
            ),
    {
        let ghost all = self.edges.deep_view();
        let ghost f = focus_of(self@.nodes, from_unix_ns, to_unix_ns);
        let mut out: Vec<FocusSegment> = Vec::new();
        let mut keys: Vec<i128> = Vec::new();
        let mut i: usize = 0;
        proof {
            filter_map_start(all, f);
            assert(out.deep_view() =~= Seq::<FocusSegmentView>::empty());
        }
        while i < self.edges.len()
            invariant
                all == self.edges.deep_view(),
                f == focus_of(self@.nodes, from_unix_ns, to_unix_ns),
                i <= self.edges@.len(),
                keyed(out.deep_view(), by_start(), keys@),
                out.deep_view() == sort_by_key(all.take(i as int).filter_map(f), by_start()),
            decreases self.edges@.len() - i,
        {
            proof {
                filter_map_step(all, f, i as int);
            }
            match focus_segment(&self.nodes, from_unix_ns, to_unix_ns, &self.edges[i]) {
                Some(s) => {
                    let ghost g = all.take(i as int).filter_map(f);
                    assert(g.push(s.deep_view()).drop_last() =~= g);
                    let k: i128 = s.from_unix_ns as i128;
                    insert_row(&mut out, &mut keys, s, k, Ghost(by_start()));
                },
                None => {},
            }
            i = i + 1;
        }
        proof {
            take_all(all);
        }
        Ok(out)
    }
}

/// Every focus segment lies in the window that was asked for.
pub proof fn focus_is_clipped(nodes: Seq<NodeRowView>, from: i64, to: i64, e: EdgeRowView)
    requires
        from <= to,
    ensures
        focus_of(nodes, from, to)(e) matches Some(s) ==> from <= s.from_unix_ns <= to && from
            <= s.to_unix_ns <= to,
{
}

// ---------- novelty ------------------------------------------------------------

/// The most entries that each list of a novelty report has.
pub const NOVELTY_CAP_PER_KIND: usize = 20;

/// A program that was never seen before, over all of its runs.
#[derive(Debug)]
pub struct NewProcessIdentity {
    pub comm: Option<String>,
    pub exec_path: Option<String>,
    pub first_seen_unix_ns: i64,
    pub instances: u32,
}

/// What a `NewProcessIdentity` holds.
pub struct NewProcessIdentityView {
    pub comm: Option<Seq<char>>,
    pub exec_path: Option<Seq<char>>,
    pub first_seen_unix_ns: i64,
    pub instances: u32,
}

impl DeepView for NewProcessIdentity {
    type V = NewProcessIdentityView;

    open spec fn deep_view(&self) -> NewProcessIdentityView {
        NewProcessIdentityView {
            comm: self.comm.deep_view(),
            exec_path: self.exec_path.deep_view(),
            first_seen_unix_ns: self.first_seen_unix_ns,
            instances: self.instances,
        }
    }
}

impl Clone for NewProcessIdentity {
    fn clone(&self) -> (r: Self)
        ensures
            r.deep_view() == self.deep_view(),
    {
        NewProcessIdentity {
            comm: copy_opt(&self.comm),
            exec_path: copy_opt(&self.exec_path),
            first_seen_unix_ns: self.first_seen_unix_ns,
            instances: self.instances,
        }
    }
}

/// A foreign endpoint that was never seen before, over all of its
/// connections.
#[derive(Debug)]
pub struct NewEndpoint {
    pub foreign_addr: String,
    pub example_process: Option<String>,
    pub first_seen_unix_ns: i64,
    pub socket_count: u32,
}

/// What a `NewEndpoint` holds.
pub struct NewEndpointView {
    pub foreign_addr: Seq<char>,
    pub example_process: Option<Seq<char>>,
    pub first_seen_unix_ns: i64,
    pub socket_count: u32,
}

impl DeepView for NewEndpoint {
    type V = NewEndpointView;

    open spec fn deep_view(&self) -> NewEndpointView {
        NewEndpointView {
            foreign_addr: self.foreign_addr@,
            example_process: self.example_process.deep_view(),
            first_seen_unix_ns: self.first_seen_unix_ns,
            socket_count: self.socket_count,
        }
    }
}

impl Clone for NewEndpoint {
    fn clone(&self) -> (r: Self)
        ensures
            r.deep_view() == self.deep_view(),
    {
        NewEndpoint {
            foreign_addr: self.foreign_addr.clone(),
            example_process: copy_opt(&self.example_process),
            first_seen_unix_ns: self.first_seen_unix_ns,
            socket_count: self.socket_count,
        }
    }
}

/// An application that was never seen before.
#[derive(Debug)]
pub struct NewApp {
    pub id: String,
    pub name: Option<String>,
}

/// What a `NewApp` holds.
pub struct NewAppView {
    pub id: Seq<char>,
    pub name: Option<Seq<char>>,
}

impl DeepView for NewApp {
    type V = NewAppView;

    open spec fn deep_view(&self) -> NewAppView {
        NewAppView { id: self.id@, name: self.name.deep_view() }
    }
}

impl Clone for NewApp {
    fn clone(&self) -> (r: Self)
        ensures
            r.deep_view() == self.deep_view(),
    {
        NewApp {
            id: self.id.clone(),
            name: copy_opt(&self.name),
        }
    }
}

/// What was first seen at or after a time.
#[derive(Debug)]
pub struct NoveltyReport {
    pub new_processes: Vec<NewProcessIdentity>,
    pub new_domains: Vec<String>,
    pub new_endpoints: Vec<NewEndpoint>,
    pub new_apps: Vec<NewApp>,
    /// When the earliest node of all was first seen.
    pub oldest_first_seen_unix_ns: Option<i64>,
}

impl Clone for NoveltyReport {
    fn clone(&self) -> (r: Self)
        ensures
            r.new_processes.deep_view() == self.new_processes.deep_view(),
            r.new_domains.deep_view() == self.new_domains.deep_view(),
            r.new_endpoints.deep_view() == self.new_endpoints.deep_view(),
            r.new_apps.deep_view() == self.new_apps.deep_view(),
            r.oldest_first_seen_unix_ns == self.oldest_first_seen_unix_ns,
    {
        NoveltyReport {
            new_processes: copy_all(&self.new_processes),
            new_domains: copy_strings(&self.new_domains),
            new_endpoints: copy_all(&self.new_endpoints),
            new_apps: copy_all(&self.new_apps),
            oldest_first_seen_unix_ns: self.oldest_first_seen_unix_ns,
        }
    }
}

impl Default for NoveltyReport {
    fn default() -> (r: Self)
        ensures
            r.new_processes@.len() == 0,
            r.new_domains@.len() == 0,
            r.new_endpoints@.len() == 0,
            r.new_apps@.len() == 0,
            r.oldest_first_seen_unix_ns == None::<i64>,
    {
        NoveltyReport {
            new_processes: Vec::new(),
            new_domains: Vec::new(),
            new_endpoints: Vec::new(),
            new_apps: Vec::new(),
            oldest_first_seen_unix_ns: None,
        }
    }
}

/// One sighting of something: what it is, what goes with it, and when.
pub(crate) struct Sighting {
    pub(crate) key: Option<String>,
    pub(crate) other: Option<String>,
    pub(crate) at: i64,
}

/// One sighting of something: what it is, what goes with it, and when.
pub struct SightingView {
    pub key: Option<Seq<char>>,
    pub other: Option<Seq<char>>,
    pub at: i64,
}

impl DeepView for Sighting {
    type V = SightingView;

    open(crate) spec fn deep_view(&self) -> SightingView {
        SightingView { key: self.key.deep_view(), other: self.other.deep_view(), at: self.at }
    }
}

/// The sightings of programs: a program is its name and its executable.
pub open spec fn see_program() -> spec_fn(NodeRowView) -> Option<SightingView> {
    |r: NodeRowView|
        if r.kind == NodeKind::Process {
            Some(
                SightingView {
                    key: r.attrs.str_at("comm"@),
                    other: r.attrs.str_at("exec_path"@),
                    at: r.first_seen,
                },
            )
        } else {
            None
        }
}

/// The sightings of endpoints, with the process that made the connection.
pub open spec fn see_endpoint() -> spec_fn(NodeRowView) -> Option<SightingView> {
    |r: NodeRowView|
        match r.attrs.str_at("foreign_addr"@) {
            Some(a) if r.kind == NodeKind::Socket => Some(
                SightingView {
                    key: Some(a),
                    other: r.attrs.str_at("process_name"@),
                    at: r.first_seen,
                },
            ),
            _ => None,
        }
}

/// The sightings at or after a time of names that are not masked.
pub open spec fn see_domain(from: i64) -> spec_fn(NodeRowView) -> Option<SightingView> {
    |r: NodeRowView|
        if r.kind == NodeKind::Domain && r.first_seen >= from && r.attrs.bool_at("masked"@) != Some(
            true,
        ) {
            Some(SightingView { key: Some(r.id), other: None, at: r.first_seen })
        } else {
            None
        }
}

/// The sightings at or after a time of applications.
pub open spec fn see_app(from: i64) -> spec_fn(NodeRowView) -> Option<SightingView> {
    |r: NodeRowView|
        if r.kind == NodeKind::App && r.first_seen >= from {
            Some(SightingView { key: Some(r.id), other: r.attrs.str_at("name"@), at: r.first_seen })
        } else {
            None
        }
}

/// Whether a sighting is of a program.
pub open spec fn is_program(key: Option<Seq<char>>, other: Option<Seq<char>>) -> spec_fn(
    SightingView,
) -> bool {
    |s: SightingView| s.key == key && s.other == other
}

/// Whether a sighting is of an endpoint.
pub open spec fn is_endpoint(key: Option<Seq<char>>) -> spec_fn(SightingView) -> bool {
    |s: SightingView| s.key == key
}

/// The earliest of the sightings that satisfy a predicate.
pub open spec fn first_sighting(s: Seq<SightingView>, p: spec_fn(SightingView) -> bool) -> Option<i64>
    decreases s.len(),
{
    if s.len() == 0 {
        None
    } else {
        let rest = first_sighting(s.drop_last(), p);
        if p(s.last()) {
            match rest {
                Some(t) => Some(min_time(t, s.last().at)),
                None => Some(s.last().at),
            }
        } else {
            rest
        }
    }
}

/// The last in text order of what goes with the sightings of an endpoint.
pub open spec fn last_example(s: Seq<SightingView>, key: Option<Seq<char>>) -> Option<Seq<char>>
    decreases s.len(),
{
    if s.len() == 0 {
        None
    } else {
        let rest = last_example(s.drop_last(), key);
        match s.last().other {
            Some(x) if s.last().key == key => match rest {
                Some(y) => if text_lt(y, x) {
                    Some(x)
                } else {
                    Some(y)
                },
                None => Some(x),
            },
            _ => rest,
        }
    }
}

/// A program that was never seen before a time, if it has a name or an
/// executable.
pub open spec fn new_program(s: Seq<SightingView>, from: i64) -> spec_fn(
    (Option<Seq<char>>, Option<Seq<char>>),
) -> Option<NewProcessIdentityView> {
    |k: (Option<Seq<char>>, Option<Seq<char>>)|
        match first_sighting(s, is_program(k.0, k.1)) {
            Some(t) if t >= from && (k.0 is Some || k.1 is Some) => Some(
                NewProcessIdentityView {
                    comm: k.0,
                    exec_path: k.1,
                    first_seen_unix_ns: t,
                    instances: count_where(s, is_program(k.0, k.1)) as u32,
                },
            ),
            _ => None,
        }
}

/// An endpoint that was never seen before a time.
pub open spec fn new_endpoint(s: Seq<SightingView>, from: i64) -> spec_fn(
    Option<Seq<char>>,
) -> Option<NewEndpointView> {
    |k: Option<Seq<char>>|
        match (k, first_sighting(s, is_endpoint(k))) {
            (Some(addr), Some(t)) if t >= from => Some(
                NewEndpointView {
                    foreign_addr: addr,
                    example_process: last_example(s, k),
                    first_seen_unix_ns: t,
                    socket_count: count_where(s, is_endpoint(k)) as u32,
                },
            ),
            _ => None,
        }
}

/// Orders programs by when they were first seen.
pub open spec fn program_age() -> spec_fn(NewProcessIdentityView) -> int {
    |p: NewProcessIdentityView| p.first_seen_unix_ns as int
}

/// Orders endpoints by when they were first seen.
pub open spec fn endpoint_age() -> spec_fn(NewEndpointView) -> int {
    |p: NewEndpointView| p.first_seen_unix_ns as int
}

/// Orders sightings by their time.
pub open spec fn sighting_age() -> spec_fn(SightingView) -> int {
    |s: SightingView| s.at as int
}

/// The new programs of a table: those whose earliest run is new, oldest first.
pub open spec fn new_programs(nodes: Seq<NodeRowView>, from: i64) -> Seq<NewProcessIdentityView> {
    let s = nodes.filter_map(see_program());
    let keys = uniques(Seq::new(s.len(), |i: int| (s[i].key, s[i].other)));
    first_n(
        sort_by_key(keys.filter_map(new_program(s, from)), program_age()),
        NOVELTY_CAP_PER_KIND as int,
    )
}

/// The new endpoints of a table: those whose earliest connection is new,
/// oldest first.
pub open spec fn new_endpoints(nodes: Seq<NodeRowView>, from: i64) -> Seq<NewEndpointView> {
    let s = nodes.filter_map(see_endpoint());
    let keys = uniques(Seq::new(s.len(), |i: int| s[i].key));
    first_n(
        sort_by_key(keys.filter_map(new_endpoint(s, from)), endpoint_age()),
        NOVELTY_CAP_PER_KIND as int,
    )
}

/// The new names of a table, oldest first.
pub open spec fn new_domains(nodes: Seq<NodeRowView>, from: i64) -> Seq<Seq<char>> {
    let s = first_n(
        sort_by_key(nodes.filter_map(see_domain(from)), sighting_age()),
        NOVELTY_CAP_PER_KIND as int,
    );
    Seq::new(s.len(), |i: int| s[i].key->0)
}

/// The new applications of a table, oldest first.
pub open spec fn new_apps(nodes: Seq<NodeRowView>, from: i64) -> Seq<NewAppView> {
    let s = first_n(
        sort_by_key(nodes.filter_map(see_app(from)), sighting_age()),
        NOVELTY_CAP_PER_KIND as int,
    );
    Seq::new(s.len(), |i: int| NewAppView { id: s[i].key->0, name: s[i].other })
}

/// The sightings of programs.
fn read_programs(nodes: &Vec<NodeRow>) -> (r: Vec<Sighting>)
    ensures
        r.deep_view() == nodes.deep_view().filter_map(see_program()),
{
    let ghost all = nodes.deep_view();
    let ghost f = see_program();
    let mut out: Vec<Sighting> = Vec::new();
    let mut i: usize = 0;
    proof {
        filter_map_start(all, f);
        assert(out.deep_view() =~= Seq::<SightingView>::empty());
    }
    while i < nodes.len()
        invariant
            all == nodes.deep_view(),
            f == see_program(),
            i <= nodes@.len(),
            out.deep_view() == all.take(i as int).filter_map(f),
        decreases nodes@.len() - i,
    {
        proof {
            filter_map_step(all, f, i as int);
        }
        let row: &NodeRow = &nodes[i];
        if row.kind == NodeKind::Process {
            push_item(
                &mut out,
                Sighting {
                    key: row.attrs.string_at("comm"),
                    other: row.attrs.string_at("exec_path"),
                    at: row.first_seen,
                },
            );
        }
        i = i + 1;
    }
    proof {
        take_all(all);
    }
    out
}

/// The sightings of endpoints.
fn read_endpoints(nodes: &Vec<NodeRow>) -> (r: Vec<Sighting>)
    ensures
        r.deep_view() == nodes.deep_view().filter_map(see_endpoint()),
{
    let ghost all = nodes.deep_view();
    let ghost f = see_endpoint();
    let mut out: Vec<Sighting> = Vec::new();
    let mut i: usize = 0;
    proof {
        filter_map_start(all, f);
        assert(out.deep_view() =~= Seq::<SightingView>::empty());
    }
    while i < nodes.len()
        invariant
            all == nodes.deep_view(),
            f == see_endpoint(),
            i <= nodes@.len(),
            out.deep_view() == all.take(i as int).filter_map(f),
        decreases nodes@.len() - i,
    {
        proof {
            filter_map_step(all, f, i as int);
        }
        let row: &NodeRow = &nodes[i];
        if row.kind == NodeKind::Socket {
            match row.attrs.string_at("foreign_addr") {
                Some(a) => push_item(
                    &mut out,
                    Sighting {
                        key: Some(a),
                        other: row.attrs.string_at("process_name"),
                        at: row.first_seen,
                    },
                ),
                None => {},
            }
        }
        i = i + 1;
    }
    proof {
        take_all(all);
    }
    out
}

/// The sightings of new names, or of new applications, oldest first, at most
/// as many as a report lists.
fn read_fresh(nodes: &Vec<NodeRow>, from: i64, apps: bool) -> (r: Vec<Sighting>)
    ensures
        r.deep_view() == first_n(
            sort_by_key(
                nodes.deep_view().filter_map(
                    if apps {
                        see_app(from)
                    } else {
                        see_domain(from)
                    },
                ),
                sighting_age(),
            ),
            NOVELTY_CAP_PER_KIND as int,
        ),
{
    let ghost all = nodes.deep_view();
    let ghost f = if apps {
        see_app(from)
    } else {
        see_domain(from)
    };
    let mut out: Vec<Sighting> = Vec::new();
    let mut keys: Vec<i128> = Vec::new();
    let mut i: usize = 0;
    proof {
        filter_map_start(all, f);
        assert(out.deep_view() =~= Seq::<SightingView>::empty());
    }
    while i < nodes.len()
        invariant
            all == nodes.deep_view(),
            f == if apps {
                see_app(from)
            } else {
                see_domain(from)
            },
            i <= nodes@.len(),
            keyed(out.deep_view(), sighting_age(), keys@),
            out.deep_view() == sort_by_key(all.take(i as int).filter_map(f), sighting_age()),
        decreases nodes@.len() - i,
    {
        proof {
            filter_map_step(all, f, i as int);
        }
        let row: &NodeRow = &nodes[i];
        let wanted: bool = if apps {
            row.kind == NodeKind::App
        } else {
            row.kind == NodeKind::Domain && match row.attrs.bool_at("masked") {
                Some(b) => !b,
                None => true,
            }
        };
        if wanted && row.first_seen >= from {
            let s = Sighting {
                key: Some(row.id.clone()),
                other: if apps {
                    row.attrs.string_at("name")
                } else {
                    None
                },
                at: row.first_seen,
            };
            let ghost g = all.take(i as int).filter_map(f);
            assert(g.push(s.deep_view()).drop_last() =~= g);
            insert_row(&mut out, &mut keys, s, row.first_seen as i128, Ghost(sighting_age()));
        }
        i = i + 1;
    }
    proof {
        take_all(all);
    }
    let ghost sorted = out.deep_view();
    if NOVELTY_CAP_PER_KIND < out.len() {
        out.truncate(NOVELTY_CAP_PER_KIND);
        assert(out.deep_view() =~= sorted.take(NOVELTY_CAP_PER_KIND as int));
    }
    out
}

/// The sightings' programs, each once.
fn program_keys(s: &Vec<Sighting>) -> (r: Vec<(Option<String>, Option<String>)>)
    ensures
        r.deep_view() == uniques(
            Seq::new(s.deep_view().len(), |i: int| (s.deep_view()[i].key, s.deep_view()[i].other)),
        ),
{
    let ghost want = Seq::new(
        s.deep_view().len(),
        |i: int| (s.deep_view()[i].key, s.deep_view()[i].other),
    );
    let mut out: Vec<(Option<String>, Option<String>)> = Vec::new();
    let mut i: usize = 0;
    assert(out.deep_view() =~= uniques(want.take(0)));
    while i < s.len()
        invariant
            want == Seq::new(
                s.deep_view().len(),
                |i: int| (s.deep_view()[i].key, s.deep_view()[i].other),
            ),
            i <= s@.len(),
            out.deep_view() == uniques(want.take(i as int)),
        decreases s@.len() - i,
    {
        assert(want.take(i + 1).drop_last() =~= want.take(i as int));
        let ghost x = want[i as int];
        let ghost have = out.deep_view();
        let mut k: usize = 0;
        let mut seen: bool = false;
        while k < out.len()
            invariant
                i < s@.len(),
                x == (s@[i as int].key.deep_view(), s@[i as int].other.deep_view()),
                have == out.deep_view(),
                k <= out@.len(),
                seen ==> have.contains(x),
                !seen ==> forall|j: int| 0 <= j < k ==> have[j] != x,
            decreases out@.len() - k,
        {
            let o: &(Option<String>, Option<String>) = &out[k];
            assert(have[k as int] == (o.0.deep_view(), o.1.deep_view()));
            if opt_text_eq(&o.0, &s[i].key) && opt_text_eq(&o.1, &s[i].other) {
                seen = true;
            }
            k = k + 1;
        }
        if !seen {
            push_item(
                &mut out,
                (crate::json::copy_opt(&s[i].key), crate::json::copy_opt(&s[i].other)),
            );
        }
        i = i + 1;
    }
    proof {
        take_all(want);
    }
    out
}

/// The sightings' endpoints, each once.
fn endpoint_keys(s: &Vec<Sighting>) -> (r: Vec<Option<String>>)
    ensures
        r.deep_view() == uniques(Seq::new(s.deep_view().len(), |i: int| s.deep_view()[i].key)),
{
    let ghost want = Seq::new(s.deep_view().len(), |i: int| s.deep_view()[i].key);
    let mut keys: Vec<Option<String>> = Vec::new();
    let mut i: usize = 0;
    assert(keys.deep_view() =~= want.take(0));
    while i < s.len()
        invariant
            want == Seq::new(s.deep_view().len(), |i: int| s.deep_view()[i].key),
            i <= s@.len(),
            keys.deep_view() == want.take(i as int),
        decreases s@.len() - i,
    {
        push_item(&mut keys, crate::json::copy_opt(&s[i].key));
        assert(want.take(i as int).push(want[i as int]) =~= want.take(i + 1));
        i = i + 1;
    }
    proof {
        take_all(want);
    }
    crate::store_query::unique_opts(&keys)
}

/// The earliest sighting of a program, or of an endpoint, and their number.
fn tally_sightings(s: &Vec<Sighting>, key: &Option<String>, other: Option<&Option<String>>) -> (r: (
    Option<i64>,
    u64,
))
    ensures
        ({
            let p = match other {
                Some(o) => is_program(key.deep_view(), o.deep_view()),
                None => is_endpoint(key.deep_view()),
            };
            r.0 == first_sighting(s.deep_view(), p) && r.1 == count_where(s.deep_view(), p)
        }),
{
    let ghost all = s.deep_view();
    let ghost p = match other {
        Some(o) => is_program(key.deep_view(), o.deep_view()),
        None => is_endpoint(key.deep_view()),
    };
    let mut first: Option<i64> = None;
    let mut n: u64 = 0;
    let mut i: usize = 0;
    while i < s.len()
        invariant
            all == s.deep_view(),
            p == match other {
                Some(o) => is_program(key.deep_view(), o.deep_view()),
                None => is_endpoint(key.deep_view()),
            },
            i <= s@.len(),
            first == first_sighting(all.take(i as int), p),
            n == count_where(all.take(i as int), p),
        decreases s@.len() - i,
    {
        proof {
            count_where_step(all, p, i as int);
            assert(all.take(i + 1).drop_last() =~= all.take(i as int));
            assert(all.take(i + 1).last() == s@[i as int].deep_view());
        }
        let hit: bool = opt_text_eq(&s[i].key, key) && match other {
            Some(o) => opt_text_eq(&s[i].other, o),
            None => true,
        };
        if hit {
            let at: i64 = s[i].at;
            first = match first {
                Some(t) => Some(
                    if t <= at {
                        t
                    } else {
                        at
                    },
                ),
                None => Some(at),
            };
            n = n + 1;
        }
        i = i + 1;
    }
    proof {
        take_all(all);
    }
    (first, n)
}

/// The last in text order of what goes with the sightings of an endpoint.
fn pick_example(s: &Vec<Sighting>, key: &Option<String>) -> (r: Option<String>)
    ensures
        r.deep_view() == last_example(s.deep_view(), key.deep_view()),
{
    let ghost all = s.deep_view();
    let mut best: Option<String> = None;
    let mut i: usize = 0;
    while i < s.len()
        invariant
            all == s.deep_view(),
            i <= s@.len(),
            best.deep_view() == last_example(all.take(i as int), key.deep_view()),
        decreases s@.len() - i,
    {
        proof {
            assert(all.take(i + 1).drop_last() =~= all.take(i as int));
            assert(all.take(i + 1).last() == s@[i as int].deep_view());
        }
        if opt_text_eq(&s[i].key, key) {
            match &s[i].other {
                Some(x) => {
                    let better: bool = match &best {
                        Some(y) => text_before(y.as_str(), x.as_str()),
                        None => true,
                    };
                    if better {
                        best = Some(x.clone());
                    }
                },
                None => {},
            }
        }
        i = i + 1;
    }
    proof {
        take_all(all);
    }
    best
}

/// The new programs of a table.
fn list_new_programs(nodes: &Vec<NodeRow>, from: i64) -> (r: Vec<NewProcessIdentity>)
    ensures
        r.deep_view() == new_programs(nodes.deep_view(), from),
{
    let s = read_programs(nodes);
    let keys_of = program_keys(&s);
    let ghost sv = s.deep_view();
    let ghost kv = keys_of.deep_view();
    let ghost f = new_program(sv, from);
    let mut out: Vec<NewProcessIdentity> = Vec::new();
    let mut keys: Vec<i128> = Vec::new();
    let mut i: usize = 0;
    proof {
        filter_map_start(kv, f);
        assert(out.deep_view() =~= Seq::<NewProcessIdentityView>::empty());
    }
    while i < keys_of.len()
        invariant
            sv == s.deep_view(),
            kv == keys_of.deep_view(),
            f == new_program(sv, from),
            i <= keys_of@.len(),
            keyed(out.deep_view(), program_age(), keys@),
            out.deep_view() == sort_by_key(kv.take(i as int).filter_map(f), program_age()),
        decreases keys_of@.len() - i,
    {
        proof {
            filter_map_step(kv, f, i as int);
        }
        let k: &(Option<String>, Option<String>) = &keys_of[i];
        assert(kv[i as int] == (k.0.deep_view(), k.1.deep_view()));
        let (first, n) = tally_sightings(&s, &k.0, Some(&k.1));
        match first {
            Some(t) => {
                if t >= from && (k.0.is_some() || k.1.is_some()) {
                    let row = NewProcessIdentity {
                        comm: crate::json::copy_opt(&k.0),
                        exec_path: crate::json::copy_opt(&k.1),
                        first_seen_unix_ns: t,
                        instances: #[verifier::truncate] (n as u32),
                    };
                    let ghost g = kv.take(i as int).filter_map(f);
                    assert(g.push(row.deep_view()).drop_last() =~= g);
                    insert_row(&mut out, &mut keys, row, t as i128, Ghost(program_age()));
                }
            },
            None => {},
        }
        i = i + 1;
    }
    proof {
        take_all(kv);
    }
    let ghost sorted = out.deep_view();
    if NOVELTY_CAP_PER_KIND < out.len() {
        out.truncate(NOVELTY_CAP_PER_KIND);
        assert(out.deep_view() =~= sorted.take(NOVELTY_CAP_PER_KIND as int));
    }
    out
}

/// The new endpoints of a table.
fn list_new_endpoints(nodes: &Vec<NodeRow>, from: i64) -> (r: Vec<NewEndpoint>)
    ensures
        r.deep_view() == new_endpoints(nodes.deep_view(), from),
{
    let s = read_endpoints(nodes);
    let keys_of = endpoint_keys(&s);
    let ghost sv = s.deep_view();
    let ghost kv = keys_of.deep_view();
    let ghost f = new_endpoint(sv, from);
    let mut out: Vec<NewEndpoint> = Vec::new();
    let mut keys: Vec<i128> = Vec::new();
    let mut i: usize = 0;
    proof {
        filter_map_start(kv, f);
        assert(out.deep_view() =~= Seq::<NewEndpointView>::empty());
    }
    while i < keys_of.len()
        invariant
            sv == s.deep_view(),
            kv == keys_of.deep_view(),
            f == new_endpoint(sv, from),
            i <= keys_of@.len(),
            keyed(out.deep_view(), endpoint_age(), keys@),
            out.deep_view() == sort_by_key(kv.take(i as int).filter_map(f), endpoint_age()),
        decreases keys_of@.len() - i,
    {
        proof {
            filter_map_step(kv, f, i as int);
        }
        let k: &Option<String> = &keys_of[i];
        assert(kv[i as int] == k.deep_view());
        let (first, n) = tally_sightings(&s, k, None);
        match (k, first) {
            (Some(addr), Some(t)) => {
                if t >= from {
                    let row = NewEndpoint {
                        foreign_addr: addr.clone(),
                        example_process: pick_example(&s, k),
                        first_seen_unix_ns: t,
                        socket_count: #[verifier::truncate] (n as u32),
                    };
                    let ghost g = kv.take(i as int).filter_map(f);
                    assert(g.push(row.deep_view()).drop_last() =~= g);
                    insert_row(&mut out, &mut keys, row, t as i128, Ghost(endpoint_age()));
                }
            },
            _ => {},
        }
        i = i + 1;
    }
    proof {
        take_all(kv);
    }
    let ghost sorted = out.deep_view();
    if NOVELTY_CAP_PER_KIND < out.len() {
        out.truncate(NOVELTY_CAP_PER_KIND);
        assert(out.deep_view() =~= sorted.take(NOVELTY_CAP_PER_KIND as int));
    }
    out
}

impl Store {
    /// What was never observed before `from_unix_ns`: programs, names,
    /// endpoints and applications whose earliest sighting is at or after it,
    /// oldest first, each list held to `NOVELTY_CAP_PER_KIND` entries.
    pub fn novel_since(&self, from_unix_ns: i64) -> (r: Result<NoveltyReport, StoreError>)
        ensures
            r is Ok,
            r->Ok_0.new_processes.deep_view() == new_programs(self@.nodes, from_unix_ns),
            r->Ok_0.new_domains.deep_view() == new_domains(self@.nodes, from_unix_ns),
            r->Ok_0.new_endpoints.deep_view() == new_endpoints(self@.nodes, from_unix_ns),
            r->Ok_0.new_apps.deep_view() == new_apps(self@.nodes, from_unix_ns),
            r->Ok_0.oldest_first_seen_unix_ns == earliest(self@.nodes),
    {
        let fresh = read_fresh(&self.nodes, from_unix_ns, false);
        let ghost want = new_domains(self@.nodes, from_unix_ns);
        let mut domains: Vec<String> = Vec::new();
        let mut i: usize = 0;
        assert(domains.deep_view() =~= want.take(0));
        while i < fresh.len()
            invariant
                want == Seq::new(fresh.deep_view().len(), |i: int| fresh.deep_view()[i].key->0),
                fresh.deep_view() == first_n(
                    sort_by_key(self@.nodes.filter_map(see_domain(from_unix_ns)), sighting_age()),
                    NOVELTY_CAP_PER_KIND as int,
                ),
                i <= fresh@.len(),
                domains.deep_view() == want.take(i as int),
            decreases fresh@.len() - i,
        {
            let name: String = match &fresh[i].key {
                Some(k) => k.clone(),
                None => {
                    proof {
                        fresh_is_named(self@.nodes, from_unix_ns, false, i as int);
                    }
                    String::new()
                },
            };
            push_item(&mut domains, name);
            assert(want.take(i as int).push(want[i as int]) =~= want.take(i + 1));
            i = i + 1;
        }
        proof {
            take_all(want);
        }
        let fresh = read_fresh(&self.nodes, from_unix_ns, true);
        let ghost want = new_apps(self@.nodes, from_unix_ns);
        let mut apps: Vec<NewApp> = Vec::new();
        let mut i: usize = 0;
        assert(apps.deep_view() =~= want.take(0));
        while i < fresh.len()
            invariant
                want == Seq::new(
                    fresh.deep_view().len(),
                    |i: int|
                        NewAppView {
                            id: fresh.deep_view()[i].key->0,
                            name: fresh.deep_view()[i].other,
                        },
                ),
                fresh.deep_view() == first_n(
                    sort_by_key(self@.nodes.filter_map(see_app(from_unix_ns)), sighting_age()),
                    NOVELTY_CAP_PER_KIND as int,
                ),
                i <= fresh@.len(),
                apps.deep_view() == want.take(i as int),
            decreases fresh@.len() - i,
        {
            let id: String = match &fresh[i].key {
                Some(k) => k.clone(),
                None => {
                    proof {
                        fresh_is_named(self@.nodes, from_unix_ns, true, i as int);
                    }
                    String::new()
                },
            };
            push_item(&mut apps, NewApp { id, name: crate::json::copy_opt(&fresh[i].other) });
            assert(want.take(i as int).push(want[i as int]) =~= want.take(i + 1));
            i = i + 1;
        }
        proof {
            take_all(want);
        }
        Ok(
            NoveltyReport {
                new_processes: list_new_programs(&self.nodes, from_unix_ns),
                new_domains: domains,
                new_endpoints: list_new_endpoints(&self.nodes, from_unix_ns),
                new_apps: apps,
                oldest_first_seen_unix_ns: node_span(&self.nodes).0,
            },
        )
    }
}

/// A fresh name or application carries its id.
proof fn fresh_is_named(nodes: Seq<NodeRowView>, from: i64, apps: bool, i: int)
    ensures
        ({
            let f = if apps {
                see_app(from)
            } else {
                see_domain(from)
            };
            let s = first_n(
                sort_by_key(nodes.filter_map(f), sighting_age()),
                NOVELTY_CAP_PER_KIND as int,
            );
            0 <= i < s.len() ==> s[i].key is Some
        }),
{
    let f = if apps {
        see_app(from)
    } else {
        see_domain(from)
    };
    let hits = nodes.filter_map(f);
    let sorted = sort_by_key(hits, sighting_age());
    let s = first_n(sorted, NOVELTY_CAP_PER_KIND as int);
    if 0 <= i < s.len() {
        broadcast use vstd::seq_lib::group_to_multiset_ensures;

        crate::order::sort_by_key_sorts(hits, sighting_age());
        assert(sorted.to_multiset().contains(sorted[i]));
        assert(hits.contains(sorted[i]));
        nodes.lemma_filter_map_contains(f, sorted[i]);
        let r = choose|r: NodeRowView| nodes.contains(r) && #[trigger] f(r) == Some(sorted[i]);
        assert(f(r) == Some(sorted[i]));
    }
}

} // verus!
