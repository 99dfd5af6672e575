//! A window of events as a small set of facts.
//!
//! However long a window is, what is said of it is bounded by the number of
//! distinct things in it: the applications in front, the dominant programs,
//! remote ends, directories and name lookups, and what looks suspicious.

use vstd::prelude::*;
use vstd::string::*;

use crate::analytics::wrapped;
use crate::events::{Event, EventKind, EventView};
use crate::json::{copy_opt, Json, JsonView};
use crate::order::{first_n, insert_row, keyed, sort_by_key};
use crate::seqs::{
    collect, convert, count_where, count_where_step, distinct_by, filter_map_from, filter_map_prefix, filter_map_start, filter_map_step, push_item, take_all,
    uniques, uniques_are_distinct, whole,
};
use crate::store_lineage::unique_texts;
use crate::tally::{
    by_amount, copy_pair, has_pair, insert_at_rank, keys_of, low_32, pair_keys, rank_texts, ranked,
    ranked_is_in_order, ranks_of, tally_pairs, tally_texts, totals, totals_are_distinct, wrapped32, Rank,
};
use crate::text::{chars_of, join_texts, joined, pieces, pieces_of, str_eq, string_of};

verus! {

/// How many programs are named.
pub const TOP_N_PROCESSES: usize = 8;

/// How many remote ends are named.
pub const TOP_N_ENDPOINTS: usize = 8;

/// How many directories are named.
pub const TOP_N_DIRECTORIES: usize = 6;

/// How many clients of name lookup are named.
pub const TOP_N_DNS_CLIENTS: usize = 6;

/// How many names a client is said to have looked up.
pub const DNS_EXAMPLE_NAMES: usize = 3;

/// Nanoseconds in a second.
pub const SECOND_NS: u64 = 1_000_000_000;

/// A span in which one application was in front.
#[derive(Debug)]
pub struct FocusSegment {
    pub app_name: String,
    pub bundle_id: Option<String>,
    pub started_secs: u64,
    pub duration_secs: u64,
}

/// What a `FocusSegment` holds.
pub struct FocusSegmentView {
    pub app_name: Seq<char>,
    pub bundle_id: Option<Seq<char>>,
    pub started_secs: u64,
    pub duration_secs: u64,
}

impl DeepView for FocusSegment {
    type V = FocusSegmentView;

    open spec fn deep_view(&self) -> FocusSegmentView {
        FocusSegmentView {
            app_name: self.app_name@,
            bundle_id: self.bundle_id.deep_view(),
            started_secs: self.started_secs,
            duration_secs: self.duration_secs,
        }
    }
}

impl Clone for FocusSegment {
    fn clone(&self) -> (r: Self)
        ensures
            r.deep_view() == self.deep_view(),
    {
        FocusSegment {
            app_name: self.app_name.clone(),
            bundle_id: copy_opt(&self.bundle_id),
            started_secs: self.started_secs,
            duration_secs: self.duration_secs,
        }
    }
}

/// How often a program was started.
#[derive(Debug)]
pub struct ProcessFact {
    pub comm: String,
    pub spawns: u32,
}

/// What a `ProcessFact` holds.
pub struct ProcessFactView {
    pub comm: Seq<char>,
    pub spawns: u32,
}

impl DeepView for ProcessFact {
    type V = ProcessFactView;

    open spec fn deep_view(&self) -> ProcessFactView {
        ProcessFactView { comm: self.comm@, spawns: self.spawns }
    }
}

/// How much a program exchanged with a remote end.
#[derive(Debug)]
pub struct EndpointFact {
    pub foreign_addr: String,
    pub process_name: String,
    pub bytes_total: u64,
    /// Opened in the window and not completed in it. The bytes of such a
    /// connection are those at its opening.
    pub still_open: bool,
}

/// What an `EndpointFact` holds.
pub struct EndpointFactView {
    pub foreign_addr: Seq<char>,
    pub process_name: Seq<char>,
    pub bytes_total: u64,
    pub still_open: bool,
}

impl DeepView for EndpointFact {
    type V = EndpointFactView;

    open spec fn deep_view(&self) -> EndpointFactView {
        EndpointFactView {
            foreign_addr: self.foreign_addr@,
            process_name: self.process_name@,
            bytes_total: self.bytes_total,
            still_open: self.still_open,
        }
    }
}

/// How many changes of files a directory saw.
#[derive(Debug)]
pub struct DirectoryFact {
    pub directory: String,
    pub file_changes: u32,
}

/// What a `DirectoryFact` holds.
pub struct DirectoryFactView {
    pub directory: Seq<char>,
    pub file_changes: u32,
}

impl DeepView for DirectoryFact {
    type V = DirectoryFactView;

    open spec fn deep_view(&self) -> DirectoryFactView {
        DirectoryFactView { directory: self.directory@, file_changes: self.file_changes }
    }
}

/// What a program looked up.
#[derive(Debug)]
pub struct DnsClientFact {
    pub process_name: String,
    pub unique_names: u32,
    pub total_queries: u32,
    /// Some of the names, where they were readable.
    pub example_names: Vec<String>,
}

/// What a `DnsClientFact` holds.
pub struct DnsClientFactView {
    pub process_name: Seq<char>,
    pub unique_names: u32,
    pub total_queries: u32,
    pub example_names: Seq<Seq<char>>,
}

impl DeepView for DnsClientFact {
    type V = DnsClientFactView;

    open spec fn deep_view(&self) -> DnsClientFactView {
        DnsClientFactView {
            process_name: self.process_name@,
            unique_names: self.unique_names,
            total_queries: self.total_queries,
            example_names: self.example_names.deep_view(),
        }
    }
}

/// Programs that run in the background all the time and would otherwise lead
/// every list.
pub open spec fn is_noisy(comm: Seq<char>) -> bool {
    comm == "mdworker_shared"@ || comm == "mdworker"@ || comm == "mds_stores"@ || comm == "mds"@
        || comm == "WindowServer"@ || comm == "loginwindow"@ || comm == "launchd"@ || comm
        == "syspolicyd"@ || comm == "notifyd"@ || comm == "distnoted"@
}

/// Whether a program runs in the background all the time.
pub fn noisy_comm(comm: &str) -> (r: bool)
    ensures
        r == is_noisy(comm@),
{
    str_eq(comm, "mdworker_shared") || str_eq(comm, "mdworker") || str_eq(comm, "mds_stores")
        || str_eq(comm, "mds") || str_eq(comm, "WindowServer") || str_eq(comm, "loginwindow")
        || str_eq(comm, "launchd") || str_eq(comm, "syspolicyd") || str_eq(comm, "notifyd")
        || str_eq(comm, "distnoted")
}

/// A text or a question mark.
pub open spec fn or_unknown(s: Option<Seq<char>>) -> Seq<char> {
    match s {
        Some(t) => t,
        None => "?"@,
    }
}

/// A text of a payload or a question mark.
pub(crate) fn text_or_unknown(p: &Json, key: &str) -> (r: String)
    ensures
        r@ == or_unknown(p@.str_at(key@)),
{
    match p.string_at(key) {
        Some(s) => s,
        None => "?".to_string(),
    }
}

/// A number or zero.
pub open spec fn or_zero(n: Option<u64>) -> u64 {
    match n {
        Some(k) => k,
        None => 0,
    }
}

/// A number or zero.
pub(crate) fn number_or_zero(n: Option<u64>) -> (r: u64)
    ensures
        r == or_zero(n),
{
    match n {
        Some(k) => k,
        None => 0,
    }
}

/// The names with the largest totals, the largest first, equal ones by name.
pub open spec fn top_texts(entries: Seq<(Seq<char>, u64)>, n: int) -> Seq<(Seq<char>, u64)> {
    first_n(ranked(totals(entries), by_amount()), n)
}

/// The names with the largest totals.
pub(crate) fn top_of_texts(entries: &Vec<(String, u64)>, n: usize) -> (r: Vec<(String, u64)>)
    ensures
        r.deep_view() == top_texts(entries.deep_view(), n as int),
{
    let mut out: Vec<(String, u64)> = rank_texts(&tally_texts(entries), true);
    let ghost all = out.deep_view();
    if out.len() > n {
        out.truncate(n);
        assert(out.deep_view() =~= all.take(n as int));
    }
    out
}

/// A start of a program worth naming.
pub open spec fn spawned() -> spec_fn(EventView) -> Option<(Seq<char>, u64)> {
    |e: EventView|
        match e.payload.str_at("comm"@) {
            Some(c) => if e.kind == EventKind::ProcessBirth && !is_noisy(c) {
                Some((c, 1u64))
            } else {
                None
            },
            None => None,
        }
}

/// The fact of a program and its starts.
pub open spec fn process_fact() -> spec_fn((Seq<char>, u64)) -> ProcessFactView {
    |e: (Seq<char>, u64)| ProcessFactView { comm: e.0, spawns: wrapped32(e.1 as int) }
}

/// The programs started most often.
pub open spec fn busiest(entries: Seq<(Seq<char>, u64)>) -> Seq<ProcessFactView> {
    top_texts(entries, TOP_N_PROCESSES as int).map_values(process_fact())
}

fn to_process_fact(e: &(String, u64)) -> (r: ProcessFact)
    ensures
        r.deep_view() == process_fact()(e.deep_view()),
{
    ProcessFact { comm: e.0.clone(), spawns: low_32(e.1) }
}

pub(crate) fn busiest_of(entries: &Vec<(String, u64)>) -> (r: Vec<ProcessFact>)
    ensures
        r.deep_view() == busiest(entries.deep_view()),
{
    let top: Vec<(String, u64)> = top_of_texts(entries, TOP_N_PROCESSES);
    convert(whole(&top), to_process_fact, Ghost(process_fact()))
}

fn spawn_of(e: &Event) -> (r: Option<(String, u64)>)
    ensures
        r.deep_view() == spawned()(e.deep_view()),
{
    match e.payload.string_at("comm") {
        Some(c) => if e.kind == EventKind::ProcessBirth && !noisy_comm(c.as_str()) {
            Some((c, 1))
        } else {
            None
        },
        None => None,
    }
}

/// The programs started most often, without those that always run.
pub fn top_processes(events: &[Event]) -> (r: Vec<ProcessFact>)
    ensures
        r.deep_view() == busiest(events.deep_view().filter_map(spawned())),
{
    busiest_of(&collect(events, spawn_of, Ghost(spawned())))
}

/// The remote end and the program of a connection event, with the bytes that
/// two of its fields hold.
pub open spec fn traffic(kind: EventKind, rx: Seq<char>, tx: Seq<char>) -> spec_fn(
    EventView,
) -> Option<((Seq<char>, Seq<char>), u64)> {
    |e: EventView|
        if e.kind == kind {
            Some(
                (
                    (
                        or_unknown(e.payload.str_at("foreign_addr"@)),
                        or_unknown(e.payload.str_at("process_name"@)),
                    ),
                    wrapped(or_zero(e.payload.u64_at(rx)) + or_zero(e.payload.u64_at(tx))),
                ),
            )
        } else {
            None
        }
}

/// The traffic of completed connections.
pub open spec fn completed() -> spec_fn(EventView) -> Option<((Seq<char>, Seq<char>), u64)> {
    traffic(EventKind::ConnectionCompleted, "bytes_rx"@, "bytes_tx"@)
}

/// The traffic of opened connections, at their opening.
pub open spec fn opened() -> spec_fn(EventView) -> Option<((Seq<char>, Seq<char>), u64)> {
    traffic(EventKind::ConnectionOpened, "rxbytes"@, "txbytes"@)
}

/// An entry whose remote end and program are not among the given.
pub open spec fn unless_in(done: Seq<(Seq<char>, Seq<char>)>) -> spec_fn(
    ((Seq<char>, Seq<char>), u64),
) -> Option<((Seq<char>, Seq<char>), u64)> {
    |e: ((Seq<char>, Seq<char>), u64)|
        if done.contains(e.0) {
            None
        } else {
            Some(e)
        }
}

/// The fact of a remote end, a program and their bytes.
pub open spec fn endpoint_fact(still_open: bool) -> spec_fn(
    ((Seq<char>, Seq<char>), u64),
) -> EndpointFactView {
    |e: ((Seq<char>, Seq<char>), u64)|
        EndpointFactView {
            foreign_addr: e.0.0,
            process_name: e.0.1,
            bytes_total: e.1,
            still_open,
        }
}

/// Remote ends are ordered by their bytes, most first.
pub open spec fn most_bytes() -> spec_fn(EndpointFactView) -> int {
    |e: EndpointFactView| -(e.bytes_total as int)
}

/// A fact of a connection that is still open.
pub open spec fn if_open() -> spec_fn(EndpointFactView) -> Option<EndpointFactView> {
    |e: EndpointFactView|
        if e.still_open {
            Some(e)
        } else {
            None
        }
}

/// The remote ends of a window: those of completed connections with all their
/// bytes, and those of connections that were only opened.
pub open spec fn endpoints_of(events: Seq<EventView>) -> Seq<EndpointFactView> {
    let done = events.filter_map(completed());
    let open = events.filter_map(opened()).filter_map(unless_in(keys_of(done)));
    totals(done).map_values(endpoint_fact(false)) + totals(open).map_values(endpoint_fact(true))
}

/// The remote ends with the most bytes, and up to two more that are still
/// open, which would vanish behind them.
pub open spec fn leading_endpoints(all: Seq<EndpointFactView>) -> Seq<EndpointFactView> {
    let order = sort_by_key(all, most_bytes());
    if order.len() > TOP_N_ENDPOINTS {
        order.take(TOP_N_ENDPOINTS as int) + first_n(
            order.skip(TOP_N_ENDPOINTS as int).filter_map(if_open()),
            2,
        )
    } else {
        order
    }
}

fn traffic_of(e: &Event, kind: EventKind, rx: &str, tx: &str) -> (r: Option<
    ((String, String), u64),
>)
    ensures
        r.deep_view() == traffic(kind, rx@, tx@)(e.deep_view()),
{
    if e.kind != kind {
        return None;
    }
    let p: &Json = &e.payload;
    let bytes: u64 = number_or_zero(p.u64_at(rx)).wrapping_add(number_or_zero(p.u64_at(tx)));
    Some(((text_or_unknown(p, "foreign_addr"), text_or_unknown(p, "process_name")), bytes))
}

fn completed_of(e: &Event) -> (r: Option<((String, String), u64)>)
    ensures
        r.deep_view() == completed()(e.deep_view()),
{
    traffic_of(e, EventKind::ConnectionCompleted, "bytes_rx", "bytes_tx")
}

fn opened_of(e: &Event) -> (r: Option<((String, String), u64)>)
    ensures
        r.deep_view() == opened()(e.deep_view()),
{
    traffic_of(e, EventKind::ConnectionOpened, "rxbytes", "txbytes")
}

fn to_endpoint(e: &((String, String), u64), still_open: bool) -> (r: EndpointFact)
    ensures
        r.deep_view() == endpoint_fact(still_open)(e.deep_view()),
{
    EndpointFact {
        foreign_addr: e.0.0.clone(),
        process_name: e.0.1.clone(),
        bytes_total: e.1,
        still_open,
    }
}

fn without_keys(entries: &Vec<((String, String), u64)>, done: &Vec<(String, String)>) -> (r: Vec<
    ((String, String), u64),
>)
    ensures
        r.deep_view() == entries.deep_view().filter_map(unless_in(done.deep_view())),
{
    let ghost all = entries.deep_view();
    let ghost g = unless_in(done.deep_view());
    let mut out: Vec<((String, String), u64)> = Vec::new();
    let mut i: usize = 0;
    proof {
        filter_map_start(all, g);
        assert(out.deep_view() =~= Seq::<((Seq<char>, Seq<char>), u64)>::empty());
    }
    while i < entries.len()
        invariant
            all == entries.deep_view(),
            g == unless_in(done.deep_view()),
            i <= entries@.len(),
            out.deep_view() == all.take(i as int).filter_map(g),
        decreases entries@.len() - i,
    {
        assert(all[i as int] == entries@[i as int].deep_view());
        proof {
            filter_map_step(all, g, i as int);
        }
        if !has_pair(done, &entries[i].0) {
            push_item(&mut out, (copy_pair(&entries[i].0), entries[i].1));
        }
        i = i + 1;
    }
    proof {
        take_all(all);
    }
    out
}

/// Puts entries among the remote ends ordered by their bytes.
pub(crate) fn place_endpoints(
    out: &mut Vec<EndpointFact>,
    keys: &mut Vec<i128>,
    entries: &Vec<((String, String), u64)>,
    still_open: bool,
    Ghost(before): Ghost<Seq<EndpointFactView>>,
)
    requires
        old(out).deep_view() == sort_by_key(before, most_bytes()),
        keyed(old(out).deep_view(), most_bytes(), old(keys)@),
    ensures
        final(out).deep_view() == sort_by_key(
            before + entries.deep_view().map_values(endpoint_fact(still_open)),
            most_bytes(),
        ),
        keyed(final(out).deep_view(), most_bytes(), final(keys)@),
{
    let ghost more = entries.deep_view().map_values(endpoint_fact(still_open));
    let mut i: usize = 0;
    assert(before + more.take(0) =~= before);
    while i < entries.len()
        invariant
            more == entries.deep_view().map_values(endpoint_fact(still_open)),
            i <= entries@.len(),
            out.deep_view() == sort_by_key(before + more.take(i as int), most_bytes()),
            keyed(out.deep_view(), most_bytes(), keys@),
        decreases entries@.len() - i,
    {
        let row = to_endpoint(&entries[i], still_open);
        assert(row.deep_view() == more[i as int]) by {
            assert(entries.deep_view()[i as int] == entries@[i as int].deep_view());
        }
        let k: i128 = -(entries[i].1 as i128);
        proof {
            let next = before + more.take(i + 1);
            assert(next.drop_last() =~= before + more.take(i as int));
            assert(next.last() == more[i as int]);
        }
        insert_row(out, keys, row, k, Ghost(most_bytes()));
        i = i + 1;
    }
    assert(more.take(more.len() as int) =~= more);
}

/// The remote ends with the most bytes, and what is still open behind them.
pub fn top_endpoints(events: &[Event]) -> (r: Vec<EndpointFact>)
    ensures
        r.deep_view() == leading_endpoints(endpoints_of(events.deep_view())),
{
    let done: Vec<((String, String), u64)> = collect(events, completed_of, Ghost(completed()));
    let opens: Vec<((String, String), u64)> = collect(events, opened_of, Ghost(opened()));
    let open: Vec<((String, String), u64)> = without_keys(&opens, &pair_keys(&done));
    let ghost first = totals(done.deep_view()).map_values(endpoint_fact(false));
    let ghost all = endpoints_of(events.deep_view());
    let mut out: Vec<EndpointFact> = Vec::new();
    let mut keys: Vec<i128> = Vec::new();
    assert(out.deep_view() =~= Seq::<EndpointFactView>::empty());
    place_endpoints(&mut out, &mut keys, &tally_pairs(&done), false, Ghost(Seq::empty()));
    assert(Seq::<EndpointFactView>::empty() + first =~= first);
    place_endpoints(&mut out, &mut keys, &tally_pairs(&open), true, Ghost(first));
    let ghost order = sort_by_key(all, most_bytes());
    assert(out.deep_view() == order);
    if out.len() <= TOP_N_ENDPOINTS {
        return out;
    }
    let ghost top = order.take(TOP_N_ENDPOINTS as int);
    let ghost rest = order.skip(TOP_N_ENDPOINTS as int);
    let behind: Vec<EndpointFact> = out.split_off(TOP_N_ENDPOINTS);
    assert(out.deep_view() =~= top);
    assert(behind.deep_view() =~= rest);
    let mut i: usize = 0;
    let mut added: usize = 0;
    let ghost g = if_open();
    proof {
        filter_map_start(rest, g);
        assert(top + Seq::<EndpointFactView>::empty() =~= top);
    }
    while i < behind.len() && added < 2
        invariant
            rest == behind.deep_view(),
            g == if_open(),
            i <= behind@.len(),
            added <= 2,
            added == rest.take(i as int).filter_map(g).len(),
            out.deep_view() == top + rest.take(i as int).filter_map(g),
        decreases behind@.len() - i,
    {
        proof {
            filter_map_step(rest, g, i as int);
        }
        assert(rest[i as int] == behind@[i as int].deep_view());
        let e: &EndpointFact = &behind[i];
        if e.still_open {
            push_item(
                &mut out,
                EndpointFact {
                    foreign_addr: e.foreign_addr.clone(),
                    process_name: e.process_name.clone(),
                    bytes_total: e.bytes_total,
                    still_open: true,
                },
            );
            added = added + 1;
            assert(top + rest.take(i as int).filter_map(g).push(rest[i as int]) =~= (top
                + rest.take(i as int).filter_map(g)).push(rest[i as int]));
        }
        i = i + 1;
    }
    proof {
        filter_map_prefix(rest, g, i as int);
        take_all(rest);
        let kept = rest.take(i as int).filter_map(g);
        if i < rest.len() {
            assert(first_n(rest.filter_map(g), 2) =~= kept);
        }
    }
    out
}

/// A piece of a path, unless it is empty.
pub open spec fn component() -> spec_fn(Seq<char>) -> Option<Seq<char>> {
    |c: Seq<char>|
        if c.len() > 0 {
            Some(c)
        } else {
            None
        }
}

/// The directory that a path counts for: its first four components. A path
/// without more is left as it is.
pub open spec fn bucket(path: Seq<char>) -> Seq<char> {
    let parts = pieces(path, '/').filter_map(component());
    if parts.len() > 4 {
        "/"@ + joined(parts.take(4), "/"@)
    } else {
        path
    }
}

fn component_of(c: &String) -> (r: Option<String>)
    ensures
        r.deep_view() == component()(c.deep_view()),
{
    if c.as_str().is_empty() {
        None
    } else {
        Some(c.clone())
    }
}

/// The directory that a path counts for: the first four components, so that
/// `/Users/me/Projects/agentworld/.git/FETCH_HEAD` counts for
/// `/Users/me/Projects/agentworld`.
pub fn directory_bucket(path: &str) -> (r: String)
    ensures
        r@ == bucket(path@),
{
    let all: Vec<String> = pieces_of(path, '/');
    let mut parts: Vec<String> = collect(whole(&all), component_of, Ghost(component()));
    let ghost kept = parts.deep_view();
    if parts.len() > 4 {
        parts.truncate(4);
        assert(parts.deep_view() =~= kept.take(4));
        let mut out = "/".to_string();
        out.append(join_texts(&parts, "/").as_str());
        out
    } else {
        path.to_string()
    }
}

/// A change of a file, counted for its directory.
pub open spec fn changed() -> spec_fn(EventView) -> Option<(Seq<char>, u64)> {
    |e: EventView|
        match e.payload.str_at("path"@) {
            Some(p) => if e.kind == EventKind::FileChanged {
                Some((bucket(p), 1u64))
            } else {
                None
            },
            None => None,
        }
}

/// The fact of a directory and its changes.
pub open spec fn directory_fact() -> spec_fn((Seq<char>, u64)) -> DirectoryFactView {
    |e: (Seq<char>, u64)| DirectoryFactView { directory: e.0, file_changes: wrapped32(e.1 as int) }
}

/// The directories with the most changes.
pub open spec fn liveliest(entries: Seq<(Seq<char>, u64)>) -> Seq<DirectoryFactView> {
    top_texts(entries, TOP_N_DIRECTORIES as int).map_values(directory_fact())
}

fn to_directory_fact(e: &(String, u64)) -> (r: DirectoryFact)
    ensures
        r.deep_view() == directory_fact()(e.deep_view()),
{
    DirectoryFact { directory: e.0.clone(), file_changes: low_32(e.1) }
}

pub(crate) fn liveliest_of(entries: &Vec<(String, u64)>) -> (r: Vec<DirectoryFact>)
    ensures
        r.deep_view() == liveliest(entries.deep_view()),
{
    let top: Vec<(String, u64)> = top_of_texts(entries, TOP_N_DIRECTORIES);
    convert(whole(&top), to_directory_fact, Ghost(directory_fact()))
}

fn change_of(e: &Event) -> (r: Option<(String, u64)>)
    ensures
        r.deep_view() == changed()(e.deep_view()),
{
    match e.payload.str_at("path") {
        Some(p) => if e.kind == EventKind::FileChanged {
            Some((directory_bucket(p), 1))
        } else {
            None
        },
        None => None,
    }
}

/// The directories with the most changes.
pub fn top_directories(events: &[Event]) -> (r: Vec<DirectoryFact>)
    ensures
        r.deep_view() == liveliest(events.deep_view().filter_map(changed())),
{
    liveliest_of(&collect(events, change_of, Ghost(changed())))
}

/// A text without the dots at its end.
pub open spec fn undotted(s: Seq<char>) -> Seq<char>
    decreases s.len(),
{
    if s.len() > 0 && s.last() == '.' {
        undotted(s.drop_last())
    } else {
        s
    }
}

/// A text without the dots at its end.
pub fn without_dots(s: &str) -> (r: String)
    ensures
        r@ == undotted(s@),
{
    let cs: Vec<char> = chars_of(s);
    let mut n: usize = cs.len();
    assert(s@.take(n as int) =~= s@);
    while n > 0 && cs[n - 1] == '.'
        invariant
            cs@ == s@,
            n <= cs@.len(),
            undotted(s@.take(n as int)) == undotted(s@),
        decreases n,
    {
        assert(s@.take(n as int).drop_last() =~= s@.take(n - 1));
        n = n - 1;
    }
    let r = string_of(cs.as_slice(), 0, n);
    assert(r@ =~= s@.take(n as int));
    r
}

/// A name lookup: who asked, the hash of the name, and the name itself where
/// it was readable.
pub struct Lookup {
    pub client: String,
    pub hash: Option<String>,
    pub name: Option<String>,
}

/// What a `Lookup` holds.
pub struct LookupView {
    pub client: Seq<char>,
    pub hash: Option<Seq<char>>,
    pub name: Option<Seq<char>>,
}

impl DeepView for Lookup {
    type V = LookupView;

    open spec fn deep_view(&self) -> LookupView {
        LookupView {
            client: self.client@,
            hash: self.hash.deep_view(),
            name: self.name.deep_view(),
        }
    }
}

/// A text, unless it is empty.
pub open spec fn unless_empty(s: Option<Seq<char>>) -> Option<Seq<char>> {
    match s {
        Some(t) => if t.len() > 0 {
            Some(t)
        } else {
            None
        },
        None => None,
    }
}

fn nonempty(s: Option<String>) -> (r: Option<String>)
    ensures
        r.deep_view() == unless_empty(s.deep_view()),
{
    match s {
        Some(t) => if t.as_str().is_empty() {
            None
        } else {
            Some(t)
        },
        None => None,
    }
}

/// The name of a lookup, where the event says that it is not masked.
pub open spec fn readable_name(p: JsonView) -> Option<Seq<char>> {
    if p.bool_at("masked"@) == Some(false) {
        match p.str_at("qname"@) {
            Some(q) => unless_empty(Some(undotted(q))),
            None => None,
        }
    } else {
        None
    }
}

/// The lookup of an event.
pub open spec fn looked_up() -> spec_fn(EventView) -> Option<LookupView> {
    |e: EventView|
        if e.kind == EventKind::DnsQuery {
            Some(
                LookupView {
                    client: or_unknown(e.payload.str_at("client_process_name"@)),
                    hash: unless_empty(e.payload.str_at("name_hash"@)),
                    name: readable_name(e.payload),
                },
            )
        } else {
            None
        }
}

/// Whether a lookup is by a client.
pub open spec fn asked_by(client: Seq<char>) -> spec_fn(LookupView) -> bool {
    |l: LookupView| l.client == client
}

/// The hash of a lookup by a client.
pub open spec fn hash_asked_by(client: Seq<char>) -> spec_fn(LookupView) -> Option<Seq<char>> {
    |l: LookupView|
        if l.client == client {
            l.hash
        } else {
            None
        }
}

/// The name of a lookup by a client.
pub open spec fn name_asked_by(client: Seq<char>) -> spec_fn(LookupView) -> Option<Seq<char>> {
    |l: LookupView|
        if l.client == client {
            l.name
        } else {
            None
        }
}

/// The clients of lookups.
pub open spec fn clients(ls: Seq<LookupView>) -> Seq<Seq<char>> {
    ls.map_values(|l: LookupView| l.client)
}

/// What a client looked up: different names, lookups, and the first readable
/// names.
pub open spec fn client_fact(ls: Seq<LookupView>) -> spec_fn(Seq<char>) -> DnsClientFactView {
    |c: Seq<char>|
        DnsClientFactView {
            process_name: c,
            unique_names: wrapped32(uniques(ls.filter_map(hash_asked_by(c))).len() as int),
            total_queries: wrapped32(count_where(ls, asked_by(c)) as int),
            example_names: first_n(
                uniques(ls.filter_map(name_asked_by(c))),
                DNS_EXAMPLE_NAMES as int,
            ),
        }
}

/// Clients are ranked by their different names, then by their lookups, then by
/// name.
pub open spec fn by_lookups() -> spec_fn(DnsClientFactView) -> (u64, u64, Seq<char>) {
    |f: DnsClientFactView| (f.unique_names as u64, f.total_queries as u64, f.process_name)
}

/// The clients that looked up the most names.
pub open spec fn leading_clients(ls: Seq<LookupView>) -> Seq<DnsClientFactView> {
    first_n(
        ranked(uniques(clients(ls)).map_values(client_fact(ls)), by_lookups()),
        TOP_N_DNS_CLIENTS as int,
    )
}

fn lookup_of(e: &Event) -> (r: Option<Lookup>)
    ensures
        r.deep_view() == looked_up()(e.deep_view()),
{
    if e.kind != EventKind::DnsQuery {
        return None;
    }
    let p: &Json = &e.payload;
    let masked: bool = match p.bool_at("masked") {
        Some(b) => b,
        None => true,
    };
    let name: Option<String> = if masked {
        None
    } else {
        match p.str_at("qname") {
            Some(q) => nonempty(Some(without_dots(q))),
            None => None,
        }
    };
    Some(
        Lookup {
            client: text_or_unknown(p, "client_process_name"),
            hash: nonempty(p.string_at("name_hash")),
            name,
        },
    )
}

fn client_of(l: &Lookup) -> (r: String)
    ensures
        r.deep_view() == (|l: LookupView| l.client)(l.deep_view()),
{
    l.client.clone()
}

fn fact_of_client(ls: &Vec<Lookup>, c: &str) -> (r: DnsClientFact)
    ensures
        r.deep_view() == client_fact(ls.deep_view())(c@),
{
    let ghost all = ls.deep_view();
    let ghost h = hash_asked_by(c@);
    let ghost g = name_asked_by(c@);
    let mut hashes: Vec<String> = Vec::new();
    let mut names: Vec<String> = Vec::new();
    let mut total: u64 = 0;
    let mut i: usize = 0;
    proof {
        filter_map_start(all, h);
        filter_map_start(all, g);
        assert(hashes.deep_view() =~= Seq::<Seq<char>>::empty());
        assert(names.deep_view() =~= Seq::<Seq<char>>::empty());
    }
    while i < ls.len()
        invariant
            all == ls.deep_view(),
            h == hash_asked_by(c@),
            g == name_asked_by(c@),
            i <= ls@.len(),
            hashes.deep_view() == all.take(i as int).filter_map(h),
            names.deep_view() == all.take(i as int).filter_map(g),
            total == count_where(all.take(i as int), asked_by(c@)),
            total <= i,
        decreases ls@.len() - i,
    {
        assert(all[i as int] == ls@[i as int].deep_view());
        proof {
            filter_map_step(all, h, i as int);
            filter_map_step(all, g, i as int);
            count_where_step(all, asked_by(c@), i as int);
        }
        if str_eq(ls[i].client.as_str(), c) {
            total = total + 1;
            match copy_opt(&ls[i].hash) {
                Some(x) => {
                    push_item(&mut hashes, x);
                },
                None => {},
            }
            match copy_opt(&ls[i].name) {
                Some(x) => {
                    push_item(&mut names, x);
                },
                None => {},
            }
        }
        i = i + 1;
    }
    proof {
        take_all(all);
    }
    let once: Vec<String> = unique_texts(&hashes);
    let mut examples: Vec<String> = unique_texts(&names);
    let ghost known = examples.deep_view();
    if examples.len() > DNS_EXAMPLE_NAMES {
        examples.truncate(DNS_EXAMPLE_NAMES);
        assert(examples.deep_view() =~= known.take(DNS_EXAMPLE_NAMES as int));
    }
    DnsClientFact {
        process_name: c.to_string(),
        unique_names: low_32(once.len() as u64),
        total_queries: low_32(total),
        example_names: examples,
    }
}

/// The clients that looked up the most names.
pub fn top_dns_clients(events: &[Event]) -> (r: Vec<DnsClientFact>)
    ensures
        r.deep_view() == leading_clients(events.deep_view().filter_map(looked_up())),
{
    let ls: Vec<Lookup> = collect(events, lookup_of, Ghost(looked_up()));
    let ghost all = ls.deep_view();
    let names: Vec<String> = convert(whole(&ls), client_of, Ghost(|l: LookupView| l.client));
    let once: Vec<String> = unique_texts(&names);
    let ghost who = uniques(clients(all));
    let ghost facts = who.map_values(client_fact(all));
    let mut out: Vec<DnsClientFact> = Vec::new();
    let mut ranks: Vec<Rank> = Vec::new();
    let mut i: usize = 0;
    assert(out.deep_view() =~= ranked(facts.take(0), by_lookups()));
    while i < once.len()
        invariant
            all == ls.deep_view(),
            who == once.deep_view(),
            facts == who.map_values(client_fact(all)),
            i <= once@.len(),
            out.deep_view() == ranked(facts.take(i as int), by_lookups()),
            ranks_of(out.deep_view(), by_lookups(), ranks.deep_view()),
        decreases once@.len() - i,
    {
        assert(facts.take(i + 1).drop_last() =~= facts.take(i as int));
        assert(who[i as int] == once@[i as int]@);
        let f = fact_of_client(&ls, once[i].as_str());
        let at = Rank {
            first: f.unique_names as u64,
            second: f.total_queries as u64,
            name: f.process_name.clone(),
        };
        insert_at_rank(&mut out, &mut ranks, f, at, Ghost(by_lookups()));
        i = i + 1;
    }
    proof {
        take_all(facts);
    }
    let ghost order = out.deep_view();
    if out.len() > TOP_N_DNS_CLIENTS {
        out.truncate(TOP_N_DNS_CLIENTS);
        assert(out.deep_view() =~= order.take(TOP_N_DNS_CLIENTS as int));
    }
    out
}

/// No background program leads a list of programs.
pub proof fn background_programs_are_not_named(events: Seq<EventView>, i: int)
    requires
        0 <= i < busiest(events.filter_map(spawned())).len(),
    ensures
        !is_noisy(busiest(events.filter_map(spawned()))[i].comm),
{
    broadcast use vstd::seq_lib::group_to_multiset_ensures;

    let entries = events.filter_map(spawned());
    let all = totals(entries);
    let order = ranked(all, by_amount());
    ranked_is_in_order(all, by_amount());
    let e = top_texts(entries, TOP_N_PROCESSES as int)[i];
    assert(e == order[i]);
    assert(order.to_multiset().contains(order[i]));
    assert(all.to_multiset().contains(e));
    assert(all.contains(e));
    totals_are_distinct(entries);
    let k = choose|k: int| 0 <= k < all.len() && all[k] == e;
    assert(keys_of(all)[k] == e.0);
    uniques_are_distinct(keys_of(entries));
    assert(uniques(keys_of(entries))[k] == e.0);
    assert(uniques(keys_of(entries)).contains(e.0));
    assert(keys_of(entries).contains(e.0));
    let m = choose|m: int| 0 <= m < keys_of(entries).len() && keys_of(entries)[m] == e.0;
    assert(entries[m].0 == e.0);
    filter_map_from(events, spawned(), m);
}

/// A program and a remote end are told once: those with a completed connection
/// are not told again as open.
pub proof fn endpoints_are_told_once(events: Seq<EventView>)
    ensures
        distinct_by(
            endpoints_of(events),
            |e: EndpointFactView| (e.foreign_addr, e.process_name),
        ),
{
    let done = events.filter_map(completed());
    let open = events.filter_map(opened()).filter_map(unless_in(keys_of(done)));
    let a = totals(done);
    let b = totals(open);
    totals_are_distinct(done);
    totals_are_distinct(open);
    uniques_are_distinct(keys_of(done));
    uniques_are_distinct(keys_of(open));
    let all = endpoints_of(events);
    let key = |e: EndpointFactView| (e.foreign_addr, e.process_name);
    assert forall|i: int, j: int| 0 <= i < j < all.len() implies key(#[trigger] all[i]) != key(
        #[trigger] all[j],
    ) by {
        if j < a.len() {
            assert(keys_of(a)[i] != keys_of(a)[j]);
        } else if i >= a.len() {
            assert(keys_of(b)[i - a.len()] != keys_of(b)[j - a.len()]);
        } else {
            let y = keys_of(b)[j - a.len()];
            assert(key(all[j]) == y);
            assert(uniques(keys_of(open)).contains(y));
            assert(keys_of(open).contains(y));
            let m = choose|m: int| 0 <= m < keys_of(open).len() && keys_of(open)[m] == y;
            filter_map_from(events.filter_map(opened()), unless_in(keys_of(done)), m);
            assert(!keys_of(done).contains(y));
            let x = keys_of(a)[i];
            assert(key(all[i]) == x);
            assert(uniques(keys_of(done)).contains(x));
            assert(keys_of(done).contains(x));
        }
    }
}

/// A name reaches the facts only where its event says that it is not masked.
pub proof fn named_lookups_are_readable(events: Seq<EventView>, c: Seq<char>, i: int)
    requires
        0 <= i < client_fact(events.filter_map(looked_up()))(c).example_names.len(),
    ensures
        exists|k: int|
            0 <= k < events.len() && (#[trigger] events[k]).payload.bool_at("masked"@) == Some(false)
                && readable_name(events[k].payload) == Some(
                client_fact(events.filter_map(looked_up()))(c).example_names[i],
            ),
{
    let ls = events.filter_map(looked_up());
    let names = ls.filter_map(name_asked_by(c));
    let name = client_fact(ls)(c).example_names[i];
    uniques_are_distinct(names);
    assert(name == uniques(names)[i]);
    assert(uniques(names).contains(name));
    assert(names.contains(name));
    let m = choose|m: int| 0 <= m < names.len() && names[m] == name;
    filter_map_from(ls, name_asked_by(c), m);
    let q = choose|q: int| 0 <= q < ls.len() && name_asked_by(c)(#[trigger] ls[q]) == Some(names[m]);
    filter_map_from(events, looked_up(), q);
    let k = choose|k: int| 0 <= k < events.len() && looked_up()(#[trigger] events[k]) == Some(ls[q]);
    assert(readable_name(events[k].payload) == Some(name));
}

} // verus!
