//! Asks a language model which processes are suspicious.
//!
//! Three questions pick the candidates: root processes under an ordinary
//! user's parent, programs from outside the trusted paths, and parents of
//! unusually many children. They grow with the number of interesting
//! processes, not with the length of a capture.

use vstd::prelude::*;
use vstd::string::*;

use crate::agents::{
    build_request, names_verdict_field_twice, opt_text_at, opt_text_of, or_text, parsed_reply,
    read_verdict, request_of, verdict_with, AgentConfig, Report, ReportView,
};
use crate::graph::{Edge, EdgeView, Graph, GraphView, ProcessId, ProcessNode, ProcessNodeView};
use crate::json::{copy_opt, opt_str, put, Json, JsonView};
use crate::json_parse::parse_json;
use crate::json_record::{record, record_of};
use crate::llm::{Format, GenerateRequest, GenerateResponse};
use crate::order::{first_n, insert_row, keyed, sort_by_key};
use crate::seqs::{
    chain, collect, convert, count_where, count_where_step, distinct, filter_map_start,
    filter_map_step, first_where, first_where_is_first, push_item, take_all, uniques,
    uniques_are_distinct, whole,
};
use crate::store::{Store, StoreError, StoreView};
use crate::store_lineage::{append_texts, by_children, live_parent, prolific};
use crate::store_load::loaded;
use crate::store_query::{escalated, opt_text_eq, outside, path_under_any, under_any, unique_u32};
use crate::tally::{low_32, wrapped32};
use crate::text::{decimal, flat, join_texts, joined, str_eq, trim, trim_text, u64_text, Parts};
use crate::timeline::or_unknown;

verus! {

/// From how many children on a parent counts as prolific.
pub const DEFAULT_PROLIFIC_PARENT_THRESHOLD: u32 = 8;

/// How many flags of one category are listed.
pub const MAX_FLAGS_PER_CATEGORY: usize = 6;

/// The paths whose programs are trusted on a stock machine. The prefix of the
/// usual package manager is among them, which would otherwise bury every other
/// signal.
pub const DEFAULT_TRUSTED_PATH_PREFIXES: [&'static str; 9] = [
    "/System/",
    "/usr/bin/",
    "/usr/sbin/",
    "/usr/libexec/",
    "/sbin/",
    "/bin/",
    "/Applications/",
    "/Library/Apple/",
    "/opt/homebrew/",
];

/// The paths whose programs are trusted on a stock machine.
pub open spec fn trusted_paths() -> Seq<Seq<char>> {
    seq![
        "/System/"@,
        "/usr/bin/"@,
        "/usr/sbin/"@,
        "/usr/libexec/"@,
        "/sbin/"@,
        "/bin/"@,
        "/Applications/"@,
        "/Library/Apple/"@,
        "/opt/homebrew/"@,
    ]
}

/// The paths whose programs are trusted on a stock machine.
pub fn default_trusted_path_prefixes() -> (r: Vec<String>)
    ensures
        r.deep_view() == trusted_paths(),
{
    let prefixes = DEFAULT_TRUSTED_PATH_PREFIXES;
    let ghost all = trusted_paths();
    assert(prefixes.deep_view() =~= all);
    let mut v: Vec<String> = Vec::new();
    let mut i: usize = 0;
    assert(v.deep_view() =~= all.take(0));
    while i < 9
        invariant
            all.len() == 9,
            prefixes.deep_view() == all,
            i <= 9,
            v.deep_view() == all.take(i as int),
        decreases 9 - i,
    {
        assert(all[i as int] == prefixes@[i as int]@);
        push_item(&mut v, prefixes[i].to_string());
        assert(all.take(i + 1) =~= all.take(i as int).push(all[i as int]));
        i = i + 1;
    }
    assert(v.deep_view() =~= trusted_paths());
    v
}

/// A process that is suspicious. The severity is low, medium or high.
#[derive(Debug)]
pub struct AnomalyFinding {
    pub pid: u32,
    pub comm: Option<String>,
    pub exec_path: Option<String>,
    pub reason: String,
    pub severity: String,
}

/// What an `AnomalyFinding` holds.
pub struct AnomalyFindingView {
    pub pid: u32,
    pub comm: Option<Seq<char>>,
    pub exec_path: Option<Seq<char>>,
    pub reason: Seq<char>,
    pub severity: Seq<char>,
}

impl DeepView for AnomalyFinding {
    type V = AnomalyFindingView;

    open spec fn deep_view(&self) -> AnomalyFindingView {
        AnomalyFindingView {
            pid: self.pid,
            comm: self.comm.deep_view(),
            exec_path: self.exec_path.deep_view(),
            reason: self.reason@,
            severity: self.severity@,
        }
    }
}

impl Clone for AnomalyFinding {
    fn clone(&self) -> (r: Self)
        ensures
            r.deep_view() == self.deep_view(),
    {
        AnomalyFinding {
            pid: self.pid,
            comm: copy_opt(&self.comm),
            exec_path: copy_opt(&self.exec_path),
            reason: self.reason.clone(),
            severity: self.severity.clone(),
        }
    }
}

/// A process id: a number that fits in 32 bits.
pub open spec fn pid_of(j: JsonView) -> Option<u32> {
    match j.u64_at("pid"@) {
        Some(n) => if n <= u32::MAX {
            Some(n as u32)
        } else {
            None
        },
        None => None,
    }
}

/// The fields of a finding.
pub open spec fn finding_names() -> Seq<Seq<char>> {
    seq!["pid"@, "comm"@, "exec_path"@, "reason"@, "severity"@]
}

/// The finding that a document writes, as an object or as a list.
pub open spec fn finding_of() -> spec_fn(JsonView) -> Option<AnomalyFindingView> {
    |j: JsonView| finding_in()(record(j, finding_names(), 5))
}

/// The finding that an object writes.
pub open spec fn finding_in() -> spec_fn(JsonView) -> Option<AnomalyFindingView> {
    |j: JsonView|
        match (
            pid_of(j),
            opt_text_of(j.get("comm"@)),
            opt_text_of(j.get("exec_path"@)),
            j.str_at("reason"@),
            j.str_at("severity"@),
        ) {
            (Some(pid), Some(comm), Some(exec_path), Some(reason), Some(severity)) => Some(
                AnomalyFindingView { pid, comm, exec_path, reason, severity },
            ),
            _ => None,
        }
}

fn read_finding(j: &Json) -> (r: Option<AnomalyFinding>)
    ensures
        r.deep_view() == finding_of()(j.deep_view()),
{
    match j {
        Json::Array(v) => {
            let list = ["pid", "comm", "exec_path", "reason", "severity"];
            let names: &[&str] = &list;
            assert(names.deep_view() =~= finding_names());
            assert(j@->Array_0 =~= v.deep_view());
            read_finding_fields(&record_of(v, names, 5))
        },
        _ => read_finding_fields(j),
    }
}

fn read_finding_fields(j: &Json) -> (r: Option<AnomalyFinding>)
    ensures
        r.deep_view() == finding_in()(j.deep_view()),
{
    let pid: u32 = match j.u64_at("pid") {
        Some(n) => if n <= 4_294_967_295 {
            n as u32
        } else {
            return None;
        },
        None => {
            return None;
        },
    };
    match (
        opt_text_at(j, "comm"),
        opt_text_at(j, "exec_path"),
        j.string_at("reason"),
        j.string_at("severity"),
    ) {
        (Some(comm), Some(exec_path), Some(reason), Some(severity)) => Some(
            AnomalyFinding { pid, comm, exec_path, reason, severity },
        ),
        _ => None,
    }
}

/// A finding as JSON.
pub open spec fn finding_json() -> spec_fn(AnomalyFindingView) -> JsonView {
    |f: AnomalyFindingView|
        JsonView::Object(
            seq![
                ("pid"@, JsonView::Int(f.pid as int)),
                ("comm"@, opt_str(f.comm)),
                ("exec_path"@, opt_str(f.exec_path)),
                ("reason"@, JsonView::Str(f.reason)),
                ("severity"@, JsonView::Str(f.severity)),
            ],
        )
}

fn finding_to_json(f: &AnomalyFinding) -> (r: Json)
    ensures
        r.deep_view() == finding_json()(f.deep_view()),
{
    let mut o: Vec<(String, Json)> = Vec::new();
    put(&mut o, "pid", Json::U64(f.pid as u64));
    put(&mut o, "comm", Json::opt_text(&f.comm));
    put(&mut o, "exec_path", Json::opt_text(&f.exec_path));
    put(&mut o, "reason", Json::text(f.reason.as_str()));
    put(&mut o, "severity", Json::text(f.severity.as_str()));
    assert(o.deep_view() =~= finding_json()(f.deep_view())->Object_0);
    Json::object(o)
}

/// Why a process is a candidate.
#[derive(Debug, Clone, Copy, PartialEq, Eq, PartialOrd, Ord, Structural)]
pub enum CandidateReason {
    RootUnderUserParent,
    PathOutsideTrusted,
    ProlificParent(u32),
}

impl DeepView for CandidateReason {
    type V = CandidateReason;

    open spec fn deep_view(&self) -> CandidateReason {
        *self
    }
}

impl CandidateReason {
    /// The tag of a reason.
    pub open spec fn spec_tag(self) -> Seq<char> {
        match self {
            CandidateReason::RootUnderUserParent => "root_under_user_parent"@,
            CandidateReason::PathOutsideTrusted => "path_outside_trusted"@,
            CandidateReason::ProlificParent(n) => flat(
                seq!["prolific_parent("@, decimal(n as nat), "_children)"@],
            ),
        }
    }

    /// The place of a reason among others.
    pub open spec fn place(self) -> int {
        match self {
            CandidateReason::RootUnderUserParent => 0,
            CandidateReason::PathOutsideTrusted => 1,
            CandidateReason::ProlificParent(n) => 2 + n as int,
        }
    }

    /// The tag of a reason.
    pub fn tag(self) -> (r: String)
        ensures
            r@ == self.spec_tag(),
    {
        match self {
            CandidateReason::RootUnderUserParent => "root_under_user_parent".to_string(),
            CandidateReason::PathOutsideTrusted => "path_outside_trusted".to_string(),
            CandidateReason::ProlificParent(n) => {
                let mut p = Parts::new();
                p.add("prolific_parent(");
                p.add_number(n as u64);
                p.add("_children)");
                p.finish()
            },
        }
    }
}

/// A process picked for a reason.
pub struct Pick {
    pub node: ProcessNode,
    pub reason: CandidateReason,
}

impl DeepView for Pick {
    type V = (ProcessNodeView, CandidateReason);

    open spec fn deep_view(&self) -> (ProcessNodeView, CandidateReason) {
        (self.node.deep_view(), self.reason)
    }
}

/// Whether a pick is of a process id.
pub open spec fn of_pid(pid: u32) -> spec_fn((ProcessNodeView, CandidateReason)) -> bool {
    |p: (ProcessNodeView, CandidateReason)| p.0.id.pid == pid
}

/// The reason of a pick of a process id.
pub open spec fn reason_of(pid: u32) -> spec_fn((ProcessNodeView, CandidateReason)) -> Option<
    CandidateReason,
> {
    |p: (ProcessNodeView, CandidateReason)|
        if p.0.id.pid == pid {
            Some(p.1)
        } else {
            None
        }
}

/// The process ids of picks.
pub open spec fn pids(picks: Seq<(ProcessNodeView, CandidateReason)>) -> Seq<u32> {
    picks.map_values(|p: (ProcessNodeView, CandidateReason)| p.0.id.pid)
}

/// Process ids in order.
pub open spec fn by_pid() -> spec_fn(u32) -> int {
    |p: u32| p as int
}

/// Reasons in order.
pub open spec fn by_place() -> spec_fn(CandidateReason) -> int {
    |c: CandidateReason| c.place()
}

/// The candidate of a process id: the process that was picked first, and every
/// reason for which one with the id was picked.
pub open spec fn candidate(picks: Seq<(ProcessNodeView, CandidateReason)>) -> spec_fn(u32) -> (
    ProcessNodeView,
    Seq<CandidateReason>,
) {
    |pid: u32|
        (
            picks[first_where(picks, of_pid(pid))->0].0,
            sort_by_key(uniques(picks.filter_map(reason_of(pid))), by_place()),
        )
}

/// The candidates of picks, by process id.
pub open spec fn candidates(picks: Seq<(ProcessNodeView, CandidateReason)>) -> Seq<
    (ProcessNodeView, Seq<CandidateReason>),
> {
    sort_by_key(uniques(pids(picks)), by_pid()).map_values(candidate(picks))
}

/// Whether a graph has the process with an identity.
pub open spec fn has_identity(g: GraphView, id: ProcessId) -> bool {
    exists|k: int| 0 <= k < g.processes.len() && (#[trigger] g.processes[k]).id == id
}

/// Whether a graph has the process with an identity, and it runs as an ordinary
/// user.
pub open spec fn is_of_user(g: GraphView, id: ProcessId) -> bool {
    exists|k: int|
        0 <= k < g.processes.len() && (#[trigger] g.processes[k]).id == id
            && g.processes[k].uid is Some && g.processes[k].uid->0 > 0
}

/// Whether an edge leads from a parent to a child that the graph has.
pub open spec fn from_parent(g: GraphView, id: ProcessId) -> spec_fn(EdgeView) -> bool {
    |e: EdgeView|
        match e {
            EdgeView::ParentOf { parent, child } => parent == id && has_identity(g, child),
            _ => false,
        }
}

/// How many children a process has.
pub open spec fn children_of(g: GraphView, id: ProcessId) -> nat {
    count_where(g.edges, from_parent(g, id))
}

/// Whether an edge leads to a child from a parent that runs as an ordinary user.
pub open spec fn from_user(g: GraphView, id: ProcessId) -> spec_fn(EdgeView) -> bool {
    |e: EdgeView|
        match e {
            EdgeView::ParentOf { parent, child } => child == id && is_of_user(g, parent),
            _ => false,
        }
}

/// Whether a process runs as root under the process of an ordinary user.
pub open spec fn is_escalated(g: GraphView, p: ProcessNodeView) -> bool {
    p.uid == Some(0u32) && exists|i: int|
        0 <= i < g.edges.len() && from_user(g, p.id)(#[trigger] g.edges[i])
}

/// Whether a process does not run from a trusted path.
pub open spec fn is_untrusted(p: ProcessNodeView, trusted: Seq<Seq<char>>) -> bool {
    match p.exec_path {
        Some(path) => !under_any(path, trusted),
        None => true,
    }
}

/// One pick, or none.
pub open spec fn pick_if(c: bool, p: ProcessNodeView, reason: CandidateReason) -> Seq<
    (ProcessNodeView, CandidateReason),
> {
    if c {
        seq![(p, reason)]
    } else {
        Seq::empty()
    }
}

/// What a process of a graph is picked for.
pub open spec fn picks_of(g: GraphView, trusted: Seq<Seq<char>>, threshold: u32) -> spec_fn(
    ProcessNodeView,
) -> Seq<(ProcessNodeView, CandidateReason)> {
    |p: ProcessNodeView|
        {
            let n = children_of(g, p.id);
            pick_if(is_escalated(g, p), p, CandidateReason::RootUnderUserParent) + pick_if(
                is_untrusted(p, trusted),
                p,
                CandidateReason::PathOutsideTrusted,
            ) + pick_if(
                n > 0 && wrapped32(n as int) >= threshold,
                p,
                CandidateReason::ProlificParent(wrapped32(n as int)),
            )
        }
}

fn pid_of_pick(p: &Pick) -> (r: u32)
    ensures
        r.deep_view() == (|p: (ProcessNodeView, CandidateReason)| p.0.id.pid)(p.deep_view()),
{
    p.node.id.pid
}

/// The process that was picked first, and the reasons, for a process id.
fn candidate_of(picks: &Vec<Pick>, pid: u32) -> (r: (ProcessNode, Vec<CandidateReason>))
    requires
        pids(picks.deep_view()).contains(pid),
    ensures
        r.deep_view() == candidate(picks.deep_view())(pid),
{
    let ghost all = picks.deep_view();
    let ghost g = reason_of(pid);
    let mut reasons: Vec<CandidateReason> = Vec::new();
    let mut first: usize = picks.len();
    let mut i: usize = 0;
    proof {
        filter_map_start(all, g);
        assert(reasons.deep_view() =~= Seq::<CandidateReason>::empty());
    }
    while i < picks.len()
        invariant
            all == picks.deep_view(),
            g == reason_of(pid),
            i <= picks@.len(),
            reasons.deep_view() == all.take(i as int).filter_map(g),
            first <= picks@.len(),
            first < picks@.len() ==> first < i && of_pid(pid)(all[first as int]),
            forall|k: int|
                0 <= k < i && k < first ==> !of_pid(pid)(#[trigger] all[k]),
        decreases picks@.len() - i,
    {
        assert(all[i as int] == picks@[i as int].deep_view());
        proof {
            filter_map_step(all, g, i as int);
        }
        if picks[i].node.id.pid == pid {
            push_item(&mut reasons, picks[i].reason);
            if first == picks.len() {
                first = i;
            }
        }
        i = i + 1;
    }
    proof {
        take_all(all);
        let k = choose|k: int| 0 <= k < pids(all).len() && pids(all)[k] == pid;
        assert(of_pid(pid)(all[k]));
        first_where_is_first(all, of_pid(pid));
        let f = first_where(all, of_pid(pid));
        assert(f is Some);
        assert(first < picks@.len());
        if f->0 < first {
            assert(!of_pid(pid)(all[f->0]));
        }
        if first < f->0 {
            assert(!of_pid(pid)(all[first as int]));
        }
        assert(all[first as int] == picks@[first as int].deep_view());
    }
    let once: Vec<CandidateReason> = unique_reasons(&reasons);
    let mut order: Vec<CandidateReason> = Vec::new();
    let mut keys: Vec<i128> = Vec::new();
    let ghost u = once.deep_view();
    let mut j: usize = 0;
    assert(order.deep_view() =~= sort_by_key(u.take(0), by_place()));
    while j < once.len()
        invariant
            u == once.deep_view(),
            j <= once@.len(),
            order.deep_view() == sort_by_key(u.take(j as int), by_place()),
            keyed(order.deep_view(), by_place(), keys@),
        decreases once@.len() - j,
    {
        assert(u.take(j + 1).drop_last() =~= u.take(j as int));
        assert(u[j as int] == once@[j as int]);
        let k: i128 = match once[j] {
            CandidateReason::RootUnderUserParent => 0,
            CandidateReason::PathOutsideTrusted => 1,
            CandidateReason::ProlificParent(n) => 2 + n as i128,
        };
        insert_row(&mut order, &mut keys, once[j], k, Ghost(by_place()));
        j = j + 1;
    }
    proof {
        take_all(u);
    }
    (picks[first].node.clone(), order)
}

fn same_reason(a: &CandidateReason, b: &CandidateReason) -> (r: bool)
    ensures
        r == (a.deep_view() == b.deep_view()),
{
    *a == *b
}

fn copy_reason(a: &CandidateReason) -> (r: CandidateReason)
    ensures
        r.deep_view() == a.deep_view(),
{
    *a
}

fn unique_reasons(v: &Vec<CandidateReason>) -> (r: Vec<CandidateReason>)
    ensures
        r.deep_view() == uniques(v.deep_view()),
{
    distinct(whole(v), same_reason, copy_reason)
}

/// The candidates of picks.
fn candidates_of(picks: &Vec<Pick>) -> (r: Vec<(ProcessNode, Vec<CandidateReason>)>)
    ensures
        r.deep_view() == candidates(picks.deep_view()),
{
    let ghost all = picks.deep_view();
    let ids: Vec<u32> = convert(
        whole(picks),
        pid_of_pick,
        Ghost(|p: (ProcessNodeView, CandidateReason)| p.0.id.pid),
    );
    assert(ids@ =~= pids(all)) by {
        assert(ids@ =~= ids.deep_view());
    }
    let once: Vec<u32> = unique_u32(&ids);
    let ghost u = uniques(pids(all));
    let mut order: Vec<u32> = Vec::new();
    let mut keys: Vec<i128> = Vec::new();
    let mut i: usize = 0;
    assert(order.deep_view() =~= sort_by_key(u.take(0), by_pid()));
    while i < once.len()
        invariant
            u == once@,
            i <= once@.len(),
            order.deep_view() == sort_by_key(u.take(i as int), by_pid()),
            keyed(order.deep_view(), by_pid(), keys@),
        decreases once@.len() - i,
    {
        assert(u.take(i + 1).drop_last() =~= u.take(i as int));
        let k: i128 = once[i] as i128;
        insert_row(&mut order, &mut keys, once[i], k, Ghost(by_pid()));
        i = i + 1;
    }
    let ghost sorted = sort_by_key(u, by_pid());
    proof {
        take_all(u);
        sorted_ids_are_picked(all);
        assert(order@ =~= order.deep_view());
    }
    let ghost want = candidates(all);
    let mut out: Vec<(ProcessNode, Vec<CandidateReason>)> = Vec::new();
    let mut j: usize = 0;
    assert(out.deep_view() =~= want.take(0));
    while j < order.len()
        invariant
            all == picks.deep_view(),
            sorted == order@,
            sorted == sort_by_key(uniques(pids(all)), by_pid()),
            forall|k: int| 0 <= k < sorted.len() ==> pids(all).contains(#[trigger] sorted[k]),
            want == candidates(all),
            j <= order@.len(),
            out.deep_view() == want.take(j as int),
        decreases order@.len() - j,
    {
        assert(pids(all).contains(sorted[j as int]));
        push_item(&mut out, candidate_of(picks, order[j]));
        assert(want.take(j + 1) =~= want.take(j as int).push(want[j as int]));
        j = j + 1;
    }
    assert(want.take(want.len() as int) =~= want);
    out
}

/// Every process id in order is one of a pick.
proof fn sorted_ids_are_picked(picks: Seq<(ProcessNodeView, CandidateReason)>)
    ensures
        forall|k: int|
            0 <= k < sort_by_key(uniques(pids(picks)), by_pid()).len() ==> pids(picks).contains(
                #[trigger] sort_by_key(uniques(pids(picks)), by_pid())[k],
            ),
{
    broadcast use vstd::seq_lib::group_to_multiset_ensures;

    let u = uniques(pids(picks));
    let s = sort_by_key(u, by_pid());
    uniques_are_distinct(pids(picks));
    crate::order::sort_by_key_sorts(u, by_pid());
    assert forall|k: int| 0 <= k < s.len() implies pids(picks).contains(#[trigger] s[k]) by {
        assert(s.to_multiset().contains(s[k]));
        assert(u.to_multiset().contains(s[k]));
        assert(u.contains(s[k]));
    }
}

/// Whether a graph has the process with an identity, and whether it runs as an
/// ordinary user.
fn look_up(graph: &Graph, id: ProcessId) -> (r: (bool, bool))
    ensures
        r.0 == has_identity(graph.deep_view(), id),
        r.1 == is_of_user(graph.deep_view(), id),
{
    let ghost all = graph.processes.deep_view();
    let mut known: bool = false;
    let mut user: bool = false;
    let mut i: usize = 0;
    while i < graph.processes.len()
        invariant
            all == graph.processes.deep_view(),
            i <= graph.processes@.len(),
            known == exists|k: int| 0 <= k < i && (#[trigger] all[k]).id == id,
            user == exists|k: int|
                0 <= k < i && (#[trigger] all[k]).id == id && all[k].uid is Some && all[k].uid->0
                    > 0,
        decreases graph.processes@.len() - i,
    {
        let p: &ProcessNode = &graph.processes[i];
        assert(all[i as int] == p.deep_view());
        if p.id == id {
            known = true;
            match p.uid {
                Some(u) => if u > 0 {
                    user = true;
                },
                None => {},
            }
        }
        i = i + 1;
    }
    (known, user)
}

fn count_children(graph: &Graph, id: ProcessId) -> (r: u64)
    ensures
        r == children_of(graph.deep_view(), id),
{
    let ghost all = graph.edges.deep_view();
    let ghost from = from_parent(graph.deep_view(), id);
    let mut n: u64 = 0;
    let mut i: usize = 0;
    while i < graph.edges.len()
        invariant
            all == graph.edges.deep_view(),
            from == from_parent(graph.deep_view(), id),
            i <= graph.edges@.len(),
            n <= i,
            n == count_where(all.take(i as int), from),
        decreases graph.edges@.len() - i,
    {
        assert(all[i as int] == graph.edges@[i as int].deep_view());
        proof {
            count_where_step(all, from, i as int);
        }
        match &graph.edges[i] {
            Edge::ParentOf { parent, child } => if *parent == id && look_up(graph, *child).0 {
                n = n + 1;
            },
            _ => {},
        }
        i = i + 1;
    }
    proof {
        take_all(all);
    }
    n
}

/// Whether the process with an identity has a parent that runs as an ordinary
/// user.
fn has_user_parent(graph: &Graph, id: ProcessId) -> (r: bool)
    ensures
        r == exists|i: int|
            0 <= i < graph.deep_view().edges.len() && from_user(graph.deep_view(), id)(
                #[trigger] graph.deep_view().edges[i],
            ),
{
    let ghost all = graph.edges.deep_view();
    let ghost from = from_user(graph.deep_view(), id);
    let mut i: usize = 0;
    while i < graph.edges.len()
        invariant
            all == graph.edges.deep_view(),
            from == from_user(graph.deep_view(), id),
            i <= graph.edges@.len(),
            forall|k: int| 0 <= k < i ==> !from(#[trigger] all[k]),
        decreases graph.edges@.len() - i,
    {
        assert(all[i as int] == graph.edges@[i as int].deep_view());
        match &graph.edges[i] {
            Edge::ParentOf { parent, child } => if *child == id && look_up(graph, *parent).1 {
                assert(from(graph.deep_view().edges[i as int]));
                return true;
            },
            _ => {},
        }
        i = i + 1;
    }
    false
}

/// Borrows texts as slices.
pub(crate) fn as_slices<'a>(v: &'a Vec<String>) -> (r: Vec<&'a str>)
    ensures
        r.deep_view() == v.deep_view(),
{
    let ghost all = v.deep_view();
    let mut out: Vec<&'a str> = Vec::new();
    let mut i: usize = 0;
    assert(out.deep_view() =~= all.take(0));
    while i < v.len()
        invariant
            all == v.deep_view(),
            i <= v@.len(),
            out.deep_view() == all.take(i as int),
        decreases v@.len() - i,
    {
        assert(all[i as int] == v@[i as int]@);
        push_item(&mut out, v[i].as_str());
        assert(all.take(i + 1) =~= all.take(i as int).push(all[i as int]));
        i = i + 1;
    }
    assert(all.take(all.len() as int) =~= all);
    out
}

fn picks_of_process(graph: &Graph, p: &ProcessNode, trusted: &[&str], threshold: u32) -> (r: Vec<
    Pick,
>)
    ensures
        r.deep_view() == picks_of(graph.deep_view(), trusted.deep_view(), threshold)(p.deep_view()),
{
    let ghost g = graph.deep_view();
    let ghost v = p.deep_view();
    let mut out: Vec<Pick> = Vec::new();
    let root: bool = match p.uid {
        Some(uid) => uid == 0 && has_user_parent(graph, p.id),
        None => false,
    };
    assert(root == is_escalated(g, v));
    if root {
        out.push(Pick { node: p.clone(), reason: CandidateReason::RootUnderUserParent });
    }
    let known: bool = match &p.exec_path {
        Some(path) => path_under_any(path.as_str(), trusted),
        None => false,
    };
    if !known {
        out.push(Pick { node: p.clone(), reason: CandidateReason::PathOutsideTrusted });
    }
    let n: u64 = count_children(graph, p.id);
    if n > 0 && low_32(n) >= threshold {
        out.push(Pick { node: p.clone(), reason: CandidateReason::ProlificParent(low_32(n)) });
    }
    assert(out.deep_view() =~= picks_of(g, trusted.deep_view(), threshold)(v));
    out
}

/// The candidates among the processes of a graph, by process id.
pub fn candidates_from_graph(
    graph: &Graph,
    trusted_prefixes: &Vec<String>,
    prolific_threshold: u32,
) -> (r: Vec<(ProcessNode, Vec<CandidateReason>)>)
    ensures
        r.deep_view() == candidates(
            chain(
                graph.deep_view().processes,
                picks_of(graph.deep_view(), trusted_prefixes.deep_view(), prolific_threshold),
            ),
        ),
{
    let trusted: Vec<&str> = as_slices(trusted_prefixes);
    let ghost all = graph.processes.deep_view();
    let ghost f = picks_of(graph.deep_view(), trusted_prefixes.deep_view(), prolific_threshold);
    let mut picks: Vec<Pick> = Vec::new();
    let mut i: usize = 0;
    assert(picks.deep_view() =~= chain(all.take(0), f));
    while i < graph.processes.len()
        invariant
            all == graph.processes.deep_view(),
            trusted.deep_view() == trusted_prefixes.deep_view(),
            f == picks_of(graph.deep_view(), trusted_prefixes.deep_view(), prolific_threshold),
            i <= graph.processes@.len(),
            picks.deep_view() == chain(all.take(i as int), f),
        decreases graph.processes@.len() - i,
    {
        assert(all[i as int] == graph.processes@[i as int].deep_view());
        assert(all.take(i + 1).drop_last() =~= all.take(i as int));
        let mut more: Vec<Pick> = picks_of_process(
            graph,
            &graph.processes[i],
            whole(&trusted),
            prolific_threshold,
        );
        let ghost a = picks.deep_view();
        let ghost b = more.deep_view();
        picks.append(&mut more);
        assert(picks.deep_view() =~= a + b);
        i = i + 1;
    }
    proof {
        take_all(all);
    }
    candidates_of(&picks)
}

/// A pick for a fixed reason.
pub open spec fn picked(reason: CandidateReason) -> spec_fn(ProcessNodeView) -> (
    ProcessNodeView,
    CandidateReason,
) {
    |p: ProcessNodeView| (p, reason)
}

/// A pick of a parent with its number of children.
pub open spec fn picked_parent() -> spec_fn((ProcessNodeView, u32)) -> (
    ProcessNodeView,
    CandidateReason,
) {
    |p: (ProcessNodeView, u32)| (p.0, CandidateReason::ProlificParent(p.1))
}

/// The root processes under an ordinary user's parent.
pub open spec fn roots_under_users(s: StoreView, since: i64) -> Seq<ProcessNodeView> {
    s.edges.filter_map(escalated(s.nodes, since))
}

/// The processes from outside the trusted paths.
pub open spec fn untrusted(s: StoreView, trusted: Seq<Seq<char>>, since: i64) -> Seq<
    ProcessNodeView,
> {
    s.nodes.filter_map(outside(trusted, since))
}

/// The parents of many children, with their number.
pub open spec fn prolific_parents(s: StoreView, threshold: u32, since: i64) -> Seq<
    (ProcessNodeView, u32),
> {
    let parents = s.edges.filter_map(live_parent(s.nodes, since));
    sort_by_key(uniques(parents), by_children(parents)).filter_map(
        prolific(s.nodes, parents, threshold),
    )
}

/// What the processes of a store are picked for.
pub open spec fn store_picks(s: StoreView, trusted: Seq<Seq<char>>, threshold: u32) -> Seq<
    (ProcessNodeView, CandidateReason),
> {
    roots_under_users(s, 0).map_values(picked(CandidateReason::RootUnderUserParent)) + untrusted(
        s,
        trusted,
        0,
    ).map_values(picked(CandidateReason::PathOutsideTrusted)) + prolific_parents(
        s,
        threshold,
        0,
    ).map_values(picked_parent())
}

fn pick_root(p: &ProcessNode) -> (r: Pick)
    ensures
        r.deep_view() == picked(CandidateReason::RootUnderUserParent)(p.deep_view()),
{
    Pick { node: p.clone(), reason: CandidateReason::RootUnderUserParent }
}

fn pick_untrusted(p: &ProcessNode) -> (r: Pick)
    ensures
        r.deep_view() == picked(CandidateReason::PathOutsideTrusted)(p.deep_view()),
{
    Pick { node: p.clone(), reason: CandidateReason::PathOutsideTrusted }
}

fn pick_parent(p: &(ProcessNode, u32)) -> (r: Pick)
    ensures
        r.deep_view() == picked_parent()(p.deep_view()),
{
    Pick { node: p.0.clone(), reason: CandidateReason::ProlificParent(p.1) }
}

/// The candidates among the processes of a store, by process id.
pub fn candidates_from_store(
    store: &Store,
    trusted_prefixes: &Vec<String>,
    prolific_threshold: u32,
) -> (r: Result<Vec<(ProcessNode, Vec<CandidateReason>)>, StoreError>)
    ensures
        r is Ok,
        r->Ok_0.deep_view() == candidates(
            store_picks(store@, trusted_prefixes.deep_view(), prolific_threshold),
        ),
{
    let trusted: Vec<&str> = as_slices(trusted_prefixes);
    let roots: Vec<ProcessNode> = match store.processes_root_under_user_parent(0) {
        Ok(v) => v,
        Err(e) => {
            return Err(e);
        },
    };
    let strangers: Vec<ProcessNode> = match store.processes_outside_paths(whole(&trusted), 0) {
        Ok(v) => v,
        Err(e) => {
            return Err(e);
        },
    };
    let parents: Vec<(ProcessNode, u32)> = match store.parents_with_many_children(
        prolific_threshold,
        0,
    ) {
        Ok(v) => v,
        Err(e) => {
            return Err(e);
        },
    };
    let mut picks: Vec<Pick> = convert(
        whole(&roots),
        pick_root,
        Ghost(picked(CandidateReason::RootUnderUserParent)),
    );
    let mut b: Vec<Pick> = convert(
        whole(&strangers),
        pick_untrusted,
        Ghost(picked(CandidateReason::PathOutsideTrusted)),
    );
    let mut c: Vec<Pick> = convert(whole(&parents), pick_parent, Ghost(picked_parent()));
    let ghost want = picks.deep_view() + b.deep_view() + c.deep_view();
    picks.append(&mut b);
    picks.append(&mut c);
    assert(picks.deep_view() =~= want);
    Ok(candidates_of(&picks))
}

/// A process id with a name.
pub open spec fn named_pid() -> spec_fn(ProcessNodeView) -> Option<(u32, Seq<char>)> {
    |p: ProcessNodeView|
        match p.comm {
            Some(c) => Some((p.id.pid, c)),
            None => None,
        }
}

/// The name that a list gives a process id last.
pub open spec fn name_of(names: Seq<(u32, Seq<char>)>, pid: u32) -> Option<Seq<char>>
    decreases names.len(),
{
    if names.len() == 0 {
        None
    } else if names.last().0 == pid {
        Some(names.last().1)
    } else {
        name_of(names.drop_last(), pid)
    }
}

/// A list of names with those of candidates that it lacks.
pub open spec fn names_with(
    names: Seq<(u32, Seq<char>)>,
    cs: Seq<(ProcessNodeView, Seq<CandidateReason>)>,
) -> Seq<(u32, Seq<char>)>
    decreases cs.len(),
{
    if cs.len() == 0 {
        names
    } else {
        let rest = names_with(names, cs.drop_last());
        let p = cs.last().0;
        match p.comm {
            Some(c) => if name_of(rest, p.id.pid) is None {
                rest.push((p.id.pid, c))
            } else {
                rest
            },
            None => rest,
        }
    }
}

fn named_pid_of(p: &ProcessNode) -> (r: Option<(u32, String)>)
    ensures
        r.deep_view() == named_pid()(p.deep_view()),
{
    match &p.comm {
        Some(c) => Some((p.id.pid, c.clone())),
        None => None,
    }
}

fn find_name<'a>(names: &'a Vec<(u32, String)>, pid: u32) -> (r: Option<&'a String>)
    ensures
        r.deep_view() == name_of(names.deep_view(), pid),
{
    let ghost all = names.deep_view();
    let mut n: usize = names.len();
    assert(all.take(n as int) =~= all);
    while n > 0
        invariant
            all == names.deep_view(),
            n <= names@.len(),
            name_of(all.take(n as int), pid) == name_of(all, pid),
        decreases n,
    {
        assert(all.take(n as int).drop_last() =~= all.take(n - 1));
        assert(all[n - 1] == names@[n - 1].deep_view());
        if names[n - 1].0 == pid {
            return Some(&names[n - 1].1);
        }
        n = n - 1;
    }
    None
}

/// The names of the processes of a graph by their ids.
pub fn build_parent_comm_lookup_from_graph(graph: &Graph) -> (r: Vec<(u32, String)>)
    ensures
        r.deep_view() == graph.deep_view().processes.filter_map(named_pid()),
{
    collect(whole(&graph.processes), named_pid_of, Ghost(named_pid()))
}

/// The names of the processes of a store by their ids, and of candidates that
/// it lacks.
pub fn build_parent_comm_lookup_from_store(
    store: &Store,
    candidates: &Vec<(ProcessNode, Vec<CandidateReason>)>,
) -> (r: Result<Vec<(u32, String)>, StoreError>)
    ensures
        r is Ok,
        r->Ok_0.deep_view() == names_with(
            loaded(store@).processes.filter_map(named_pid()),
            candidates.deep_view(),
        ),
{
    let g: Graph = match store.load_graph() {
        Ok(g) => g,
        Err(e) => {
            return Err(e);
        },
    };
    let mut names: Vec<(u32, String)> = build_parent_comm_lookup_from_graph(&g);
    let ghost first = names.deep_view();
    let ghost all = candidates.deep_view();
    let mut i: usize = 0;
    assert(all.take(0) =~= Seq::empty());
    while i < candidates.len()
        invariant
            all == candidates.deep_view(),
            i <= candidates@.len(),
            names.deep_view() == names_with(first, all.take(i as int)),
        decreases candidates@.len() - i,
    {
        assert(all[i as int] == candidates@[i as int].deep_view());
        assert(all.take(i + 1).drop_last() =~= all.take(i as int));
        let p: &ProcessNode = &candidates[i].0;
        match &p.comm {
            Some(c) => if find_name(&names, p.id.pid).is_none() {
                push_item(&mut names, (p.id.pid, c.clone()));
            },
            None => {},
        }
        i = i + 1;
    }
    proof {
        take_all(all);
    }
    Ok(names)
}

/// A number or a question mark.
pub open spec fn number_or_unknown(n: Option<u32>) -> Seq<char> {
    match n {
        Some(k) => decimal(k as nat),
        None => "?"@,
    }
}

fn number_text(n: Option<u32>) -> (r: String)
    ensures
        r@ == number_or_unknown(n),
{
    match n {
        Some(k) => u64_text(k as u64),
        None => "?".to_string(),
    }
}

fn text_or<'a>(s: &'a Option<String>, other: &'a str) -> (r: &'a str)
    ensures
        r@ == match s.deep_view() {
            Some(t) => t,
            None => other@,
        },
{
    match s {
        Some(t) => t.as_str(),
        None => other,
    }
}

/// The tag of a reason.
pub open spec fn tag_text() -> spec_fn(CandidateReason) -> Seq<char> {
    |c: CandidateReason| c.spec_tag()
}

fn tag_of(c: &CandidateReason) -> (r: String)
    ensures
        r.deep_view() == tag_text()(c.deep_view()),
{
    c.tag()
}

/// A candidate as a line.
pub open spec fn candidate_line(names: Seq<(u32, Seq<char>)>) -> spec_fn(
    (ProcessNodeView, Seq<CandidateReason>),
) -> Seq<char> {
    |c: (ProcessNodeView, Seq<CandidateReason>)|
        flat(
            seq![
                "pid="@,
                decimal(c.0.id.pid as nat),
                " comm="@,
                or_unknown(c.0.comm),
                " exec="@,
                or_unknown(c.0.exec_path),
                " ppid="@,
                number_or_unknown(c.0.ppid),
                " parent_comm="@,
                match c.0.ppid {
                    Some(pp) => or_unknown(name_of(names, pp)),
                    None => "?"@,
                },
                " uid="@,
                number_or_unknown(c.0.uid),
                " reasons=["@,
                joined(c.1.map_values(tag_text()), ","@),
                "]"@,
            ],
        )
}

fn line_of_candidate(c: &(ProcessNode, Vec<CandidateReason>), names: &Vec<(u32, String)>) -> (r:
    String)
    ensures
        r@ == candidate_line(names.deep_view())(c.deep_view()),
{
    let q: &ProcessNode = &c.0;
    let tags: Vec<String> = convert(whole(&c.1), tag_of, Ghost(tag_text()));
    let mut p = Parts::new();
    p.add("pid=");
    p.add_number(q.id.pid as u64);
    p.add(" comm=");
    p.add(text_or(&q.comm, "?"));
    p.add(" exec=");
    p.add(text_or(&q.exec_path, "?"));
    p.add(" ppid=");
    p.add(number_text(q.ppid).as_str());
    p.add(" parent_comm=");
    match q.ppid {
        Some(pp) => match find_name(names, pp) {
            Some(n) => {
                p.add(n.as_str());
            },
            None => {
                p.add("?");
            },
        },
        None => {
            p.add("?");
        },
    }
    p.add(" uid=");
    p.add(number_text(q.uid).as_str());
    p.add(" reasons=[");
    p.add(join_texts(&tags, ",").as_str());
    p.add("]");
    p.finish()
}

/// Candidates, one to a line, with the names of their parents.
pub fn render_candidates(
    candidates: &[(ProcessNode, Vec<CandidateReason>)],
    parent_comm: &Vec<(u32, String)>,
) -> (r: String)
    ensures
        r@ == joined(
            candidates.deep_view().map_values(candidate_line(parent_comm.deep_view())),
            "\n"@,
        ),
{
    let ghost all = candidates.deep_view();
    let ghost want = all.map_values(candidate_line(parent_comm.deep_view()));
    let mut lines: Vec<String> = Vec::new();
    let mut i: usize = 0;
    assert(lines.deep_view() =~= want.take(0));
    while i < candidates.len()
        invariant
            all == candidates.deep_view(),
            want == all.map_values(candidate_line(parent_comm.deep_view())),
            i <= candidates@.len(),
            lines.deep_view() == want.take(i as int),
        decreases candidates@.len() - i,
    {
        assert(all[i as int] == candidates@[i as int].deep_view());
        push_item(&mut lines, line_of_candidate(&candidates[i], parent_comm));
        assert(want.take(i + 1) =~= want.take(i as int).push(want[i as int]));
        i = i + 1;
    }
    assert(want.take(want.len() as int) =~= want);
    join_texts(&lines, "\n")
}

/// How the model is to judge.
pub const TRIAGE_SYSTEM: &'static str = "You are a macOS security analyst triaging pre-filtered process candidates. Be precise and skeptical: many candidates will be benign tooling. Only flag what is genuinely unusual. Output strictly valid JSON; no prose outside the JSON object.";

/// What the model is asked where there is no candidate, behind the number of
/// processes.
pub const ALL_CLEAR_TASK: &'static str = " processes. None matched any of the suspicion queries (root-under-user-parent, exec outside trusted paths, prolific parents). Return JSON with an empty findings array and a one-sentence summary noting the all-clear:\n{ \"summary\": \"<one sentence>\", \"findings\": [] }";

/// What the model is asked of candidates, between the numbers and the list.
pub const TRIAGE_TASK: &'static str = " total) pre-filtered by suspicion queries. Each line includes a `reasons=[...]` tag explaining why it was selected. Decide which are genuinely suspicious — the queries cast a wide net and many candidates will be benign (e.g. `sudo` is the expected `root_under_user_parent` case). Return ONLY valid JSON matching this exact shape:\n{\n  \"summary\": \"<one or two sentences overall>\",\n  \"findings\": [\n    { \"pid\": <u32>, \"comm\": \"<string or null>\", \"exec_path\": \"<string or null>\", \"reason\": \"<concise English>\", \"severity\": \"low\"|\"medium\"|\"high\" }\n  ]\n}\n\nPROCESSES:\n";

/// The prompt about the first candidates among so many processes.
pub open spec fn triage_prompt(
    all: Seq<(ProcessNodeView, Seq<CandidateReason>)>,
    total: usize,
    names: Seq<(u32, Seq<char>)>,
    max: usize,
) -> Seq<char> {
    let shown = first_n(all, max as int);
    if shown.len() == 0 {
        flat(seq!["A macOS capture observed "@, decimal(total as nat), ALL_CLEAR_TASK@])
    } else {
        flat(
            seq![
                "Below are "@,
                decimal(shown.len()),
                " processes (of "@,
                decimal(all.len()),
                " candidates from "@,
                decimal(total as nat),
                TRIAGE_TASK@,
                joined(shown.map_values(candidate_line(names)), "\n"@),
            ],
        )
    }
}

/// The report about candidates: what the reply says, or the reply itself where
/// it is not in the form asked for.
pub open spec fn triage_report(
    candidates: int,
    total: usize,
    max: usize,
    verdict: Option<(Seq<char>, Seq<AnomalyFindingView>)>,
    raw: Seq<char>,
    model: Seq<char>,
) -> ReportView {
    let (summary, findings) = or_text(verdict, raw);
    ReportView {
        summary,
        details: JsonView::Object(
            seq![
                ("processes_total"@, JsonView::Int(total as int)),
                ("candidates_total"@, JsonView::Int(candidates)),
                (
                    "candidates_shown"@,
                    JsonView::Int(
                        if max < candidates {
                            max as int
                        } else {
                            candidates
                        },
                    ),
                ),
                ("findings"@, JsonView::Array(findings.map_values(finding_json()))),
                ("parse_error"@, JsonView::Bool(verdict is None)),
            ],
        ),
        model,
    }
}

/// The summary and the findings of a reply that is a document with both, each
/// finding complete.
pub fn read_findings(j: &Json) -> (r: Option<(String, Vec<AnomalyFinding>)>)
    ensures
        r.deep_view() == verdict_with(j@, finding_of()),
{
    read_verdict(j, read_finding, Ghost(finding_of()))
}

/// Picks suspicious processes.
pub struct ProcessAnomalyDetector {
    pub config: AgentConfig,
    pub trusted_prefixes: Vec<String>,
    pub prolific_threshold: u32,
}

impl ProcessAnomalyDetector {
    /// A detector with the usual trusted paths and threshold.
    pub fn new(config: AgentConfig) -> (r: Self)
        ensures
            r.config == config,
            r.trusted_prefixes.deep_view() == trusted_paths(),
            r.prolific_threshold == DEFAULT_PROLIFIC_PARENT_THRESHOLD,
    {
        ProcessAnomalyDetector {
            config,
            trusted_prefixes: default_trusted_path_prefixes(),
            prolific_threshold: DEFAULT_PROLIFIC_PARENT_THRESHOLD,
        }
    }

    /// Trusts other paths.
    pub fn with_trusted_prefixes(self, prefixes: Vec<String>) -> (r: Self)
        ensures
            r.config == self.config,
            r.trusted_prefixes == prefixes,
            r.prolific_threshold == self.prolific_threshold,
    {
        ProcessAnomalyDetector {
            config: self.config,
            trusted_prefixes: prefixes,
            prolific_threshold: self.prolific_threshold,
        }
    }

    /// Calls other parents prolific.
    pub fn with_prolific_threshold(self, n: u32) -> (r: Self)
        ensures
            r.config == self.config,
            r.trusted_prefixes == self.trusted_prefixes,
            r.prolific_threshold == n,
    {
        ProcessAnomalyDetector {
            config: self.config,
            trusted_prefixes: self.trusted_prefixes,
            prolific_threshold: n,
        }
    }

    /// What is asked about candidates.
    pub fn request(
        &self,
        candidates: &Vec<(ProcessNode, Vec<CandidateReason>)>,
        total: usize,
        parent_comm: &Vec<(u32, String)>,
    ) -> (r: GenerateRequest)
        ensures
            r.deep_view() == request_of(
                self.config.deep_view(),
                triage_prompt(
                    candidates.deep_view(),
                    total,
                    parent_comm.deep_view(),
                    self.config.max_input_items,
                ),
                TRIAGE_SYSTEM@,
                1024,
                Some(Format::Json),
            ),
    {
        let cap: usize = if self.config.max_input_items < candidates.len() {
            self.config.max_input_items
        } else {
            candidates.len()
        };
        let shown: &[(ProcessNode, Vec<CandidateReason>)] = vstd::slice::slice_subrange(
            candidates.as_slice(),
            0,
            cap,
        );
        assert(shown.deep_view() =~= first_n(
            candidates.deep_view(),
            self.config.max_input_items as int,
        ));
        let mut p = Parts::new();
        if cap == 0 {
            p.add("A macOS capture observed ");
            p.add_number(total as u64);
            p.add(ALL_CLEAR_TASK);
        } else {
            p.add("Below are ");
            p.add_number(cap as u64);
            p.add(" processes (of ");
            p.add_number(candidates.len() as u64);
            p.add(" candidates from ");
            p.add_number(total as u64);
            p.add(TRIAGE_TASK);
            p.add(render_candidates(shown, parent_comm).as_str());
        }
        build_request(&self.config, p.finish(), TRIAGE_SYSTEM, 1024, Some(Format::Json))
    }

    /// What is asked about the processes of a graph, with the numbers of
    /// candidates and of processes.
    pub fn request_for_graph(&self, graph: &Graph) -> (r: (GenerateRequest, usize, usize))
        ensures
            ({
                let cs = candidates(
                    chain(
                        graph.deep_view().processes,
                        picks_of(
                            graph.deep_view(),
                            self.trusted_prefixes.deep_view(),
                            self.prolific_threshold,
                        ),
                    ),
                );
                &&& r.0.deep_view() == request_of(
                    self.config.deep_view(),
                    triage_prompt(
                        cs,
                        graph.processes@.len() as usize,
                        graph.deep_view().processes.filter_map(named_pid()),
                        self.config.max_input_items,
                    ),
                    TRIAGE_SYSTEM@,
                    1024,
                    Some(Format::Json),
                )
                &&& r.1 == cs.len()
                &&& r.2 == graph.processes@.len()
            }),
    {
        let cs: Vec<(ProcessNode, Vec<CandidateReason>)> = candidates_from_graph(
            graph,
            &self.trusted_prefixes,
            self.prolific_threshold,
        );
        let names: Vec<(u32, String)> = build_parent_comm_lookup_from_graph(graph);
        let total: usize = graph.processes.len();
        (self.request(&cs, total, &names), cs.len(), total)
    }

    /// What is asked about the processes of a store, with the numbers of
    /// candidates and of processes.
    pub fn request_for_store(&self, store: &Store) -> (r: Result<
        (GenerateRequest, usize, usize),
        StoreError,
    >)
        ensures
            r is Ok,
            ({
                let g = loaded(store@);
                let cs = candidates(
                    store_picks(
                        store@,
                        self.trusted_prefixes.deep_view(),
                        self.prolific_threshold,
                    ),
                );
                &&& r->Ok_0.0.deep_view() == request_of(
                    self.config.deep_view(),
                    triage_prompt(
                        cs,
                        g.processes.len() as usize,
                        names_with(g.processes.filter_map(named_pid()), cs),
                        self.config.max_input_items,
                    ),
                    TRIAGE_SYSTEM@,
                    1024,
                    Some(Format::Json),
                )
                &&& r->Ok_0.1 == cs.len()
                &&& r->Ok_0.2 == g.processes.len()
            }),
    {
        let cs: Vec<(ProcessNode, Vec<CandidateReason>)> = match candidates_from_store(
            store,
            &self.trusted_prefixes,
            self.prolific_threshold,
        ) {
            Ok(v) => v,
            Err(e) => {
                return Err(e);
            },
        };
        let g: Graph = match store.load_graph() {
            Ok(g) => g,
            Err(e) => {
                return Err(e);
            },
        };
        let names: Vec<(u32, String)> = match build_parent_comm_lookup_from_store(store, &cs) {
            Ok(v) => v,
            Err(e) => {
                return Err(e);
            },
        };
        let total: usize = g.processes.len();
        Ok((self.request(&cs, total, &names), cs.len(), total))
    }

    /// The report about candidates, for what a reply was read as.
    pub fn report_of(
        &self,
        candidates: usize,
        total: usize,
        verdict: Option<(String, Vec<AnomalyFinding>)>,
        raw: &str,
        model: &str,
    ) -> (r: Report)
        ensures
            r.deep_view() == triage_report(
                candidates as int,
                total,
                self.config.max_input_items,
                verdict.deep_view(),
                raw@,
                model@,
            ),
    {
        let ghost v = verdict.deep_view();
        let parsed: bool = verdict.is_some();
        let (summary, findings): (String, Vec<AnomalyFinding>) = match verdict {
            Some(p) => p,
            None => {
                let none: Vec<AnomalyFinding> = Vec::new();
                assert(none.deep_view() =~= Seq::<AnomalyFindingView>::empty());
                (raw.to_string(), none)
            },
        };
        let cap: usize = if self.config.max_input_items < candidates {
            self.config.max_input_items
        } else {
            candidates
        };
        let mut o: Vec<(String, Json)> = Vec::new();
        put(&mut o, "processes_total", Json::U64(total as u64));
        put(&mut o, "candidates_total", Json::U64(candidates as u64));
        put(&mut o, "candidates_shown", Json::U64(cap as u64));
        put(
            &mut o,
            "findings",
            Json::array(convert(whole(&findings), finding_to_json, Ghost(finding_json()))),
        );
        put(&mut o, "parse_error", Json::Bool(!parsed));
        assert(o.deep_view() =~= triage_report(
            candidates as int,
            total,
            self.config.max_input_items,
            v,
            raw@,
            model@,
        ).details->Object_0);
        Report { summary, details: Json::object(o), model: model.to_string() }
    }

    /// The report that a reply about candidates makes.
    pub fn report(&self, candidates: usize, total: usize, reply: &GenerateResponse) -> (r: Report)
        ensures
            r.deep_view() == triage_report(
                candidates as int,
                total,
                self.config.max_input_items,
                parsed_reply(trim(reply.response@), finding_names(), finding_of()),
                trim(reply.response@),
                reply.model@,
            ),
    {
        let raw: String = trim_text(reply.response.as_str());
        let list = ["pid", "comm", "exec_path", "reason", "severity"];
        let fields: &[&str] = &list;
        assert(fields.deep_view() =~= finding_names());
        let twice: bool = names_verdict_field_twice(raw.as_str(), fields);
        let verdict: Option<(String, Vec<AnomalyFinding>)> = match parse_json(raw.as_str()) {
            Some(j) => if twice {
                None
            } else {
                read_findings(&j)
            },
            None => None,
        };
        self.report_of(candidates, total, verdict, raw.as_str(), reply.model.as_str())
    }
}

/// The flag of a root process. A user who asks for root by name is no news.
pub open spec fn root_flag() -> spec_fn(ProcessNodeView) -> Option<Seq<char>> {
    |p: ProcessNodeView|
        if p.comm == Some("sudo"@) || p.comm == Some("doas"@) {
            None
        } else {
            Some(
                flat(
                    seq![
                        "root process '"@,
                        or_unknown(p.comm),
                        "' (pid "@,
                        decimal(p.id.pid as nat),
                        ", "@,
                        match p.exec_path {
                            Some(e) => e,
                            None => "path unknown"@,
                        },
                        ") is running under a non-root user parent"@,
                    ],
                ),
            )
        }
}

/// The name and the path of a program.
pub open spec fn program() -> spec_fn(ProcessNodeView) -> (Option<Seq<char>>, Option<Seq<char>>) {
    |p: ProcessNodeView| (p.comm, p.exec_path)
}

/// The flag of a program from outside the trusted paths.
pub open spec fn path_flag() -> spec_fn((Option<Seq<char>>, Option<Seq<char>>)) -> Seq<char> {
    |p: (Option<Seq<char>>, Option<Seq<char>>)|
        flat(
            seq![
                "'"@,
                or_unknown(p.0),
                "' ran from an untrusted location: "@,
                match p.1 {
                    Some(e) => e,
                    None => "no exec path recorded"@,
                },
            ],
        )
}

/// The flag of a parent.
pub open spec fn parent_flag() -> spec_fn((ProcessNodeView, u32)) -> Seq<char> {
    |p: (ProcessNodeView, u32)|
        flat(
            seq![
                "'"@,
                or_unknown(p.0.comm),
                "' (pid "@,
                decimal(p.0.id.pid as nat),
                ") spawned "@,
                decimal(p.1 as nat),
                " child processes"@,
            ],
        )
}

/// The first flags of a category, and how many more there are.
pub open spec fn capped(items: Seq<Seq<char>>, label: Seq<char>) -> Seq<Seq<char>> {
    if items.len() > MAX_FLAGS_PER_CATEGORY {
        items.take(MAX_FLAGS_PER_CATEGORY as int).push(
            flat(
                seq![
                    "(+"@,
                    decimal((items.len() - MAX_FLAGS_PER_CATEGORY) as nat),
                    " "@,
                    label,
                    ")"@,
                ],
            ),
        )
    } else {
        items
    }
}

/// The flags that the processes of a store raise, as far as they were active
/// at or after a time.
pub open spec fn store_flags(
    s: StoreView,
    since: i64,
    trusted: Seq<Seq<char>>,
    threshold: u32,
) -> Seq<Seq<char>> {
    capped(
        roots_under_users(s, since).filter_map(root_flag()),
        "similar root-under-user processes"@,
    ) + capped(
        uniques(untrusted(s, trusted, since).map_values(program())).map_values(path_flag()),
        "more processes from untrusted paths"@,
    ) + capped(
        prolific_parents(s, threshold, since).map_values(parent_flag()),
        "more prolific parents"@,
    )
}

fn text_of_root_flag(p: &ProcessNode) -> (r: Option<String>)
    ensures
        r.deep_view() == root_flag()(p.deep_view()),
{
    match &p.comm {
        Some(c) => if str_eq(c.as_str(), "sudo") || str_eq(c.as_str(), "doas") {
            return None;
        },
        None => {},
    }
    let mut t = Parts::new();
    t.add("root process '");
    t.add(text_or(&p.comm, "?"));
    t.add("' (pid ");
    t.add_number(p.id.pid as u64);
    t.add(", ");
    t.add(text_or(&p.exec_path, "path unknown"));
    t.add(") is running under a non-root user parent");
    Some(t.finish())
}

fn program_of(p: &ProcessNode) -> (r: (Option<String>, Option<String>))
    ensures
        r.deep_view() == program()(p.deep_view()),
{
    (copy_opt(&p.comm), copy_opt(&p.exec_path))
}

fn same_program(
    a: &(Option<String>, Option<String>),
    b: &(Option<String>, Option<String>),
) -> (r: bool)
    ensures
        r == (a.deep_view() == b.deep_view()),
{
    opt_text_eq(&a.0, &b.0) && opt_text_eq(&a.1, &b.1)
}

fn copy_program(a: &(Option<String>, Option<String>)) -> (r: (Option<String>, Option<String>))
    ensures
        r.deep_view() == a.deep_view(),
{
    (copy_opt(&a.0), copy_opt(&a.1))
}

fn text_of_path_flag(p: &(Option<String>, Option<String>)) -> (r: String)
    ensures
        r.deep_view() == path_flag()(p.deep_view()),
{
    let mut t = Parts::new();
    t.add("'");
    t.add(text_or(&p.0, "?"));
    t.add("' ran from an untrusted location: ");
    t.add(text_or(&p.1, "no exec path recorded"));
    t.finish()
}

fn text_of_parent_flag(p: &(ProcessNode, u32)) -> (r: String)
    ensures
        r.deep_view() == parent_flag()(p.deep_view()),
{
    let mut t = Parts::new();
    t.add("'");
    t.add(text_or(&p.0.comm, "?"));
    t.add("' (pid ");
    t.add_number(p.0.id.pid as u64);
    t.add(") spawned ");
    t.add_number(p.1 as u64);
    t.add(" child processes");
    t.finish()
}

/// Adds the flags of a category, and how many more there are.
pub fn push_capped(out: &mut Vec<String>, items: Vec<String>, overflow_label: &str)
    ensures
        final(out).deep_view() == old(out).deep_view() + capped(
            items.deep_view(),
            overflow_label@,
        ),
{
    let ghost all = items.deep_view();
    let n: usize = items.len();
    let mut shown: Vec<String> = items;
    if n > MAX_FLAGS_PER_CATEGORY {
        shown.truncate(MAX_FLAGS_PER_CATEGORY);
        assert(shown.deep_view() =~= all.take(MAX_FLAGS_PER_CATEGORY as int));
        let mut p = Parts::new();
        p.add("(+");
        p.add_number((n - MAX_FLAGS_PER_CATEGORY) as u64);
        p.add(" ");
        p.add(overflow_label);
        p.add(")");
        push_item(&mut shown, p.finish());
    }
    append_texts(out, &shown);
}

/// The flags that the processes of a store raise by rule, as far as they were
/// active at or after a time; zero asks for all times.
pub fn suspicion_flags_from_store(
    store: &Store,
    since_unix_ns: i64,
    trusted_prefixes: &[&str],
    prolific_threshold: u32,
) -> (r: Result<Vec<String>, StoreError>)
    ensures
        r is Ok,
        r->Ok_0.deep_view() == store_flags(
            store@,
            since_unix_ns,
            trusted_prefixes.deep_view(),
            prolific_threshold,
        ),
{
    let mut flags: Vec<String> = Vec::new();
    assert(flags.deep_view() =~= Seq::<Seq<char>>::empty());
    let roots: Vec<ProcessNode> = match store.processes_root_under_user_parent(since_unix_ns) {
        Ok(v) => v,
        Err(e) => {
            return Err(e);
        },
    };
    push_capped(
        &mut flags,
        collect(whole(&roots), text_of_root_flag, Ghost(root_flag())),
        "similar root-under-user processes",
    );
    let strangers: Vec<ProcessNode> = match store.processes_outside_paths(
        trusted_prefixes,
        since_unix_ns,
    ) {
        Ok(v) => v,
        Err(e) => {
            return Err(e);
        },
    };
    let programs: Vec<(Option<String>, Option<String>)> = convert(
        whole(&strangers),
        program_of,
        Ghost(program()),
    );
    let once: Vec<(Option<String>, Option<String>)> = distinct(
        whole(&programs),
        same_program,
        copy_program,
    );
    push_capped(
        &mut flags,
        convert(whole(&once), text_of_path_flag, Ghost(path_flag())),
        "more processes from untrusted paths",
    );
    let parents: Vec<(ProcessNode, u32)> = match store.parents_with_many_children(
        prolific_threshold,
        since_unix_ns,
    ) {
        Ok(v) => v,
        Err(e) => {
            return Err(e);
        },
    };
    push_capped(
        &mut flags,
        convert(whole(&parents), text_of_parent_flag, Ghost(parent_flag())),
        "more prolific parents",
    );
    assert(flags.deep_view() =~= store_flags(
        store@,
        since_unix_ns,
        trusted_prefixes.deep_view(),
        prolific_threshold,
    ));
    Ok(flags)
}

/// However many processes are suspicious, each category raises a bounded
/// number of flags.
pub proof fn flags_are_bounded(s: StoreView, since: i64, trusted: Seq<Seq<char>>, threshold: u32)
    ensures
        store_flags(s, since, trusted, threshold).len() <= 3 * (MAX_FLAGS_PER_CATEGORY + 1),
{
}

} // verus!
