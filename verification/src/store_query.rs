//! Questions that the store answers: suspicious lineages, busy endpoints and
//! names, ancestors, focus segments.

use vstd::prelude::*;
use vstd::string::*;

use crate::graph::{ProcessNode, ProcessNodeView};
use crate::json::{Json, JsonView};
use crate::order::{first_n, insert_row, keyed, sort_by_key};
use crate::seqs::{
    count_where, count_where_step, filter_map_start, filter_map_step, push_item, sum_of,
    sum_of_nonneg, sum_of_prefix, take_all, uniques,
};
use crate::store::{
    EdgeKind, EdgeRow, EdgeRowView, NodeKind, NodeRow, NodeRowView, Store, StoreError,
};
use crate::store_merge::{find_node, node_at};
use crate::store_rows::{or_unknown, process_from_row, process_of_row};
use crate::text::{chars_of, has_prefix, matches_at, str_eq};

verus! {

// ---------- suspicious processes ----------------------------------------------

/// The integer under a key.
pub open spec fn int_at(j: JsonView, key: Seq<char>) -> Option<int> {
    match j.get(key) {
        Some(JsonView::Int(n)) => Some(n),
        _ => None,
    }
}

/// The child of an edge from a parent that runs as an ordinary user to a child
/// that runs as root and was last seen at or after a time.
pub open spec fn escalated(nodes: Seq<NodeRowView>, since: i64) -> spec_fn(EdgeRowView) -> Option<
    ProcessNodeView,
> {
    |e: EdgeRowView|
        match (
            node_at(nodes, NodeKind::Process, e.to_id),
            node_at(nodes, NodeKind::Process, e.from_id),
        ) {
            (Some(child), Some(parent)) => if e.kind == EdgeKind::ParentOf && child.last_seen
                >= since && int_at(child.attrs, "uid"@) == Some(0int) && (int_at(
                parent.attrs,
                "uid"@,
            ) matches Some(u) && u > 0) {
                Some(process_of_row(child))
            } else {
                None
            },
            _ => None,
        }
}

/// Whether a path begins with one of the prefixes.
pub open spec fn under_any(path: Seq<char>, prefixes: Seq<Seq<char>>) -> bool {
    exists|i: int| 0 <= i < prefixes.len() && has_prefix(path, #[trigger] prefixes[i])
}

/// A process last seen at or after a time whose executable is not under any of
/// the prefixes; one without a path is under none.
pub open spec fn outside(prefixes: Seq<Seq<char>>, since: i64) -> spec_fn(NodeRowView) -> Option<
    ProcessNodeView,
> {
    |r: NodeRowView|
        if r.kind == NodeKind::Process && r.last_seen >= since && !(process_of_row(
            r,
        ).exec_path matches Some(p) && under_any(p, prefixes)) {
            Some(process_of_row(r))
        } else {
            None
        }
}

/// Whether the integer under a key is zero, or above zero.
fn uid_class(j: &Json) -> (r: (bool, bool))
    ensures
        r.0 == (int_at(j@, "uid"@) == Some(0int)),
        r.1 == (int_at(j@, "uid"@) matches Some(u) && u > 0),
{
    match j.get("uid") {
        Some(Json::U64(n)) => (*n == 0, *n > 0),
        Some(Json::I64(n)) => (*n == 0, *n > 0),
        _ => (false, false),
    }
}

/// Whether a path begins with one of the prefixes.
pub fn path_under_any(path: &str, prefixes: &[&str]) -> (r: bool)
    ensures
        r == under_any(path@, prefixes.deep_view()),
{
    let cs: Vec<char> = chars_of(path);
    let ghost all = prefixes.deep_view();
    let mut i: usize = 0;
    while i < prefixes.len()
        invariant
            cs@ == path@,
            all == prefixes.deep_view(),
            i <= prefixes@.len(),
            forall|k: int| 0 <= k < i ==> !has_prefix(path@, #[trigger] all[k]),
        decreases prefixes@.len() - i,
    {
        let p: Vec<char> = chars_of(prefixes[i]);
        assert(all[i as int] == p@);
        if matches_at(cs.as_slice(), p.as_slice(), 0) {
            return true;
        }
        i = i + 1;
    }
    false
}

impl Store {
    /// Root-owned processes whose parent runs as an ordinary user, among the
    /// children last seen at or after `since_unix_ns`.
    pub fn processes_root_under_user_parent(&self, since_unix_ns: i64) -> (r: Result<
        Vec<ProcessNode>,
        StoreError,
    >)
        ensures
            r is Ok,
            r->Ok_0.deep_view() == self@.edges.filter_map(escalated(self@.nodes, since_unix_ns)),
    {
        let ghost all = self.edges.deep_view();
        let ghost pick = escalated(self@.nodes, since_unix_ns);
        let mut out: Vec<ProcessNode> = Vec::new();
        let mut i: usize = 0;
        proof {
            filter_map_start(all, pick);
            assert(out.deep_view() =~= Seq::<ProcessNodeView>::empty());
        }
        while i < self.edges.len()
            invariant
                all == self.edges.deep_view(),
                pick == escalated(self@.nodes, since_unix_ns),
                i <= self.edges@.len(),
                out.deep_view() == all.take(i as int).filter_map(pick),
            decreases self.edges@.len() - i,
        {
            proof {
                filter_map_step(all, pick, i as int);
            }
            let e: &EdgeRow = &self.edges[i];
            match (
                find_node(&self.nodes, NodeKind::Process, e.to_id.as_str()),
                find_node(&self.nodes, NodeKind::Process, e.from_id.as_str()),
            ) {
                (Some(c), Some(p)) => {
                    let child: &NodeRow = &self.nodes[c];
                    let child_class = uid_class(&child.attrs);
                    let parent_class = uid_class(&self.nodes[p].attrs);
                    if e.kind == EdgeKind::ParentOf && child.last_seen >= since_unix_ns
                        && child_class.0 && parent_class.1 {
                        push_item(&mut out, process_from_row(child));
                    }
                },
                _ => {},
            }
            i = i + 1;
        }
        proof {
            take_all(all);
        }
        Ok(out)
    }

    /// Processes last seen at or after `since_unix_ns` whose executable path
    /// does not begin with any of the allowed prefixes. A process without a
    /// path is among them.
    pub fn processes_outside_paths(&self, allowed_prefixes: &[&str], since_unix_ns: i64) -> (r:
        Result<Vec<ProcessNode>, StoreError>)
        ensures
            r is Ok,
            r->Ok_0.deep_view() == self@.nodes.filter_map(
                outside(allowed_prefixes.deep_view(), since_unix_ns),
            ),
    {
        let ghost all = self.nodes.deep_view();
        let ghost pick = outside(allowed_prefixes.deep_view(), since_unix_ns);
        let mut out: Vec<ProcessNode> = Vec::new();
        let mut i: usize = 0;
        proof {
            filter_map_start(all, pick);
            assert(out.deep_view() =~= Seq::<ProcessNodeView>::empty());
        }
        while i < self.nodes.len()
            invariant
                all == self.nodes.deep_view(),
                pick == outside(allowed_prefixes.deep_view(), since_unix_ns),
                i <= self.nodes@.len(),
                out.deep_view() == all.take(i as int).filter_map(pick),
            decreases self.nodes@.len() - i,
        {
            proof {
                filter_map_step(all, pick, i as int);
            }
            let row: &NodeRow = &self.nodes[i];
            if row.kind == NodeKind::Process && row.last_seen >= since_unix_ns {
                let p = process_from_row(row);
                let trusted: bool = match &p.exec_path {
                    Some(path) => path_under_any(path.as_str(), allowed_prefixes),
                    None => false,
                };
                if !trusted {
                    push_item(&mut out, p);
                }
            }
            i = i + 1;
        }
        proof {
            take_all(all);
        }
        Ok(out)
    }
}

// ---------- endpoints ----------------------------------------------------------

/// The traffic of one foreign endpoint over all of its connections.
#[derive(Debug)]
pub struct EndpointSummary {
    pub foreign_addr: String,
    pub total_bytes: u64,
    pub distinct_processes: u32,
    pub connection_count: u32,
}

/// What an `EndpointSummary` holds.
pub struct EndpointSummaryView {
    pub foreign_addr: Seq<char>,
    pub total_bytes: u64,
    pub distinct_processes: u32,
    pub connection_count: u32,
}

impl DeepView for EndpointSummary {
    type V = EndpointSummaryView;

    open spec fn deep_view(&self) -> EndpointSummaryView {
        EndpointSummaryView {
            foreign_addr: self.foreign_addr@,
            total_bytes: self.total_bytes,
            distinct_processes: self.distinct_processes,
            connection_count: self.connection_count,
        }
    }
}

impl Clone for EndpointSummary {
    fn clone(&self) -> (r: Self)
        ensures
            r.deep_view() == self.deep_view(),
    {
        EndpointSummary {
            foreign_addr: self.foreign_addr.clone(),
            total_bytes: self.total_bytes,
            distinct_processes: self.distinct_processes,
            connection_count: self.connection_count,
        }
    }
}

/// One connection's endpoint, traffic and owner.
pub(crate) struct Traffic {
    pub(crate) addr: Option<String>,
    pub(crate) bytes: u64,
    pub(crate) pid: Option<u32>,
}

/// One connection's endpoint, traffic and owner.
pub struct TrafficView {
    pub addr: Option<Seq<char>>,
    pub bytes: int,
    pub pid: Option<u32>,
}

impl DeepView for Traffic {
    type V = TrafficView;

    open(crate) spec fn deep_view(&self) -> TrafficView {
        TrafficView { addr: self.addr.deep_view(), bytes: self.bytes as int, pid: self.pid }
    }
}

/// A byte counter as a database integer: absent counts as zero, and what an
/// `i64` does not hold counts as its largest value.
pub open spec fn db_count(n: Option<u64>) -> int {
    match n {
        Some(i) => if i > i64::MAX {
            i64::MAX as int
        } else {
            i as int
        },
        None => 0,
    }
}

/// The traffic of the connections among the nodes.
pub open spec fn traffic() -> spec_fn(NodeRowView) -> Option<TrafficView> {
    |r: NodeRowView|
        if r.kind == NodeKind::Socket {
            Some(
                TrafficView {
                    addr: r.attrs.str_at("foreign_addr"@),
                    bytes: db_count(r.attrs.u64_at("rxbytes_last"@)) + db_count(
                        r.attrs.u64_at("txbytes_last"@),
                    ),
                    pid: r.attrs.u32_at("pid_at_open"@),
                },
            )
        } else {
            None
        }
}

/// Whether a connection goes to an endpoint.
pub open spec fn goes_to(addr: Option<Seq<char>>) -> spec_fn(TrafficView) -> bool {
    |t: TrafficView| t.addr == addr
}

/// A connection's bytes, if it goes to an endpoint.
pub open spec fn bytes_to(addr: Option<Seq<char>>) -> spec_fn(TrafficView) -> int {
    |t: TrafficView|
        if t.addr == addr {
            t.bytes
        } else {
            0
        }
}

/// A connection's owner, if it is known and goes to an endpoint.
pub open spec fn owner_to(addr: Option<Seq<char>>) -> spec_fn(TrafficView) -> Option<u32> {
    |t: TrafficView|
        if t.addr == addr {
            t.pid
        } else {
            None
        }
}

/// The endpoints of the connections, in the order of their first one.
pub open spec fn addrs_of(ts: Seq<TrafficView>) -> Seq<Option<Seq<char>>> {
    uniques(Seq::new(ts.len(), |i: int| ts[i].addr))
}

/// One endpoint's traffic over all connections.
pub open spec fn endpoint_of(ts: Seq<TrafficView>, addr: Option<Seq<char>>) -> EndpointSummaryView {
    EndpointSummaryView {
        foreign_addr: or_unknown(addr),
        total_bytes: sum_of(ts, bytes_to(addr)) as u64,
        distinct_processes: uniques(ts.filter_map(owner_to(addr))).len() as u32,
        connection_count: count_where(ts, goes_to(addr)) as u32,
    }
}

/// Orders endpoints from the busiest.
pub open spec fn by_bytes() -> spec_fn(EndpointSummaryView) -> int {
    |e: EndpointSummaryView| -(e.total_bytes as int)
}

/// Whether every endpoint's total is a database integer.
pub open spec fn totals_fit(ts: Seq<TrafficView>) -> bool {
    forall|i: int|
        0 <= i < addrs_of(ts).len() ==> sum_of(ts, bytes_to(#[trigger] addrs_of(ts)[i])) <= i64::MAX
}

/// Every endpoint's traffic.
pub open spec fn endpoints_of(ts: Seq<TrafficView>) -> Seq<EndpointSummaryView> {
    Seq::new(addrs_of(ts).len(), |i: int| endpoint_of(ts, addrs_of(ts)[i]))
}

/// The busiest endpoints, at most `limit` of them.
pub open spec fn busiest_endpoints(nodes: Seq<NodeRowView>, limit: int) -> Seq<EndpointSummaryView> {
    first_n(sort_by_key(endpoints_of(nodes.filter_map(traffic())), by_bytes()), limit)
}

/// Whether two optional texts are the same.
pub(crate) fn opt_text_eq(a: &Option<String>, b: &Option<String>) -> (r: bool)
    ensures
        r == (a.deep_view() == b.deep_view()),
{
    match (a, b) {
        (Some(x), Some(y)) => str_eq(x.as_str(), y.as_str()),
        (None, None) => true,
        _ => false,
    }
}

/// A byte counter as a database integer.
fn to_db_count(n: Option<u64>) -> (r: u64)
    ensures
        r == db_count(n),
{
    match n {
        Some(i) => if i > i64::MAX as u64 {
            i64::MAX as u64
        } else {
            i
        },
        None => 0,
    }
}

/// The traffic of the connections among the nodes.
fn read_traffic(nodes: &Vec<NodeRow>) -> (r: Vec<Traffic>)
    ensures
        r.deep_view() == nodes.deep_view().filter_map(traffic()),
{
    let ghost all = nodes.deep_view();
    let mut out: Vec<Traffic> = Vec::new();
    let mut i: usize = 0;
    proof {
        filter_map_start(all, traffic());
        assert(out.deep_view() =~= Seq::<TrafficView>::empty());
    }
    while i < nodes.len()
        invariant
            all == nodes.deep_view(),
            i <= nodes@.len(),
            out.deep_view() == all.take(i as int).filter_map(traffic()),
        decreases nodes@.len() - i,
    {
        proof {
            filter_map_step(all, traffic(), i as int);
        }
        let row: &NodeRow = &nodes[i];
        if row.kind == NodeKind::Socket {
            let rx: u64 = to_db_count(row.attrs.u64_at("rxbytes_last"));
            let tx: u64 = to_db_count(row.attrs.u64_at("txbytes_last"));
            push_item(
                &mut out,
                Traffic {
                    addr: row.attrs.string_at("foreign_addr"),
                    bytes: rx + tx,
                    pid: row.attrs.u32_at("pid_at_open"),
                },
            );
        }
        i = i + 1;
    }
    proof {
        take_all(all);
    }
    out
}

/// The total of one endpoint, if it is a database integer.
fn total_to(ts: &Vec<Traffic>, addr: &Option<String>) -> (r: Option<u64>)
    ensures
        r == if sum_of(ts.deep_view(), bytes_to(addr.deep_view())) <= i64::MAX {
            Some(sum_of(ts.deep_view(), bytes_to(addr.deep_view())) as u64)
        } else {
            None
        },
        sum_of(ts.deep_view(), bytes_to(addr.deep_view())) >= 0,
{
    let ghost all = ts.deep_view();
    let ghost f = bytes_to(addr.deep_view());
    let mut sum: u64 = 0;
    let mut i: usize = 0;
    assert forall|k: int| 0 <= k < all.len() implies f(#[trigger] all[k]) >= 0 by {
        assert(all[k] == ts@[k].deep_view());
    }
    proof {
        sum_of_nonneg(all, f);
    }
    while i < ts.len()
        invariant
            all == ts.deep_view(),
            f == bytes_to(addr.deep_view()),
            forall|k: int| 0 <= k < all.len() ==> f(#[trigger] all[k]) >= 0,
            i <= ts@.len(),
            sum == sum_of(all.take(i as int), f),
            sum <= i64::MAX,
        decreases ts@.len() - i,
    {
        assert(all.take(i + 1).drop_last() =~= all.take(i as int));
        assert(all.take(i + 1).last() == ts@[i as int].deep_view());
        if opt_text_eq(&ts[i].addr, addr) {
            if ts[i].bytes > i64::MAX as u64 - sum {
                proof {
                    sum_of_prefix(all, f, i + 1);
                }
                return None;
            }
            sum = sum + ts[i].bytes;
        }
        i = i + 1;
    }
    proof {
        take_all(all);
    }
    Some(sum)
}

/// How many connections go to one endpoint.
fn count_to(ts: &Vec<Traffic>, addr: &Option<String>) -> (r: u64)
    ensures
        r == count_where(ts.deep_view(), goes_to(addr.deep_view())),
{
    let ghost all = ts.deep_view();
    let ghost p = goes_to(addr.deep_view());
    let mut n: u64 = 0;
    let mut i: usize = 0;
    while i < ts.len()
        invariant
            all == ts.deep_view(),
            p == goes_to(addr.deep_view()),
            i <= ts@.len(),
            n == count_where(all.take(i as int), p),
        decreases ts@.len() - i,
    {
        proof {
            count_where_step(all, p, i as int);
        }
        if opt_text_eq(&ts[i].addr, addr) {
            n = n + 1;
        }
        i = i + 1;
    }
    proof {
        take_all(all);
    }
    n
}

/// The numbers in the order of their first occurrence, each once.
pub(crate) fn unique_u32(v: &Vec<u32>) -> (r: Vec<u32>)
    ensures
        r@ == uniques(v@),
{
    let mut out: Vec<u32> = Vec::new();
    let mut i: usize = 0;
    while i < v.len()
        invariant
            i <= v@.len(),
            out@ == uniques(v@.take(i as int)),
        decreases v@.len() - i,
    {
        assert(v@.take(i + 1).drop_last() =~= v@.take(i as int));
        let x: u32 = v[i];
        let mut k: usize = 0;
        let mut seen: bool = false;
        while k < out.len()
            invariant
                k <= out@.len(),
                seen == out@.take(k as int).contains(x),
            decreases out@.len() - k,
        {
            proof {
                let t = out@.take(k + 1);
                assert(t[k as int] == out@[k as int]);
                if out@.take(k as int).contains(x) {
                    let j = choose|j: int| 0 <= j < k && out@.take(k as int)[j] == x;
                    assert(t[j] == x);
                }
                if t.contains(x) && out@[k as int] != x {
                    let j = choose|j: int| 0 <= j < k + 1 && t[j] == x;
                    assert(out@.take(k as int)[j] == x);
                }
            }
            if out[k] == x {
                seen = true;
            }
            k = k + 1;
        }
        assert(out@.take(out@.len() as int) =~= out@);
        if !seen {
            out.push(x);
        }
        i = i + 1;
    }
    assert(v@.take(v@.len() as int) =~= v@);
    out
}

/// The texts in the order of their first occurrence, each once.
pub(crate) fn unique_opts(v: &Vec<Option<String>>) -> (r: Vec<Option<String>>)
    ensures
        r.deep_view() == uniques(v.deep_view()),
{
    let ghost all = v.deep_view();
    let mut out: Vec<Option<String>> = Vec::new();
    let mut i: usize = 0;
    assert(out.deep_view() =~= uniques(all.take(0)));
    while i < v.len()
        invariant
            all == v.deep_view(),
            i <= v@.len(),
            out.deep_view() == uniques(all.take(i as int)),
        decreases v@.len() - i,
    {
        assert(all.take(i + 1).drop_last() =~= all.take(i as int));
        assert(all.take(i + 1).last() == v@[i as int].deep_view());
        let ghost have = out.deep_view();
        let ghost x = v@[i as int].deep_view();
        let mut k: usize = 0;
        let mut seen: bool = false;
        while k < out.len()
            invariant
                i < v@.len(),
                x == v@[i as int].deep_view(),
                have == out.deep_view(),
                k <= out@.len(),
                seen ==> have.contains(x),
                !seen ==> forall|j: int| 0 <= j < k ==> have[j] != x,
            decreases out@.len() - k,
        {
            assert(have[k as int] == out@[k as int].deep_view());
            if opt_text_eq(&out[k], &v[i]) {
                seen = true;
            }
            k = k + 1;
        }
        if !seen {
            push_item(&mut out, crate::json::copy_opt(&v[i]));
        }
        i = i + 1;
    }
    proof {
        take_all(all);
    }
    out
}

/// How many known owners one endpoint's connections have.
fn owners_to(ts: &Vec<Traffic>, addr: &Option<String>) -> (r: usize)
    ensures
        r == uniques(ts.deep_view().filter_map(owner_to(addr.deep_view()))).len(),
{
    let ghost all = ts.deep_view();
    let ghost f = owner_to(addr.deep_view());
    let mut pids: Vec<u32> = Vec::new();
    let mut i: usize = 0;
    proof {
        filter_map_start(all, f);
    }
    while i < ts.len()
        invariant
            all == ts.deep_view(),
            f == owner_to(addr.deep_view()),
            i <= ts@.len(),
            pids@ == all.take(i as int).filter_map(f),
        decreases ts@.len() - i,
    {
        proof {
            filter_map_step(all, f, i as int);
        }
        if opt_text_eq(&ts[i].addr, addr) {
            match ts[i].pid {
                Some(p) => pids.push(p),
                None => {},
            }
        }
        i = i + 1;
    }
    proof {
        take_all(all);
    }
    let u = unique_u32(&pids);
    u.len()
}

/// The endpoints of the connections, in the order of their first one.
fn read_addrs(ts: &Vec<Traffic>) -> (r: Vec<Option<String>>)
    ensures
        r.deep_view() == addrs_of(ts.deep_view()),
{
    let mut addrs: Vec<Option<String>> = Vec::new();
    let ghost want = Seq::new(ts.deep_view().len(), |i: int| ts.deep_view()[i].addr);
    let mut i: usize = 0;
    assert(addrs.deep_view() =~= want.take(0));
    while i < ts.len()
        invariant
            want == Seq::new(ts.deep_view().len(), |i: int| ts.deep_view()[i].addr),
            i <= ts@.len(),
            addrs.deep_view() == want.take(i as int),
        decreases ts@.len() - i,
    {
        push_item(&mut addrs, crate::json::copy_opt(&ts[i].addr));
        assert(want.take(i as int).push(want[i as int]) =~= want.take(i + 1));
        i = i + 1;
    }
    proof {
        take_all(want);
    }
    unique_opts(&addrs)
}

impl Store {
    /// The endpoints with the most bytes, over the last observed counters of
    /// their connections, at most `limit` of them. A total that a database
    /// integer does not hold is an error.
    pub fn top_endpoints_by_bytes(&self, limit: usize) -> (r: Result<
        Vec<EndpointSummary>,
        StoreError,
    >)
        ensures
            ({
                let ts = self@.nodes.filter_map(traffic());
                if totals_fit(ts) {
                    r is Ok && r->Ok_0.deep_view() == busiest_endpoints(self@.nodes, limit as int)
                } else {
                    r matches Err(StoreError::Sql(m)) && m@ == "integer overflow"@
                }
            }),
    {
        let ts = read_traffic(&self.nodes);
        let addrs = read_addrs(&ts);
        let ghost tv = ts.deep_view();
        let ghost keys_of = addrs.deep_view();
        let ghost want = endpoints_of(tv);
        let mut out: Vec<EndpointSummary> = Vec::new();
        let mut keys: Vec<i128> = Vec::new();
        let mut i: usize = 0;
        assert(out.deep_view() =~= Seq::<EndpointSummaryView>::empty());
        assert(want.take(0) =~= Seq::<EndpointSummaryView>::empty());
        while i < addrs.len()
            invariant
                tv == ts.deep_view(),
                keys_of == addrs.deep_view(),
                keys_of == addrs_of(tv),
                want == endpoints_of(tv),
                i <= addrs@.len(),
                keyed(out.deep_view(), by_bytes(), keys@),
                out.deep_view() == sort_by_key(want.take(i as int), by_bytes()),
                tv == self@.nodes.filter_map(traffic()),
                forall|k: int|
                    0 <= k < i ==> sum_of(tv, bytes_to(#[trigger] addrs_of(tv)[k])) <= i64::MAX,
            decreases addrs@.len() - i,
        {
            let addr: &Option<String> = &addrs[i];
            assert(keys_of[i as int] == addr.deep_view());
            match total_to(&ts, addr) {
                None => {
                    return Err(StoreError::Sql("integer overflow".to_owned()));
                },
                Some(total) => {
                    let n: u64 = count_to(&ts, addr);
                    let owners: usize = owners_to(&ts, addr);
                    let row = EndpointSummary {
                        foreign_addr: match addr {
                            Some(a) => a.clone(),
                            None => "?".to_owned(),
                        },
                        total_bytes: total,
                        distinct_processes: #[verifier::truncate] (owners as u32),
                        connection_count: #[verifier::truncate] (n as u32),
                    };
                    assert(row.deep_view() == want[i as int]);
                    assert(want.take(i + 1).drop_last() =~= want.take(i as int));
                    insert_row(&mut out, &mut keys, row, -(total as i128), Ghost(by_bytes()));
                },
            }
            i = i + 1;
        }
        proof {
            take_all(want);
        }
        let ghost sorted = out.deep_view();
        if limit < out.len() {
            out.truncate(limit);
            assert(out.deep_view() =~= sorted.take(limit as int));
        }
        Ok(out)
    }
}

} // verus!
