//! The persistent world model: tables of nodes, edges, events and metadata.
//!
//! Every merge upserts: repeated observations strengthen an edge and widen a
//! node's lifetime rather than add rows, so the tables grow with the number of
//! distinct entities and relations. Times in the tables are wall-clock unix
//! nanoseconds.

use vstd::prelude::*;
use vstd::string::*;

use crate::events::EventKind;
use crate::graph::{ProcessId, SocketId, SocketIdView};
use crate::json::{Json, JsonView};
use crate::observation::Timestamp;
use crate::text::{
    chars_of, decimal, decimal_round_trip, find, find_chars, find_from, find_is_first, is_digit,
    occurs_at, parse_u32, parse_u64, parse_unsigned, push_char, push_u64, string_of,
};

verus! {

/// What a row of the node table describes.
#[derive(Debug, Clone, Copy, PartialEq, Eq, Structural)]
pub enum NodeKind {
    Process,
    App,
    Socket,
    File,
    Domain,
}

impl DeepView for NodeKind {
    type V = NodeKind;

    open spec fn deep_view(&self) -> NodeKind {
        *self
    }
}

impl NodeKind {
    /// The kind's name in the node table.
    pub open spec fn spec_name(self) -> Seq<char> {
        match self {
            NodeKind::Process => "process"@,
            NodeKind::App => "app"@,
            NodeKind::Socket => "socket"@,
            NodeKind::File => "file"@,
            NodeKind::Domain => "domain"@,
        }
    }

    /// The kind's name in the node table.
    pub fn name(self) -> (r: &'static str)
        ensures
            r@ == self.spec_name(),
    {
        match self {
            NodeKind::Process => "process",
            NodeKind::App => "app",
            NodeKind::Socket => "socket",
            NodeKind::File => "file",
            NodeKind::Domain => "domain",
        }
    }
}

/// What a row of the edge table relates.
#[derive(Debug, Clone, Copy, PartialEq, Eq, Structural)]
pub enum EdgeKind {
    ParentOf,
    FrontmostDuring,
    OpenedSocket,
    QueriedDomain,
}

impl DeepView for EdgeKind {
    type V = EdgeKind;

    open spec fn deep_view(&self) -> EdgeKind {
        *self
    }
}

impl EdgeKind {
    /// The kind's name in the edge table.
    pub open spec fn spec_name(self) -> Seq<char> {
        match self {
            EdgeKind::ParentOf => "parent_of"@,
            EdgeKind::FrontmostDuring => "frontmost_during"@,
            EdgeKind::OpenedSocket => "opened_socket"@,
            EdgeKind::QueriedDomain => "queried_domain"@,
        }
    }

    /// The kind's name in the edge table.
    pub fn name(self) -> (r: &'static str)
        ensures
            r@ == self.spec_name(),
    {
        match self {
            EdgeKind::ParentOf => "parent_of",
            EdgeKind::FrontmostDuring => "frontmost_during",
            EdgeKind::OpenedSocket => "opened_socket",
            EdgeKind::QueriedDomain => "queried_domain",
        }
    }
}

/// One row of the node table; `(kind, id)` is its key.
#[derive(Debug)]
pub struct NodeRow {
    pub kind: NodeKind,
    pub id: String,
    pub attrs: Json,
    pub first_seen: i64,
    pub last_seen: i64,
}

/// What a `NodeRow` holds.
pub struct NodeRowView {
    pub kind: NodeKind,
    pub id: Seq<char>,
    pub attrs: JsonView,
    pub first_seen: i64,
    pub last_seen: i64,
}

impl DeepView for NodeRow {
    type V = NodeRowView;

    open spec fn deep_view(&self) -> NodeRowView {
        NodeRowView {
            kind: self.kind,
            id: self.id@,
            attrs: self.attrs@,
            first_seen: self.first_seen,
            last_seen: self.last_seen,
        }
    }
}

/// One row of the edge table; the kind and the two ends are its key.
#[derive(Debug)]
pub struct EdgeRow {
    pub kind: EdgeKind,
    pub from_kind: NodeKind,
    pub from_id: String,
    pub to_kind: NodeKind,
    pub to_id: String,
    pub count: u64,
    pub first_seen: i64,
    pub last_seen: i64,
    pub attrs: Json,
}

/// What an `EdgeRow` holds.
pub struct EdgeRowView {
    pub kind: EdgeKind,
    pub from_kind: NodeKind,
    pub from_id: Seq<char>,
    pub to_kind: NodeKind,
    pub to_id: Seq<char>,
    pub count: u64,
    pub first_seen: i64,
    pub last_seen: i64,
    pub attrs: JsonView,
}

impl DeepView for EdgeRow {
    type V = EdgeRowView;

    open spec fn deep_view(&self) -> EdgeRowView {
        EdgeRowView {
            kind: self.kind,
            from_kind: self.from_kind,
            from_id: self.from_id@,
            to_kind: self.to_kind,
            to_id: self.to_id@,
            count: self.count,
            first_seen: self.first_seen,
            last_seen: self.last_seen,
            attrs: self.attrs@,
        }
    }
}

/// One row of the event history.
#[derive(Debug)]
pub struct EventRow {
    pub ts_unix_ns: i64,
    pub kind: EventKind,
    pub pid: Option<u32>,
    pub schema_version: u32,
    pub payload: Json,
}

/// What an `EventRow` holds.
pub struct EventRowView {
    pub ts_unix_ns: i64,
    pub kind: EventKind,
    pub pid: Option<u32>,
    pub schema_version: u32,
    pub payload: JsonView,
}

impl DeepView for EventRow {
    type V = EventRowView;

    open spec fn deep_view(&self) -> EventRowView {
        EventRowView {
            ts_unix_ns: self.ts_unix_ns,
            kind: self.kind,
            pid: self.pid,
            schema_version: self.schema_version,
            payload: self.payload@,
        }
    }
}

/// Why a store refuses a request.
#[derive(Debug)]
pub enum StoreError {
    Sql(String),
    Json(String),
    Migration(String),
}

/// What a merge did.
#[derive(Debug, Clone, Copy, PartialEq, Eq, Structural)]
pub struct MergeReport {
    pub nodes_inserted: u64,
    pub nodes_updated: u64,
    pub edges_inserted: u64,
    pub edges_updated: u64,
}

impl Default for MergeReport {
    fn default() -> (r: Self)
        ensures
            r == (MergeReport {
                nodes_inserted: 0,
                nodes_updated: 0,
                edges_inserted: 0,
                edges_updated: 0,
            }),
    {
        MergeReport { nodes_inserted: 0, nodes_updated: 0, edges_inserted: 0, edges_updated: 0 }
    }
}

/// The tables.
#[derive(Debug)]
pub struct Store {
    pub(crate) nodes: Vec<NodeRow>,
    pub(crate) edges: Vec<EdgeRow>,
    pub(crate) events: Vec<EventRow>,
    pub(crate) meta: Vec<(String, String)>,
}

/// What the tables hold.
#[verifier::ext_equal]
pub struct StoreView {
    pub nodes: Seq<NodeRowView>,
    pub edges: Seq<EdgeRowView>,
    pub events: Seq<EventRowView>,
    pub meta: Seq<(Seq<char>, Seq<char>)>,
}

impl View for Store {
    type V = StoreView;

    open(crate) spec fn view(&self) -> StoreView {
        StoreView {
            nodes: self.nodes.deep_view(),
            edges: self.edges.deep_view(),
            events: self.events.deep_view(),
            meta: self.meta.deep_view(),
        }
    }
}

// ---------- keys ------------------------------------------------------------

/// The text of a process identity: `pid:start`.
pub open spec fn process_id_text(id: ProcessId) -> Seq<char> {
    decimal(id.pid as nat) + seq![':'] + decimal(id.start_unix_secs as nat)
}

/// The identity that a text writes; a part that is no number counts as zero.
pub open spec fn process_id_of(s: Seq<char>) -> ProcessId {
    let cut = find(s, seq![':']);
    let pid = match cut {
        Some(i) => parse_unsigned(s.take(i), u32::MAX as nat),
        None => parse_unsigned(s, u32::MAX as nat),
    };
    let start = match cut {
        Some(i) => parse_unsigned(s.skip(i + 1), u64::MAX as nat),
        None => Some(0),
    };
    ProcessId {
        pid: match pid {
            Some(n) => n as u32,
            None => 0,
        },
        start_unix_secs: match start {
            Some(n) => n as u64,
            None => 0,
        },
    }
}

/// The text of a connection identity: `proto|local|foreign`.
pub open spec fn socket_id_text(id: SocketIdView) -> Seq<char> {
    id.proto + seq!['|'] + id.local_addr + seq!['|'] + id.foreign_addr
}

/// The identity that a text writes, if it has at least two bars: the first two
/// separate the parts.
pub open spec fn socket_id_of(s: Seq<char>) -> Option<SocketIdView> {
    match find(s, seq!['|']) {
        Some(i) => match find_from(s, seq!['|'], i + 1) {
            Some(j) => Some(
                SocketIdView {
                    proto: s.take(i),
                    local_addr: s.subrange(i + 1, j),
                    foreign_addr: s.skip(j + 1),
                },
            ),
            None => None,
        },
        None => None,
    }
}

/// The text of a process identity.
pub fn process_id_to_string(id: &ProcessId) -> (r: String)
    ensures
        r@ == process_id_text(*id),
{
    let mut s = String::new();
    push_u64(&mut s, id.pid as u64);
    push_char(&mut s, ':');
    push_u64(&mut s, id.start_unix_secs);
    assert(s@ =~= process_id_text(*id));
    s
}

/// The identity that a text writes.
pub fn process_id_from_string(s: &str) -> (r: ProcessId)
    ensures
        r == process_id_of(s@),
{
    let cs: Vec<char> = chars_of(s);
    let colon = [':'];
    assert(colon@ =~= seq![':']);
    match find_chars(cs.as_slice(), &colon, 0) {
        Some(i) => {
            proof {
                find_is_first(s@, seq![':'], 0);
            }
            let n: usize = cs.len();
            let left: Vec<char> = chars_of(string_of(cs.as_slice(), 0, i).as_str());
            let right: Vec<char> = chars_of(string_of(cs.as_slice(), i + 1, n).as_str());
            assert(left@ =~= s@.take(i as int));
            assert(right@ =~= s@.skip(i + 1));
            ProcessId {
                pid: match parse_u32(left.as_slice()) {
                    Some(n) => n,
                    None => 0,
                },
                start_unix_secs: match parse_u64(right.as_slice()) {
                    Some(n) => n,
                    None => 0,
                },
            }
        },
        None => ProcessId {
            pid: match parse_u32(cs.as_slice()) {
                Some(n) => n,
                None => 0,
            },
            start_unix_secs: 0,
        },
    }
}

/// The text of a connection identity.
pub fn socket_id_to_string(id: &SocketId) -> (r: String)
    ensures
        r@ == socket_id_text(id.deep_view()),
{
    let mut s = id.proto.clone();
    push_char(&mut s, '|');
    s.append(id.local_addr.as_str());
    push_char(&mut s, '|');
    s.append(id.foreign_addr.as_str());
    assert(s@ =~= socket_id_text(id.deep_view()));
    s
}

/// The connection identity that a text writes.
pub fn socket_id_from_string(s: &str) -> (r: Option<SocketId>)
    ensures
        r.deep_view() == socket_id_of(s@),
{
    let cs: Vec<char> = chars_of(s);
    let n: usize = cs.len();
    let bar = ['|'];
    assert(bar@ =~= seq!['|']);
    match find_chars(cs.as_slice(), &bar, 0) {
        Some(i) => {
            proof {
                find_is_first(s@, seq!['|'], 0);
            }
            match find_chars(cs.as_slice(), &bar, i + 1) {
                Some(j) => {
                    proof {
                        find_is_first(s@, seq!['|'], i + 1);
                    }
                    let r = SocketId {
                        proto: string_of(cs.as_slice(), 0, i),
                        local_addr: string_of(cs.as_slice(), i + 1, j),
                        foreign_addr: string_of(cs.as_slice(), j + 1, n),
                    };
                    assert(r.proto@ =~= s@.take(i as int));
                    assert(r.foreign_addr@ =~= s@.skip(j + 1));
                    Some(r)
                },
                None => None,
            }
        },
        None => None,
    }
}

/// A character is found at the first position from `from` on that holds it.
proof fn char_found_at(s: Seq<char>, c: char, from: int, k: int)
    requires
        0 <= from <= k < s.len(),
        s[k] == c,
        forall|i: int| from <= i < k ==> s[i] != c,
    ensures
        find_from(s, seq![c], from) == Some(k),
{
    find_is_first(s, seq![c], from);
    assert(s.subrange(k, k + 1) =~= seq![c]);
    assert(occurs_at(s, seq![c], k));
    match find_from(s, seq![c], from) {
        Some(i) => {
            assert(s.subrange(i, i + 1)[0] == c);
        },
        None => {},
    }
}

/// A process identity is read back from its own text.
pub proof fn process_id_round_trip(id: ProcessId)
    ensures
        process_id_of(process_id_text(id)) == id,
{
    let s = process_id_text(id);
    let a = decimal(id.pid as nat);
    let b = decimal(id.start_unix_secs as nat);
    decimal_round_trip(id.pid as nat);
    decimal_round_trip(id.start_unix_secs as nat);
    assert forall|i: int| 0 <= i < a.len() implies s[i] != ':' by {
        assert(s[i] == a[i]);
        assert(is_digit(a[i]));
    }
    char_found_at(s, ':', 0, a.len() as int);
    assert(s.take(a.len() as int) =~= a);
    assert(s.skip(a.len() as int + 1) =~= b);
    assert(is_digit(a[0]));
    assert(is_digit(b[0]));
}

/// A connection identity is read back from its own text, where no bar stands
/// in its protocol or its local address.
pub proof fn socket_id_round_trip(id: SocketIdView)
    requires
        !id.proto.contains('|'),
        !id.local_addr.contains('|'),
    ensures
        socket_id_of(socket_id_text(id)) == Some(id),
{
    let s = socket_id_text(id);
    let i = id.proto.len() as int;
    let j = i + 1 + id.local_addr.len();
    let tail = seq!['|'] + id.foreign_addr;
    let rest = id.local_addr + tail;
    assert(s =~= id.proto + (seq!['|'] + rest));
    assert(s[i] == '|');
    assert forall|k: int| 0 <= k < i implies s[k] != '|' by {
        assert(s[k] == id.proto[k]);
        assert(id.proto.contains(id.proto[k]));
    }
    char_found_at(s, '|', 0, i);
    assert(s.skip(i + 1) =~= rest);
    assert(s[j] == rest[j - i - 1]);
    assert forall|k: int| i + 1 <= k < j implies s[k] != '|' by {
        assert(s[k] == rest[k - i - 1]);
        assert(rest[k - i - 1] == id.local_addr[k - i - 1]);
        assert(id.local_addr.contains(id.local_addr[k - i - 1]));
    }
    char_found_at(s, '|', i + 1, j);
    assert(s.take(i) =~= id.proto);
    assert(s.subrange(i + 1, j) =~= id.local_addr);
    assert(s.skip(j + 1) =~= id.foreign_addr);
}

// ---------- times -----------------------------------------------------------

/// A timestamp in unix nanoseconds: the anchor plus the monotonic part, held
/// at the largest `u64`; without an anchor the monotonic part alone.
pub open spec fn unix_ns(ts: Timestamp) -> u64 {
    if ts.wall_anchor_ns == 0 {
        ts.mono_ns
    } else if ts.wall_anchor_ns + ts.mono_ns > u64::MAX {
        u64::MAX
    } else {
        (ts.wall_anchor_ns + ts.mono_ns) as u64
    }
}

/// A timestamp as it stands in a table's column.
pub open spec fn column(ts: Timestamp) -> i64 {
    unix_ns(ts) as i64
}

/// A column's value as a timestamp without an anchor.
pub open spec fn column_ts(c: i64) -> Timestamp {
    Timestamp { mono_ns: c as u64, wall_anchor_ns: 0 }
}

/// A timestamp in unix nanoseconds.
pub fn ts_to_unix_ns(ts: Timestamp) -> (r: u64)
    ensures
        r == unix_ns(ts),
{
    if ts.wall_anchor_ns == 0 {
        ts.mono_ns
    } else {
        ts.wall_anchor_ns.saturating_add(ts.mono_ns)
    }
}

/// A timestamp as it stands in a table's column.
pub(crate) fn to_column(ts: Timestamp) -> (r: i64)
    ensures
        r == column(ts),
{
    #[verifier::truncate]
    (ts_to_unix_ns(ts) as i64)
}

/// A column's value as a timestamp without an anchor.
pub(crate) fn from_column(c: i64) -> (r: Timestamp)
    ensures
        r == column_ts(c),
{
    Timestamp { mono_ns: #[verifier::truncate] (c as u64), wall_anchor_ns: 0 }
}

/// A timestamp that went through a column keeps its unix nanoseconds.
pub proof fn column_round_trip(ts: Timestamp)
    ensures
        column_ts(column(ts)) == (Timestamp { mono_ns: unix_ns(ts), wall_anchor_ns: 0 }),
        unix_ns(column_ts(column(ts))) == unix_ns(ts),
{
    let n: u64 = unix_ns(ts);
    assert(((n as i64) as u64) == n) by (bit_vector);
}

} // verus!
