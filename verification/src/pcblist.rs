//! Socket rows from the kernel's own records.
//!
//! The kernel hands out a stream of records, each with its length and its kind
//! in front. A connection is a group of records; it is complete when every
//! kind of its protocol has been seen. Every field is read by its offset and
//! bounds-checked: a field that a record is too short for counts as absent.

use vstd::prelude::*;
use vstd::slice::slice_subrange;
use vstd::string::*;

use crate::inet::{ipv4_text, ipv4_to_text, ipv6_text, ipv6_to_text};
use crate::netstat::{NetstatRow, NetstatRowView};
use crate::seqs::{first_where, first_where_from, push_item, take_all, uniques};
use crate::text::{decimal, flat, u64_text, Parts};

verus! {

/// One socket; the same shape as a row of the printed table.
pub type SocketRow = NetstatRow;

pub const XSO_SOCKET: u32 = 0x001;
pub const XSO_RCVBUF: u32 = 0x002;
pub const XSO_SNDBUF: u32 = 0x004;
pub const XSO_STATS: u32 = 0x008;
pub const XSO_INPCB: u32 = 0x010;
pub const XSO_TCPCB: u32 = 0x020;
/// Every kind of a UDP connection's records.
pub const ALL_KIND_INP: u32 = 0x01f;
/// Every kind of a TCP connection's records.
pub const ALL_KIND_TCP: u32 = 0x03f;
/// The length of the frame around the list; a record no longer than it ends
/// the list.
pub const XINPGEN_LEN: usize = 24;
pub const INP_IPV4: u8 = 0x1;
pub const INP_IPV6: u8 = 0x2;

// ---------- fields -----------------------------------------------------------------

/// Whether a record has `n` bytes at an offset.
pub open spec fn has_bytes(b: Seq<u8>, off: int, n: int) -> bool {
    0 <= off && off + n <= b.len()
}

/// Two bytes, the larger one first.
pub open spec fn be16(b: Seq<u8>, off: int) -> u16 {
    (b[off] * 256 + b[off + 1]) as u16
}

/// Four bytes, the smallest one first.
pub open spec fn le32(b: Seq<u8>, off: int) -> u32 {
    (b[off] + b[off + 1] * 0x100 + b[off + 2] * 0x1_0000 + b[off + 3] * 0x100_0000) as u32
}

/// Eight bytes, the smallest one first.
pub open spec fn le64(b: Seq<u8>, off: int) -> u64 {
    (le32(b, off) + le32(b, off + 4) * 0x1_0000_0000) as u64
}

fn read_u16_be(b: &[u8], off: usize) -> (r: Option<u16>)
    ensures
        r == if has_bytes(b@, off as int, 2) {
            Some(be16(b@, off as int))
        } else {
            None
        },
{
    let n: usize = b.len();
    if off > n || n - off < 2 {
        None
    } else {
        Some(b[off] as u16 * 256 + b[off + 1] as u16)
    }
}

fn read_u32(b: &[u8], off: usize) -> (r: Option<u32>)
    ensures
        r == if has_bytes(b@, off as int, 4) {
            Some(le32(b@, off as int))
        } else {
            None
        },
{
    let n: usize = b.len();
    if off > n || n - off < 4 {
        None
    } else {
        Some(
            b[off] as u32 + b[off + 1] as u32 * 0x100 + b[off + 2] as u32 * 0x1_0000 + b[off
                + 3] as u32 * 0x100_0000,
        )
    }
}

fn read_u64(b: &[u8], off: usize) -> (r: Option<u64>)
    ensures
        r == if has_bytes(b@, off as int, 8) {
            Some(le64(b@, off as int))
        } else {
            None
        },
{
    let n: usize = b.len();
    if off > n || n - off < 8 {
        return None;
    }
    match (read_u32(b, off), read_u32(b, off + 4)) {
        (Some(lo), Some(hi)) => Some(lo as u64 + hi as u64 * 0x1_0000_0000),
        _ => None,
    }
}

/// The next multiple of eight.
pub open spec fn rounded(n: int) -> int {
    ((n + 7) / 8) * 8
}

// ---------- addresses --------------------------------------------------------------

/// A port, or a star for none.
pub open spec fn port_text(port: u16) -> Seq<char> {
    if port == 0 {
        "*"@
    } else {
        decimal(port as nat)
    }
}

/// Whether every byte of an address is zero.
pub open spec fn is_any(a: Seq<u8>) -> bool {
    forall|i: int| 0 <= i < a.len() ==> #[trigger] a[i] == 0
}

/// An address and a port with a dot between them; a star for any address.
pub open spec fn endpoint_text(a: Seq<u8>, port: u16) -> Seq<char> {
    flat(
        seq![
            if is_any(a) {
                "*"@
            } else if a.len() == 4 {
                ipv4_text(a)
            } else {
                ipv6_text(a)
            },
            "."@,
            port_text(port),
        ],
    )
}

fn fmt_port(port: u16) -> (r: String)
    ensures
        r@ == port_text(port),
{
    if port == 0 {
        "*".to_owned()
    } else {
        u64_text(port as u64)
    }
}

fn all_zero(a: &[u8]) -> (r: bool)
    ensures
        r == is_any(a@),
{
    let mut i: usize = 0;
    while i < a.len()
        invariant
            i <= a@.len(),
            forall|k: int| 0 <= k < i ==> #[trigger] a@[k] == 0,
        decreases a@.len() - i,
    {
        if a[i] != 0 {
            return false;
        }
        i = i + 1;
    }
    true
}

/// An address and a port with a dot between them.
pub fn fmt_addr(a: &[u8], port: u16) -> (r: String)
    requires
        a@.len() == 4 || a@.len() == 16,
    ensures
        r@ == endpoint_text(a@, port),
{
    let host: String = if all_zero(a) {
        "*".to_owned()
    } else if a.len() == 4 {
        ipv4_to_text(a)
    } else {
        ipv6_to_text(a)
    };
    let mut t = Parts::new();
    t.add(host.as_str());
    t.add(".");
    t.add(fmt_port(port).as_str());
    t.finish()
}

// ---------- one connection ---------------------------------------------------------

/// The name of a TCP state.
pub open spec fn tcp_state(n: u32) -> Option<Seq<char>> {
    if n == 0 {
        Some("CLOSED"@)
    } else if n == 1 {
        Some("LISTEN"@)
    } else if n == 2 {
        Some("SYN_SENT"@)
    } else if n == 3 {
        Some("SYN_RCVD"@)
    } else if n == 4 {
        Some("ESTABLISHED"@)
    } else if n == 5 {
        Some("CLOSE_WAIT"@)
    } else if n == 6 {
        Some("FIN_WAIT_1"@)
    } else if n == 7 {
        Some("CLOSING"@)
    } else if n == 8 {
        Some("LAST_ACK"@)
    } else if n == 9 {
        Some("FIN_WAIT_2"@)
    } else if n == 10 {
        Some("TIME_WAIT"@)
    } else {
        None
    }
}

fn state_name(n: u32) -> (r: Option<String>)
    ensures
        r.deep_view() == tcp_state(n),
{
    if n == 0 {
        Some("CLOSED".to_owned())
    } else if n == 1 {
        Some("LISTEN".to_owned())
    } else if n == 2 {
        Some("SYN_SENT".to_owned())
    } else if n == 3 {
        Some("SYN_RCVD".to_owned())
    } else if n == 4 {
        Some("ESTABLISHED".to_owned())
    } else if n == 5 {
        Some("CLOSE_WAIT".to_owned())
    } else if n == 6 {
        Some("FIN_WAIT_1".to_owned())
    } else if n == 7 {
        Some("CLOSING".to_owned())
    } else if n == 8 {
        Some("LAST_ACK".to_owned())
    } else if n == 9 {
        Some("FIN_WAIT_2".to_owned())
    } else if n == 10 {
        Some("TIME_WAIT".to_owned())
    } else {
        None
    }
}

/// The protocol's name: by the address families that the flags allow.
pub open spec fn proto_text(vflag: u8, tcp: bool) -> Seq<char> {
    if vflag & INP_IPV6 != 0 && vflag & INP_IPV4 == 0 {
        if tcp {
            "tcp6"@
        } else {
            "udp6"@
        }
    } else if vflag & INP_IPV6 != 0 {
        if tcp {
            "tcp46"@
        } else {
            "udp46"@
        }
    } else if tcp {
        "tcp4"@
    } else {
        "udp4"@
    }
}

/// A sum held at the largest `u64`.
pub open spec fn sat_sum(a: u64, b: u64) -> u64 {
    if a + b > u64::MAX {
        u64::MAX
    } else {
        (a + b) as u64
    }
}

/// The sum of a counter over the first `n` traffic classes.
pub open spec fn class_sum(st: Seq<u8>, at: int, n: int) -> u64
    decreases n,
{
    if n <= 0 {
        0
    } else {
        sat_sum(class_sum(st, at, n - 1), le64(st, 8 + (n - 1) * 32 + at))
    }
}

/// The bytes received and sent over all traffic classes, if the record holds
/// them all.
pub open spec fn traffic_of(stats: Option<Seq<u8>>) -> (Option<u64>, Option<u64>) {
    match stats {
        Some(st) if st.len() >= 136 => (Some(class_sum(st, 8, 4)), Some(class_sum(st, 24, 4))),
        _ => (None, None),
    }
}

/// The owner of a socket: the last process that used it, if there was one.
pub open spec fn owner_of(so: Seq<u8>) -> Option<u32> {
    if has_bytes(so, 68, 4) && 0 < le32(so, 68) <= 0x7fff_ffff {
        Some(le32(so, 68))
    } else {
        None
    }
}

/// The state of a TCP connection.
pub open spec fn state_of(tcpcb: Option<Seq<u8>>, tcp: bool) -> Option<Seq<char>> {
    match tcpcb {
        Some(t) if tcp && has_bytes(t, 36, 4) => tcp_state(le32(t, 36)),
        _ => None,
    }
}

/// The row of a connection, if its address record is long enough. The owner's
/// name is left open.
pub open spec fn connection_row(
    inp: Seq<u8>,
    so: Seq<u8>,
    tcpcb: Option<Seq<u8>>,
    stats: Option<Seq<u8>>,
    tcp: bool,
) -> Option<NetstatRowView> {
    if inp.len() < 80 {
        None
    } else {
        let six = inp[44] & INP_IPV6 != 0 && inp[44] & INP_IPV4 == 0;
        Some(
            NetstatRowView {
                proto: proto_text(inp[44], tcp),
                local_addr: endpoint_text(
                    if six {
                        inp.subrange(64, 80)
                    } else {
                        inp.subrange(76, 80)
                    },
                    be16(inp, 18),
                ),
                foreign_addr: endpoint_text(
                    if six {
                        inp.subrange(48, 64)
                    } else {
                        inp.subrange(60, 64)
                    },
                    be16(inp, 16),
                ),
                state: state_of(tcpcb, tcp),
                rxbytes: traffic_of(stats).0,
                txbytes: traffic_of(stats).1,
                process_name: Seq::empty(),
                pid: owner_of(so),
            },
        )
    }
}

/// A record that is there.
pub open spec fn record_view(r: Option<&[u8]>) -> Option<Seq<u8>> {
    match r {
        Some(b) => Some(b@),
        None => None,
    }
}

fn sum_classes(st: &[u8], at: usize) -> (r: u64)
    requires
        st@.len() >= 136,
        at <= 24,
    ensures
        r == class_sum(st@, at as int, 4),
{
    let mut sum: u64 = 0;
    let mut i: usize = 0;
    while i < 4
        invariant
            st@.len() >= 136,
            at <= 24,
            i <= 4,
            sum == class_sum(st@, at as int, i as int),
        decreases 4 - i,
    {
        match read_u64(st, 8 + i * 32 + at) {
            Some(n) => {
                sum = sum.saturating_add(n);
            },
            None => {},
        }
        i = i + 1;
    }
    sum
}

/// Builds the row of a connection from its records.
pub fn build_row(
    inp: &[u8],
    so: &[u8],
    tcpcb: Option<&[u8]>,
    stats: Option<&[u8]>,
    tcp: bool,
) -> (r: Option<SocketRow>)
    ensures
        r.deep_view() == connection_row(inp@, so@, record_view(tcpcb), record_view(stats), tcp),
{
    if inp.len() < 80 {
        return None;
    }
    let fport: u16 = match read_u16_be(inp, 16) {
        Some(p) => p,
        None => return None,
    };
    let lport: u16 = match read_u16_be(inp, 18) {
        Some(p) => p,
        None => return None,
    };
    let vflag: u8 = inp[44];
    let six: bool = vflag & INP_IPV6 != 0 && vflag & INP_IPV4 == 0;
    let proto: String = if six {
        if tcp {
            "tcp6".to_owned()
        } else {
            "udp6".to_owned()
        }
    } else if vflag & INP_IPV6 != 0 {
        if tcp {
            "tcp46".to_owned()
        } else {
            "udp46".to_owned()
        }
    } else if tcp {
        "tcp4".to_owned()
    } else {
        "udp4".to_owned()
    };
    let local_addr: String = if six {
        fmt_addr(slice_subrange(inp, 64, 80), lport)
    } else {
        fmt_addr(slice_subrange(inp, 76, 80), lport)
    };
    let foreign_addr: String = if six {
        fmt_addr(slice_subrange(inp, 48, 64), fport)
    } else {
        fmt_addr(slice_subrange(inp, 60, 64), fport)
    };
    let pid: Option<u32> = match read_u32(so, 68) {
        Some(p) => if p > 0 && p <= 0x7fff_ffff {
            Some(p)
        } else {
            None
        },
        None => None,
    };
    let state: Option<String> = match tcpcb {
        Some(t) => if tcp {
            match read_u32(t, 36) {
                Some(s) => state_name(s),
                None => None,
            }
        } else {
            None
        },
        None => None,
    };
    let (rxbytes, txbytes) = match stats {
        Some(st) => if st.len() >= 136 {
            (Some(sum_classes(st, 8)), Some(sum_classes(st, 24)))
        } else {
            (None, None)
        },
        None => (None, None),
    };
    let row = NetstatRow {
        proto,
        local_addr,
        foreign_addr,
        state,
        rxbytes,
        txbytes,
        process_name: String::new(),
        pid,
    };
    Some(row)
}

// ---------- the stream -------------------------------------------------------------

/// The records of the connection under way.
pub struct GroupView {
    pub which: u32,
    pub inpcb: Option<Seq<u8>>,
    pub socket: Option<Seq<u8>>,
    pub tcpcb: Option<Seq<u8>>,
    pub stats: Option<Seq<u8>>,
}

impl GroupView {
    /// No record yet.
    pub open spec fn empty() -> GroupView {
        GroupView { which: 0, inpcb: None, socket: None, tcpcb: None, stats: None }
    }

    /// One more record of a kind.
    pub open spec fn with(self, rec: Seq<u8>) -> GroupView {
        let kind = le32(rec, 4);
        GroupView {
            which: self.which | kind,
            inpcb: if kind == XSO_INPCB {
                Some(rec)
            } else {
                self.inpcb
            },
            socket: if kind == XSO_SOCKET {
                Some(rec)
            } else {
                self.socket
            },
            tcpcb: if kind == XSO_TCPCB {
                Some(rec)
            } else {
                self.tcpcb
            },
            stats: if kind == XSO_STATS {
                Some(rec)
            } else {
                self.stats
            },
        }
    }

    /// Whether every kind of the protocol has been seen.
    pub open spec fn complete(self, tcp: bool) -> bool {
        let mask = if tcp {
            ALL_KIND_TCP
        } else {
            ALL_KIND_INP
        };
        self.which & mask == mask
    }

    /// The row of the connection, if there is one.
    pub open spec fn row(self, tcp: bool) -> Option<NetstatRowView> {
        match (self.inpcb, self.socket) {
            (Some(inp), Some(so)) => connection_row(inp, so, self.tcpcb, self.stats, tcp),
            _ => None,
        }
    }
}

/// A row that is there, as a sequence.
pub open spec fn row_seq(r: Option<NetstatRowView>) -> Seq<NetstatRowView> {
    match r {
        Some(v) => seq![v],
        None => Seq::empty(),
    }
}

/// Whether a whole record begins at an offset: one that is longer than the
/// frame and ends within the buffer.
pub open spec fn record_at(buf: Seq<u8>, off: int) -> bool {
    off + 8 <= buf.len() && le32(buf, off) > XINPGEN_LEN && off + le32(buf, off) <= buf.len()
}

/// The rows of the records from an offset on, with a connection under way.
pub open spec fn rows_from(buf: Seq<u8>, off: int, g: GroupView, tcp: bool) -> Seq<NetstatRowView>
    decreases
            if off < buf.len() {
                buf.len() - off
            } else {
                0
            },
{
    if off < 0 || !record_at(buf, off) {
        Seq::empty()
    } else {
        let len = le32(buf, off) as int;
        let next = g.with(buf.subrange(off, off + len));
        if next.complete(tcp) {
            row_seq(next.row(tcp)) + rows_from(buf, off + rounded(len), GroupView::empty(), tcp)
        } else {
            rows_from(buf, off + rounded(len), next, tcp)
        }
    }
}

/// The rows of a list: its frame is skipped, then records are read until the
/// frame at its end.
pub open spec fn rows_of(buf: Seq<u8>, tcp: bool) -> Seq<NetstatRowView> {
    if buf.len() < 4 {
        Seq::empty()
    } else {
        rows_from(buf, rounded(le32(buf, 0) as int), GroupView::empty(), tcp)
    }
}

/// The next multiple of eight, if a `usize` holds it.
fn roundup8(n: usize) -> (r: Option<usize>)
    ensures
        r == if rounded(n as int) <= usize::MAX {
            Some(rounded(n as int) as usize)
        } else {
            None
        },
{
    let rest: usize = n % 8;
    if rest == 0 {
        Some(n)
    } else if n > usize::MAX - (8 - rest) {
        None
    } else {
        Some(n + (8 - rest))
    }
}

/// Reads a list of records. The owners' names are left open.
pub fn parse_pcblist(buf: &[u8], tcp: bool) -> (r: Vec<SocketRow>)
    ensures
        r.deep_view() == rows_of(buf@, tcp),
{
    let mut rows: Vec<SocketRow> = Vec::new();
    assert(rows.deep_view() =~= Seq::<NetstatRowView>::empty());
    let n: usize = buf.len();
    let first: u32 = match read_u32(buf, 0) {
        Some(x) => x,
        None => return rows,
    };
    let mut off: usize = match roundup8(first as usize) {
        Some(o) => o,
        None => {
            return rows;
        },
    };
    let mask: u32 = if tcp {
        ALL_KIND_TCP
    } else {
        ALL_KIND_INP
    };
    let mut which: u32 = 0;
    let mut inpcb: Option<&[u8]> = None;
    let mut socket: Option<&[u8]> = None;
    let mut tcpcb: Option<&[u8]> = None;
    let mut stats: Option<&[u8]> = None;
    let ghost whole = rows_of(buf@, tcp);
    assert(rows.deep_view() + whole =~= whole);
    loop
        invariant_except_break
            n == buf@.len(),
            mask == if tcp {
                ALL_KIND_TCP
            } else {
                ALL_KIND_INP
            },
            whole == rows.deep_view() + rows_from(
                buf@,
                off as int,
                GroupView {
                    which,
                    inpcb: record_view(inpcb),
                    socket: record_view(socket),
                    tcpcb: record_view(tcpcb),
                    stats: record_view(stats),
                },
                tcp,
            ),
        ensures
            whole == rows.deep_view(),
        decreases n - off,
    {
        let ghost g = GroupView {
            which,
            inpcb: record_view(inpcb),
            socket: record_view(socket),
            tcpcb: record_view(tcpcb),
            stats: record_view(stats),
        };
        let ghost before = rows.deep_view();
        assert(before + Seq::<NetstatRowView>::empty() =~= before);
        if off > n || n - off < 8 {
            break;
        }
        let len32: u32 = match read_u32(buf, off) {
            Some(l) => l,
            None => break,
        };
        let len: usize = len32 as usize;
        if len <= XINPGEN_LEN || len > n - off {
            break;
        }
        let rec: &[u8] = slice_subrange(buf, off, off + len);
        let kind: u32 = match read_u32(rec, 4) {
            Some(k) => k,
            None => 0,
        };
        if kind == XSO_INPCB {
            inpcb = Some(rec);
        } else if kind == XSO_SOCKET {
            socket = Some(rec);
        } else if kind == XSO_TCPCB {
            tcpcb = Some(rec);
        } else if kind == XSO_STATS {
            stats = Some(rec);
        }
        which = which | kind;
        let ghost next = g.with(rec@);
        assert(next == (GroupView {
            which,
            inpcb: record_view(inpcb),
            socket: record_view(socket),
            tcpcb: record_view(tcpcb),
            stats: record_view(stats),
        }));
        let ghost rest = rows_from(
            buf@,
            off + rounded(len as int),
            if next.complete(tcp) {
                GroupView::empty()
            } else {
                next
            },
            tcp,
        );
        if which & mask == mask {
            match (inpcb, socket) {
                (Some(inp), Some(so)) => match build_row(inp, so, tcpcb, stats, tcp) {
                    Some(row) => push_item(&mut rows, row),
                    None => {},
                },
                _ => {},
            }
            which = 0;
            inpcb = None;
            socket = None;
            tcpcb = None;
            stats = None;
            assert(rows.deep_view() =~= before + row_seq(next.row(tcp)));
            assert(before + (row_seq(next.row(tcp)) + rest) =~= (before + row_seq(next.row(tcp)))
                + rest);
        }
        match roundup8(len) {
            Some(step) => {
                if step > n - off {
                    assert(rest =~= Seq::<NetstatRowView>::empty());
                    assert(rows.deep_view() + rest =~= rows.deep_view());
                    break;
                }
                off = off + step;
            },
            None => {
                assert(rest =~= Seq::<NetstatRowView>::empty());
                assert(rows.deep_view() + rest =~= rows.deep_view());
                break;
            },
        }
    }
    rows
}

// ---------- names ------------------------------------------------------------------

/// The owners of rows, in order, without those that have none.
pub open spec fn owners(rows: Seq<NetstatRowView>) -> Seq<u32>
    decreases rows.len(),
{
    if rows.len() == 0 {
        Seq::empty()
    } else {
        let rest = owners(rows.drop_last());
        match rows.last().pid {
            Some(p) => rest.push(p),
            None => rest,
        }
    }
}

/// The owners whose names have to be looked up, each once.
pub fn pids_of(rows: &Vec<SocketRow>) -> (r: Vec<u32>)
    ensures
        r@ == uniques(owners(rows.deep_view())),
{
    let ghost all = rows.deep_view();
    let mut out: Vec<u32> = Vec::new();
    let mut i: usize = 0;
    assert(out@ =~= owners(all.take(0)));
    while i < rows.len()
        invariant
            all == rows.deep_view(),
            i <= rows@.len(),
            out@ == owners(all.take(i as int)),
        decreases rows@.len() - i,
    {
        assert(all.take(i + 1).drop_last() =~= all.take(i as int));
        assert(all.take(i + 1).last() == rows@[i as int].deep_view());
        match rows[i].pid {
            Some(p) => out.push(p),
            None => {},
        }
        i = i + 1;
    }
    proof {
        take_all(all);
    }
    crate::store_query::unique_u32(&out)
}

/// Whether a name is that of a process.
pub open spec fn is_name_of(pid: u32) -> spec_fn((u32, Seq<char>)) -> bool {
    |n: (u32, Seq<char>)| n.0 == pid
}

/// The name of an owner among the names that were looked up; empty where there
/// is none.
pub open spec fn name_of(pid: Option<u32>, names: Seq<(u32, Seq<char>)>) -> Seq<char> {
    match pid {
        Some(p) => match first_where(names, is_name_of(p)) {
            Some(i) => names[i].1,
            None => Seq::empty(),
        },
        None => Seq::empty(),
    }
}

fn find_name(pid: Option<u32>, names: &Vec<(u32, String)>) -> (r: String)
    ensures
        r@ == name_of(pid, names.deep_view()),
{
    let ghost all = names.deep_view();
    match pid {
        Some(p) => {
            let mut i: usize = 0;
            while i < names.len()
                invariant
                    all == names.deep_view(),
                    pid == Some(p),
                    i <= names@.len(),
                    first_where(all, is_name_of(p)) == first_where_from(all, is_name_of(p), i as int),
                decreases names@.len() - i,
            {
                assert(all[i as int].0 == names@[i as int].0);
                if names[i].0 == p {
                    return names[i].1.clone();
                }
                i = i + 1;
            }
            String::new()
        },
        None => String::new(),
    }
}

/// Fills in the owners' names.
pub fn with_names(rows: Vec<SocketRow>, names: &Vec<(u32, String)>) -> (r: Vec<SocketRow>)
    ensures
        r.deep_view() == Seq::new(
            rows.deep_view().len(),
            |i: int|
                NetstatRowView {
                    process_name: name_of(rows.deep_view()[i].pid, names.deep_view()),
                    ..rows.deep_view()[i]
                },
        ),
{
    let ghost all = rows.deep_view();
    let ghost nv = names.deep_view();
    let ghost want = Seq::new(
        all.len(),
        |i: int| NetstatRowView { process_name: name_of(all[i].pid, nv), ..all[i] },
    );
    let mut out: Vec<SocketRow> = Vec::new();
    assert(out.deep_view() =~= want.take(0));
    for row in it: rows
        invariant
            it.seq() == rows@,
            all == rows.deep_view(),
            nv == names.deep_view(),
            want == Seq::new(
                all.len(),
                |i: int| NetstatRowView { process_name: name_of(all[i].pid, nv), ..all[i] },
            ),
            out.deep_view() == want.take(it.index() as int),
    {
        let ghost i = it.index() as int;
        assert(all[i] == row.deep_view());
        let mut row = row;
        row.process_name = find_name(row.pid, names);
        push_item(&mut out, row);
        assert(want.take(i).push(want[i]) =~= want.take(i + 1));
    }
    proof {
        take_all(want);
    }
    out
}

// ---------- laws -------------------------------------------------------------------

/// A row of a TCP list has one of the states that are named, or none; a row of
/// a UDP list has none.
pub proof fn states_are_named(
    inp: Seq<u8>,
    so: Seq<u8>,
    tcpcb: Option<Seq<u8>>,
    stats: Option<Seq<u8>>,
    tcp: bool,
)
    ensures
        connection_row(inp, so, tcpcb, stats, tcp) matches Some(r) ==> {
            &&& (!tcp ==> r.state is None)
            &&& (r.state matches Some(s) ==> exists|n: u32| n <= 10 && #[trigger] tcp_state(n) == Some(s))
        },
{
    match tcpcb {
        Some(t) if tcp && has_bytes(t, 36, 4) => {
            let n = le32(t, 36);
            if n > 10 {
                assert(tcp_state(n) is None);
            }
        },
        _ => {},
    }
}

} // verus!
