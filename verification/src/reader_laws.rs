//! What holds of the readings of the machine: what a reading tells is what was
//! read.

use vstd::prelude::*;
use vstd::string::*;

use crate::adapters::{
    bit_set, file_observation, flag_at, flag_names, flags_of, numbers, process_observation,
    signed_of, system_payload, unsigned_of, KernelValue, LoadAverage, ProcessInfo, StaticInfo,
};
use crate::dns_log::{
    behind_last, between, query_observation, query_of, record_query, without_leading,
    without_trailing, QueryView,
};
use crate::es_log::line_observation;
use crate::fsevents_coalesce::texts_at;
use crate::json::JsonView;
use crate::lifecycle_laws::field_is_read;
use crate::observation::{Source, Timestamp};
use crate::pcblist::{
    class_sum, connection_row, endpoint_text, is_any, le32, le64, proto_text, record_at, rounded,
    row_seq, rows_from, GroupView,
};
use crate::seqs::{filter_map_from, filter_map_keeps};
use crate::stage_laws::texts_read_back;
use crate::text::{
    decimal, find, find_from, find_is_first, flat, holds, occurs_at, parse_signed, parse_unsigned,
    rfind, split_first, trim,
};

verus! {

// ---------- changes of files -------------------------------------------------------

/// Whether a bit of a change has a name.
pub open spec fn is_named(bit: int, name: Seq<char>) -> bool {
    ||| bit == 0 && name == "must_scan_subdirs"@
    ||| bit == 1 && name == "user_dropped"@
    ||| bit == 2 && name == "kernel_dropped"@
    ||| bit == 3 && name == "ids_wrapped"@
    ||| bit == 4 && name == "history_done"@
    ||| bit == 5 && name == "root_changed"@
    ||| bit == 6 && name == "mount"@
    ||| bit == 7 && name == "unmount"@
    ||| bit == 8 && name == "created"@
    ||| bit == 9 && name == "removed"@
    ||| bit == 10 && name == "inode_meta_mod"@
    ||| bit == 11 && name == "renamed"@
    ||| bit == 12 && name == "modified"@
    ||| bit == 13 && name == "finder_info_mod"@
    ||| bit == 14 && name == "change_owner"@
    ||| bit == 15 && name == "xattr_mod"@
    ||| bit == 16 && name == "is_file"@
    ||| bit == 17 && name == "is_dir"@
    ||| bit == 18 && name == "is_symlink"@
    ||| bit == 19 && name == "own_event"@
    ||| bit == 20 && name == "is_hardlink"@
    ||| bit == 21 && name == "is_last_hardlink"@
    ||| bit == 22 && name == "cloned"@
}

/// A change is told by the names of the bits that are set, and by no others.
pub proof fn set_bits_are_told(bits: u32, name: Seq<char>)
    ensures
        flags_of(bits).contains(name) <==> exists|i: int| #[trigger]
            is_named(i, name) && bit_set(bits, i),
{
    let all = numbers(flag_names().len());
    let f = flag_at(bits);
    assert forall|i: int| 0 <= i < 23 implies #[trigger] is_named(i, flag_names()[i]) by {}
    assert forall|i: int| #[trigger] is_named(i, name) implies 0 <= i < 23 && flag_names()[i]
        == name by {}
    if flags_of(bits).contains(name) {
        let k = choose|k: int| 0 <= k < flags_of(bits).len() && flags_of(bits)[k] == name;
        filter_map_from(all, f, k);
        let i = choose|i: int| 0 <= i < all.len() && f(#[trigger] all[i]) == Some(flags_of(bits)[k]);
        assert(is_named(i, name) && bit_set(bits, i));
    }
    if exists|i: int| #[trigger] is_named(i, name) && bit_set(bits, i) {
        let i = choose|i: int| #[trigger] is_named(i, name) && bit_set(bits, i);
        assert(all[i] == i);
        filter_map_keeps(all, f, i);
    }
}

/// The observation of a change tells the path, the names of the bits and the id.
pub proof fn file_change_is_told(path: Seq<char>, bits: u32, id: u64, at: Timestamp)
    ensures
        ({
            let o = file_observation(path, bits, id, at);
            &&& o.source == Source::FileSystem && o.timestamp == at && o.pid is None
            &&& o.payload.str_at("path"@) == Some(path)
            &&& texts_at(o.payload, "flags"@) == flags_of(bits)
            &&& o.payload.u64_at("event_id"@) == Some(id)
        }),
{
    reveal_strlit("path");
    reveal_strlit("flags");
    reveal_strlit("event_id");
    assert("path"@.len() == 4 && "flags"@.len() == 5 && "event_id"@.len() == 8);
    texts_read_back(flags_of(bits));
    let f = file_observation(path, bits, id, at).payload->Object_0;
    field_is_read(f, 0);
    field_is_read(f, 1);
    field_is_read(f, 2);
}

// ---------- processes and the machine ----------------------------------------------

/// The observation of a process tells what the kernel said of it.
pub proof fn process_is_told(p: ProcessInfo, at: Timestamp)
    ensures
        ({
            let o = process_observation(p, at);
            &&& o.source == Source::Process && o.timestamp == at && o.pid == Some(p.pid)
            &&& o.payload.u32_at("ppid"@) == Some(p.ppid)
            &&& o.payload.u32_at("uid"@) == Some(p.uid)
            &&& o.payload.u32_at("gid"@) == Some(p.gid)
            &&& o.payload.u32_at("pgid"@) == Some(p.pgid)
            &&& o.payload.str_at("comm"@) == Some(p.comm@)
            &&& o.payload.str_at("name"@) == Some(p.name@)
            &&& o.payload.str_at("exec_path"@) == p.exec_path.deep_view()
            &&& o.payload.u64_at("start_unix_secs"@) == Some(p.start_unix_secs)
            &&& o.payload.u32_at("status"@) == Some(p.status)
            &&& o.payload.u32_at("nfiles"@) == Some(p.nfiles)
        }),
{
    reveal_strlit("ppid");
    reveal_strlit("uid");
    reveal_strlit("gid");
    reveal_strlit("pgid");
    reveal_strlit("comm");
    reveal_strlit("name");
    reveal_strlit("exec_path");
    reveal_strlit("start_unix_secs");
    reveal_strlit("status");
    reveal_strlit("nfiles");
    assert("ppid"@.len() == 4 && "uid"@.len() == 3 && "gid"@.len() == 3 && "pgid"@.len() == 4);
    assert("comm"@.len() == 4 && "name"@.len() == 4 && "exec_path"@.len() == 9);
    assert("start_unix_secs"@.len() == 15 && "status"@.len() == 6 && "nfiles"@.len() == 6);
    assert("uid"@[0] != "gid"@[0] && "ppid"@[1] != "pgid"@[1] && "status"@[0] != "nfiles"@[0]);
    assert("comm"@[0] != "name"@[0] && "comm"@[0] != "ppid"@[0] && "name"@[0] != "ppid"@[0]);
    assert("comm"@[0] != "pgid"@[0] && "name"@[0] != "pgid"@[0]);
    let f = process_observation(p, at).payload->Object_0;
    field_is_read(f, 0);
    field_is_read(f, 1);
    field_is_read(f, 2);
    field_is_read(f, 3);
    field_is_read(f, 4);
    field_is_read(f, 5);
    field_is_read(f, 6);
    field_is_read(f, 7);
    field_is_read(f, 8);
    field_is_read(f, 9);
}

/// The number that a value of the kernel is.
pub open spec fn number_of(v: KernelValue) -> Option<int> {
    match v {
        KernelValue::Int(i) => Some(i as int),
        KernelValue::S8(i) => Some(i as int),
        KernelValue::S16(i) => Some(i as int),
        KernelValue::S32(i) => Some(i as int),
        KernelValue::S64(i) => Some(i as int),
        KernelValue::Long(i) => Some(i as int),
        KernelValue::Uint(i) => Some(i as int),
        KernelValue::U8(i) => Some(i as int),
        KernelValue::U16(i) => Some(i as int),
        KernelValue::U32(i) => Some(i as int),
        KernelValue::U64(i) => Some(i as int),
        KernelValue::Ulong(i) => Some(i as int),
        KernelValue::Other => None,
    }
}

/// A number of the kernel that an `i64` holds is read as it is, and one that a
/// `u64` holds too, unless its type is a narrow signed one; a negative number is
/// never read as one that is not.
pub proof fn kernel_numbers_are_read(v: KernelValue)
    ensures
        number_of(v) is Some && number_of(v)->0 <= i64::MAX ==> signed_of(v) == Some(
            number_of(v)->0 as i64,
        ),
        number_of(v) is None ==> signed_of(v) is None && unsigned_of(v) is None,
        unsigned_of(v) matches Some(r) ==> number_of(v) == Some(r as int),
        number_of(v) is Some && number_of(v)->0 >= 0 && !(v is S8) && !(v is S16) && !(v is S32)
            ==> unsigned_of(v) is Some,
{
}

/// The report on the machine tells what could be read, and null for what could
/// not.
pub proof fn machine_is_told(s: StaticInfo, load: Option<LoadAverage>)
    ensures
        ({
            let p = system_payload(s, load);
            &&& p.get("ncpu"@) == Some(
                match s.ncpu {
                    Some(n) => JsonView::Int(n as int),
                    None => JsonView::Null,
                },
            )
            &&& p.u64_at("memsize"@) == s.memsize
            &&& p.str_at("model"@) == s.model.deep_view()
            &&& p.str_at("ostype"@) == s.ostype.deep_view()
            &&& p.str_at("osrelease"@) == s.osrelease.deep_view()
            &&& p.str_at("osversion"@) == s.osversion.deep_view()
            &&& load matches Some(l) ==> p.get("loadavg_1m"@) == Some(JsonView::Real(l.one@))
                && p.get("loadavg_5m"@) == Some(JsonView::Real(l.five@)) && p.get("loadavg_15m"@)
                == Some(JsonView::Real(l.fifteen@))
            &&& load is None ==> p.get("loadavg_1m"@) == Some(JsonView::Null) && p.get(
                "loadavg_5m"@,
            ) == Some(JsonView::Null) && p.get("loadavg_15m"@) == Some(JsonView::Null)
        }),
{
    reveal_strlit("ncpu");
    reveal_strlit("memsize");
    reveal_strlit("model");
    reveal_strlit("ostype");
    reveal_strlit("osrelease");
    reveal_strlit("osversion");
    reveal_strlit("loadavg_1m");
    reveal_strlit("loadavg_5m");
    reveal_strlit("loadavg_15m");
    assert("ncpu"@.len() == 4 && "memsize"@.len() == 7 && "model"@.len() == 5);
    assert("ostype"@.len() == 6 && "osrelease"@.len() == 9 && "osversion"@.len() == 9);
    assert("loadavg_1m"@.len() == 10 && "loadavg_5m"@.len() == 10 && "loadavg_15m"@.len() == 11);
    assert("osrelease"@[2] != "osversion"@[2] && "loadavg_1m"@[8] != "loadavg_5m"@[8]);
    let f = system_payload(s, load)->Object_0;
    field_is_read(f, 0);
    field_is_read(f, 1);
    field_is_read(f, 2);
    field_is_read(f, 3);
    field_is_read(f, 4);
    field_is_read(f, 5);
    field_is_read(f, 6);
    field_is_read(f, 7);
    field_is_read(f, 8);
}

// ---------- name lookups -----------------------------------------------------------

/// Whether a text stands in another behind the first occurrence of a mark, up to
/// the next occurrence of an end.
pub open spec fn stands_between(s: Seq<char>, mark: Seq<char>, end: Seq<char>, t: Seq<char>) -> bool {
    exists|i: int, j: int|
        #![trigger occurs_at(s, mark, i), occurs_at(s, end, j)]
        occurs_at(s, mark, i) && (forall|k: int| 0 <= k < i ==> !occurs_at(s, mark, k)) && i
            + mark.len() <= j && occurs_at(s, end, j) && (forall|k: int|
            i + mark.len() <= k < j ==> !occurs_at(s, end, k)) && t == s.subrange(
            i + mark.len(),
            j,
        )
}

proof fn between_is_that(s: Seq<char>, mark: Seq<char>, end: Seq<char>, t: Seq<char>)
    ensures
        between(s, mark, end) == Some(t) <==> stands_between(s, mark, end, t),
{
    find_is_first(s, mark, 0);
    match find(s, mark) {
        Some(i) => {
            find_is_first(s, end, i + mark.len());
            if between(s, mark, end) == Some(t) {
                let j = find_from(s, end, i + mark.len())->0;
                assert(occurs_at(s, mark, i) && occurs_at(s, end, j));
            }
            if stands_between(s, mark, end, t) {
                let (a, b) = choose|a: int, b: int|
                    #![trigger occurs_at(s, mark, a), occurs_at(s, end, b)]
                    occurs_at(s, mark, a) && (forall|k: int| 0 <= k < a ==> !occurs_at(s, mark, k))
                        && a + mark.len() <= b && occurs_at(s, end, b) && (forall|k: int|
                        a + mark.len() <= k < b ==> !occurs_at(s, end, k)) && t == s.subrange(
                        a + mark.len(),
                        b,
                    );
                assert(a == i) by {
                    if a < i {
                        assert(!occurs_at(s, mark, a));
                    }
                    if i < a {
                        assert(!occurs_at(s, mark, i));
                    }
                }
                match find_from(s, end, i + mark.len()) {
                    Some(j) => {
                        if j < b {
                            assert(!occurs_at(s, end, j));
                        }
                        if b < j {
                            assert(!occurs_at(s, end, b));
                        }
                    },
                    None => {
                        assert(!occurs_at(s, end, b));
                    },
                }
            }
        },
        None => {
            if stands_between(s, mark, end, t) {
                let (a, b) = choose|a: int, b: int|
                    #![trigger occurs_at(s, mark, a), occurs_at(s, end, b)]
                    occurs_at(s, mark, a) && (forall|k: int| 0 <= k < a ==> !occurs_at(s, mark, k))
                        && a + mark.len() <= b && occurs_at(s, end, b) && (forall|k: int|
                        a + mark.len() <= k < b ==> !occurs_at(s, end, k)) && t == s.subrange(
                        a + mark.len(),
                        b,
                    );
                assert(!occurs_at(s, mark, a));
            }
        },
    }
}

/// Whether a query is what a message writes: each value stands behind its mark,
/// and the client is its process id, a space, and its name in brackets.
pub open spec fn writes_query(msg: Seq<char>, q: QueryView) -> bool {
    &&& stands_between(msg, "qname: "@, ", qtype:"@, q.qname)
    &&& stands_between(msg, "qtype: "@, ","@, q.qtype)
    &&& exists|t: Seq<char>| #[trigger]
        stands_between(msg, "interface index: "@, ","@, t) && parse_signed(
            t,
            i32::MIN as int,
            i32::MAX as int,
        ) == Some(q.interface_index as int)
    &&& exists|t: Seq<char>| #[trigger]
        stands_between(msg, "client pid: "@, ","@, t) && (split_first(t, ' ') matches Some((a, b))
            && parse_unsigned(a, u32::MAX as nat) == Some(q.client_pid as nat)
            && q.client_process_name == without_trailing(without_leading(trim(b), '('), ')'))
    &&& q.masked == occurs_at(q.qname, "<mask.hash"@, 0)
    &&& match rfind(msg, "name hash: "@) {
        Some(i) => q.name_hash == trim(msg.skip(i + "name hash: "@.len())),
        None => q.name_hash.len() == 0,
    }
}

/// A message is read as a query exactly if it writes one.
pub proof fn written_queries_are_read(msg: Seq<char>, q: QueryView)
    ensures
        query_of(msg) == Some(q) <==> writes_query(msg, q),
{
    let (a, b) = (between(msg, "qname: "@, ", qtype:"@), between(msg, "qtype: "@, ","@));
    let (c, d) = (between(msg, "interface index: "@, ","@), between(msg, "client pid: "@, ","@));
    between_is_that(msg, "qname: "@, ", qtype:"@, q.qname);
    between_is_that(msg, "qtype: "@, ","@, q.qtype);
    assert forall|t: Seq<char>| #[trigger]
        stands_between(msg, "interface index: "@, ","@, t) <==> c == Some(t) by {
        between_is_that(msg, "interface index: "@, ","@, t);
    }
    assert forall|t: Seq<char>| #[trigger]
        stands_between(msg, "client pid: "@, ","@, t) <==> d == Some(t) by {
        between_is_that(msg, "client pid: "@, ","@, t);
    }
    if query_of(msg) == Some(q) {
        assert(stands_between(msg, "interface index: "@, ","@, c->0));
        assert(stands_between(msg, "client pid: "@, ","@, d->0));
        assert(behind_last(msg, "name hash: "@) == q.name_hash);
    }
    if writes_query(msg, q) {
        let t = choose|t: Seq<char>| #[trigger]
            stands_between(msg, "interface index: "@, ","@, t) && parse_signed(
                t,
                i32::MIN as int,
                i32::MAX as int,
            ) == Some(q.interface_index as int);
        let u = choose|t: Seq<char>| #[trigger]
            stands_between(msg, "client pid: "@, ","@, t) && (split_first(t, ' ') matches Some(
                (a, b),
            ) && parse_unsigned(a, u32::MAX as nat) == Some(q.client_pid as nat)
                && q.client_process_name == without_trailing(without_leading(trim(b), '('), ')'));
        assert(c == Some(t) && d == Some(u));
        assert(behind_last(msg, "name hash: "@) =~= q.name_hash);
        assert(query_of(msg)->0.name_hash == q.name_hash);
    }
}

/// A name in brackets is read without them.
pub proof fn brackets_are_taken_off(name: Seq<char>)
    requires
        name.len() > 0,
        name[0] != '(',
        name.last() != ')',
    ensures
        without_trailing(without_leading(seq!['('] + name + seq![')'], '('), ')') == name,
{
    reveal_with_fuel(without_leading, 3);
    reveal_with_fuel(without_trailing, 3);
    let s = seq!['('] + name + seq![')'];
    assert(s.skip(1) =~= name + seq![')']);
    assert((name + seq![')']).drop_last() =~= name);
}

/// A record is of a query exactly if its message is the start of one, and then
/// it is what the message writes; the observation tells it.
pub proof fn query_records_are_told(v: JsonView, q: QueryView, at: Timestamp)
    ensures
        record_query(v) == Some(q) <==> (v.str_at("eventMessage"@) matches Some(msg) && holds(
            msg,
            "DNSServiceQueryRecord START"@,
        ) && writes_query(msg, q)),
        ({
            let o = query_observation(q, at);
            &&& o.source == Source::Network && o.timestamp == at && o.pid == Some(q.client_pid)
            &&& o.payload.str_at("kind"@) == Some("dns_query"@)
            &&& o.payload.str_at("qname"@) == Some(q.qname)
            &&& o.payload.str_at("qtype"@) == Some(q.qtype)
            &&& o.payload.str_at("name_hash"@) == Some(q.name_hash)
            &&& o.payload.get("interface_index"@) == Some(JsonView::Int(q.interface_index as int))
            &&& o.payload.str_at("client_process_name"@) == Some(q.client_process_name)
            &&& o.payload.bool_at("masked"@) == Some(q.masked)
        }),
{
    match v.str_at("eventMessage"@) {
        Some(msg) => {
            written_queries_are_read(msg, q);
        },
        None => {},
    }
    reveal_strlit("kind");
    reveal_strlit("qname");
    reveal_strlit("qtype");
    reveal_strlit("name_hash");
    reveal_strlit("masked");
    reveal_strlit("interface_index");
    reveal_strlit("client_process_name");
    assert("kind"@.len() == 4 && "qname"@.len() == 5 && "qtype"@.len() == 5);
    assert("masked"@.len() == 6 && "interface_index"@.len() == 15 && "name_hash"@.len() == 9);
    assert("client_process_name"@.len() == 19 && "qname"@[1] != "qtype"@[1]);
    let f = query_observation(q, at).payload->Object_0;
    field_is_read(f, 0);
    field_is_read(f, 1);
    field_is_read(f, 2);
    field_is_read(f, 3);
    field_is_read(f, 4);
    field_is_read(f, 5);
    field_is_read(f, 6);
}

/// A line of the endpoint-security log is told exactly if it is not blank and is
/// a document, whole and as of the process that acted.
pub proof fn log_lines_are_told(line: Seq<char>, document: Option<JsonView>, at: Timestamp)
    ensures
        line_observation(line, document, at) is Some <==> document is Some && trim(line).len() > 0,
        line_observation(line, document, at) matches Some(o) ==> {
            &&& o.payload == document->0
            &&& o.source == Source::Process && o.timestamp == at && o.tags is None
            &&& o.pid == match document->0.get("process"@) {
                Some(p) => match p.get("audit_token"@) {
                    Some(t) => t.u32_at("pid"@),
                    None => None,
                },
                None => None,
            }
        },
{
}

// ---------- the kernel's sockets ---------------------------------------------------

/// Whether bytes write a number, the smallest byte first.
pub open spec fn writes_le(b: Seq<u8>, off: int, n: int, count: int) -> bool
    decreases count,
{
    if count <= 0 {
        n == 0
    } else {
        0 <= off < b.len() && b[off] == n % 256 && writes_le(b, off + 1, n / 256, count - 1)
    }
}

/// A number of four bytes is read back.
pub proof fn four_bytes_are_read(b: Seq<u8>, off: int, n: u32)
    requires
        writes_le(b, off, n as int, 4),
        0 <= off,
        off + 4 <= b.len(),
    ensures
        le32(b, off) == n,
{
    reveal_with_fuel(writes_le, 5);
    let m = n as int;
    assert(m == m % 256 + (m / 256) % 256 * 0x100 + (m / 256 / 256) % 256 * 0x1_0000 + (m / 256
        / 256 / 256) % 256 * 0x100_0000);
}

/// The protocol of a connection: its letters, and the address families that it
/// may use.
pub proof fn protocols_are_named(vflag: u8, tcp: bool)
    ensures
        vflag == 1 && tcp ==> proto_text(vflag, tcp) == "tcp4"@,
        vflag == 1 && !tcp ==> proto_text(vflag, tcp) == "udp4"@,
        vflag == 2 && tcp ==> proto_text(vflag, tcp) == "tcp6"@,
        vflag == 2 && !tcp ==> proto_text(vflag, tcp) == "udp6"@,
        vflag == 3 && tcp ==> proto_text(vflag, tcp) == "tcp46"@,
        vflag == 3 && !tcp ==> proto_text(vflag, tcp) == "udp46"@,
{
    assert(1u8 & 2u8 == 0 && 2u8 & 2u8 != 0 && 2u8 & 1u8 == 0 && 3u8 & 2u8 != 0 && 3u8 & 1u8 != 0)
        by (bit_vector);
}

/// The text of an IPv4 address and a port: four numbers and the port, with dots
/// between them. A star stands for any address and for no port.
pub proof fn endpoints_are_written(a: Seq<u8>, port: u16)
    requires
        a.len() == 4,
    ensures
        ({
            let host = if a[0] == 0 && a[1] == 0 && a[2] == 0 && a[3] == 0 {
                "*"@
            } else {
                decimal(a[0] as nat) + "."@ + decimal(a[1] as nat) + "."@ + decimal(a[2] as nat)
                    + "."@ + decimal(a[3] as nat)
            };
            let tail = if port == 0 {
                "*"@
            } else {
                decimal(port as nat)
            };
            endpoint_text(a, port) == host + "."@ + tail
        }),
{
    reveal_with_fuel(flat, 8);
    let parts = seq![
        decimal(a[0] as nat),
        "."@,
        decimal(a[1] as nat),
        "."@,
        decimal(a[2] as nat),
        "."@,
        decimal(a[3] as nat),
    ];
    let p = parts.drop_last();
    let q = p.drop_last();
    let r = q.drop_last();
    let s = r.drop_last();
    let t = s.drop_last();
    let u = t.drop_last();
    assert(flat(u) =~= decimal(a[0] as nat));
    assert(flat(t) =~= flat(u) + "."@);
    assert(crate::inet::ipv4_text(a) =~= decimal(a[0] as nat) + "."@ + decimal(a[1] as nat) + "."@
        + decimal(a[2] as nat) + "."@ + decimal(a[3] as nat));
    if a[0] == 0 && a[1] == 0 && a[2] == 0 && a[3] == 0 {
        assert(is_any(a));
    }
    let host = if is_any(a) {
        "*"@
    } else {
        crate::inet::ipv4_text(a)
    };
    let all = seq![host, "."@, crate::pcblist::port_text(port)];
    assert(flat(all.drop_last().drop_last()) =~= host);
    assert(flat(all) =~= host + "."@ + crate::pcblist::port_text(port));
}

/// A connection's row tells its records: the ports, both ends' addresses of the
/// family in use, the owner, the state of a TCP connection, and the bytes of all
/// four classes of traffic.
pub proof fn records_are_told(
    inp: Seq<u8>,
    so: Seq<u8>,
    tcpcb: Option<Seq<u8>>,
    stats: Option<Seq<u8>>,
    tcp: bool,
    fport: u16,
    lport: u16,
    pid: u32,
)
    requires
        inp.len() >= 80,
        inp[16] as int * 256 + inp[17] as int == fport,
        inp[18] as int * 256 + inp[19] as int == lport,
        inp[44] == 1 || inp[44] == 2 || inp[44] == 3,
        so.len() >= 72,
        writes_le(so, 68, pid as int, 4),
        pid <= 0x7fff_ffff,
    ensures
        connection_row(inp, so, tcpcb, stats, tcp) matches Some(r) && {
            let six = inp[44] == 2;
            &&& r.proto == proto_text(inp[44], tcp)
            &&& r.local_addr == endpoint_text(
                if six {
                    inp.subrange(64, 80)
                } else {
                    inp.subrange(76, 80)
                },
                lport,
            )
            &&& r.foreign_addr == endpoint_text(
                if six {
                    inp.subrange(48, 64)
                } else {
                    inp.subrange(60, 64)
                },
                fport,
            )
            &&& r.pid == if pid == 0 {
                None
            } else {
                Some(pid)
            }
            &&& !tcp || tcpcb is None ==> r.state is None
            &&& (tcpcb matches Some(t) && tcp && t.len() >= 40 && writes_le(t, 36, 4, 4)) ==> r.state
                == Some("ESTABLISHED"@)
            &&& (tcpcb matches Some(t) && tcp && t.len() >= 40 && writes_le(t, 36, 1, 4)) ==> r.state
                == Some("LISTEN"@)
            &&& stats is None ==> r.rxbytes is None && r.txbytes is None
            &&& (stats matches Some(st) && st.len() >= 136) ==> r.rxbytes is Some && r.txbytes is Some
        },
{
    assert(1u8 & 2u8 == 0 && 2u8 & 2u8 != 0 && 2u8 & 1u8 == 0 && 3u8 & 2u8 != 0 && 3u8 & 1u8 != 0)
        by (bit_vector);
    four_bytes_are_read(so, 68, pid);
    match tcpcb {
        Some(t) => {
            if t.len() >= 40 && writes_le(t, 36, 4, 4) {
                four_bytes_are_read(t, 36, 4);
            }
            if t.len() >= 40 && writes_le(t, 36, 1, 4) {
                four_bytes_are_read(t, 36, 1);
            }
        },
        None => {},
    }
}

/// The bytes of a class of traffic, as the record holds them.
pub open spec fn class_bytes(st: Seq<u8>, class: int, at: int) -> int {
    le64(st, 8 + class * 32 + at) as int
}

/// The bytes received and sent are those of all four classes together, as far as
/// a counter reaches.
pub proof fn all_classes_count(
    inp: Seq<u8>,
    so: Seq<u8>,
    tcpcb: Option<Seq<u8>>,
    st: Seq<u8>,
    tcp: bool,
)
    requires
        inp.len() >= 80,
        st.len() >= 136,
        class_bytes(st, 0, 8) + class_bytes(st, 1, 8) + class_bytes(st, 2, 8) + class_bytes(
            st,
            3,
            8,
        ) <= u64::MAX,
        class_bytes(st, 0, 24) + class_bytes(st, 1, 24) + class_bytes(st, 2, 24) + class_bytes(
            st,
            3,
            24,
        ) <= u64::MAX,
    ensures
        connection_row(inp, so, tcpcb, Some(st), tcp) matches Some(r) && r.rxbytes == Some(
            (class_bytes(st, 0, 8) + class_bytes(st, 1, 8) + class_bytes(st, 2, 8) + class_bytes(
                st,
                3,
                8,
            )) as u64,
        ) && r.txbytes == Some(
            (class_bytes(st, 0, 24) + class_bytes(st, 1, 24) + class_bytes(st, 2, 24)
                + class_bytes(st, 3, 24)) as u64,
        ),
{
    reveal_with_fuel(class_sum, 5);
}

/// Whether a record of a kind and a length begins at an offset.
pub open spec fn is_record(buf: Seq<u8>, off: int, len: int, kind: int) -> bool {
    &&& 0 <= off
    &&& len > 24
    &&& off + len <= buf.len()
    &&& le32(buf, off) == len
    &&& le32(buf, off + 4) == kind
}

/// A record's bytes.
pub open spec fn record_bytes(buf: Seq<u8>, off: int, len: int) -> Seq<u8> {
    buf.subrange(off, off + len)
}

proof fn record_is_taken(buf: Seq<u8>, off: int, len: int, kind: int, g: GroupView, tcp: bool)
    requires
        is_record(buf, off, len, kind),
    ensures
        record_at(buf, off),
        le32(record_bytes(buf, off, len), 4) == kind,
        ({
            let next = g.with(record_bytes(buf, off, len));
            rows_from(buf, off, g, tcp) == if next.complete(tcp) {
                row_seq(next.row(tcp)) + rows_from(buf, off + rounded(len), GroupView::empty(), tcp)
            } else {
                rows_from(buf, off + rounded(len), next, tcp)
            }
        }),
{
    let rec = record_bytes(buf, off, len);
    assert(rec[4] == buf[off + 4] && rec[5] == buf[off + 5] && rec[6] == buf[off + 6] && rec[7]
        == buf[off + 7]);
}

/// The records of a UDP connection, one after the other, are read as its row, and
/// the list goes on behind them.
pub proof fn udp_records_are_one_row(
    buf: Seq<u8>,
    off: int,
    a: int,
    b: int,
    c: int,
    d: int,
    e: int,
)
    requires
        is_record(buf, off, a, 0x10),
        is_record(buf, off + rounded(a), b, 0x1),
        is_record(buf, off + rounded(a) + rounded(b), c, 0x2),
        is_record(buf, off + rounded(a) + rounded(b) + rounded(c), d, 0x4),
        is_record(buf, off + rounded(a) + rounded(b) + rounded(c) + rounded(d), e, 0x8),
        a >= 80,
    ensures
        ({
            let so = off + rounded(a);
            let st = so + rounded(b) + rounded(c) + rounded(d);
            rows_from(buf, off, GroupView::empty(), false) == seq![
                connection_row(
                    record_bytes(buf, off, a),
                    record_bytes(buf, so, b),
                    None,
                    Some(record_bytes(buf, st, e)),
                    false,
                )->0,
            ] + rows_from(buf, st + rounded(e), GroupView::empty(), false)
        }),
{
    let g0 = GroupView::empty();
    let (o1, o2) = (off + rounded(a), off + rounded(a) + rounded(b));
    let (o3, o4) = (o2 + rounded(c), o2 + rounded(c) + rounded(d));
    let g1 = g0.with(record_bytes(buf, off, a));
    let g2 = g1.with(record_bytes(buf, o1, b));
    let g3 = g2.with(record_bytes(buf, o2, c));
    let g4 = g3.with(record_bytes(buf, o3, d));
    record_is_taken(buf, off, a, 0x10, g0, false);
    record_is_taken(buf, o1, b, 0x1, g1, false);
    record_is_taken(buf, o2, c, 0x2, g2, false);
    record_is_taken(buf, o3, d, 0x4, g3, false);
    record_is_taken(buf, o4, e, 0x8, g4, false);
    assert(0u32 | 0x10 == 0x10 && 0x10u32 | 0x1 == 0x11 && 0x11u32 | 0x2 == 0x13 && 0x13u32 | 0x4
        == 0x17 && 0x17u32 | 0x8 == 0x1f) by (bit_vector);
    assert(0x10u32 & 0x1f != 0x1f && 0x11u32 & 0x1f != 0x1f && 0x13u32 & 0x1f != 0x1f && 0x17u32
        & 0x1f != 0x1f && 0x1fu32 & 0x1f == 0x1f) by (bit_vector);
}

/// The records of a TCP connection, one after the other, are read as its row, and
/// the list goes on behind them.
pub proof fn tcp_records_are_one_row(
    buf: Seq<u8>,
    off: int,
    a: int,
    b: int,
    c: int,
    d: int,
    e: int,
    f: int,
)
    requires
        is_record(buf, off, a, 0x10),
        is_record(buf, off + rounded(a), b, 0x1),
        is_record(buf, off + rounded(a) + rounded(b), c, 0x2),
        is_record(buf, off + rounded(a) + rounded(b) + rounded(c), d, 0x4),
        is_record(buf, off + rounded(a) + rounded(b) + rounded(c) + rounded(d), e, 0x8),
        is_record(
            buf,
            off + rounded(a) + rounded(b) + rounded(c) + rounded(d) + rounded(e),
            f,
            0x20,
        ),
        a >= 80,
    ensures
        ({
            let so = off + rounded(a);
            let st = so + rounded(b) + rounded(c) + rounded(d);
            let cb = st + rounded(e);
            rows_from(buf, off, GroupView::empty(), true) == seq![
                connection_row(
                    record_bytes(buf, off, a),
                    record_bytes(buf, so, b),
                    Some(record_bytes(buf, cb, f)),
                    Some(record_bytes(buf, st, e)),
                    true,
                )->0,
            ] + rows_from(buf, cb + rounded(f), GroupView::empty(), true)
        }),
{
    let g0 = GroupView::empty();
    let (o1, o2) = (off + rounded(a), off + rounded(a) + rounded(b));
    let (o3, o4) = (o2 + rounded(c), o2 + rounded(c) + rounded(d));
    let o5 = o4 + rounded(e);
    let g1 = g0.with(record_bytes(buf, off, a));
    let g2 = g1.with(record_bytes(buf, o1, b));
    let g3 = g2.with(record_bytes(buf, o2, c));
    let g4 = g3.with(record_bytes(buf, o3, d));
    let g5 = g4.with(record_bytes(buf, o4, e));
    record_is_taken(buf, off, a, 0x10, g0, true);
    record_is_taken(buf, o1, b, 0x1, g1, true);
    record_is_taken(buf, o2, c, 0x2, g2, true);
    record_is_taken(buf, o3, d, 0x4, g3, true);
    record_is_taken(buf, o4, e, 0x8, g4, true);
    record_is_taken(buf, o5, f, 0x20, g5, true);
    assert(0u32 | 0x10 == 0x10 && 0x10u32 | 0x1 == 0x11 && 0x11u32 | 0x2 == 0x13 && 0x13u32 | 0x4
        == 0x17 && 0x17u32 | 0x8 == 0x1f && 0x1fu32 | 0x20 == 0x3f) by (bit_vector);
    assert(0x10u32 & 0x3f != 0x3f && 0x11u32 & 0x3f != 0x3f && 0x13u32 & 0x3f != 0x3f && 0x17u32
        & 0x3f != 0x3f && 0x1fu32 & 0x3f != 0x3f && 0x3fu32 & 0x3f == 0x3f) by (bit_vector);
}

} // verus!
