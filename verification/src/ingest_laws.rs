//! What holds of the tables that are read: a socket is read back from its line.

use vstd::prelude::*;

use crate::lifecycle_laws::field_is_read;
use crate::netstat::{
    is_owner, last_owner, line_row, name_start, observation_of, owner_of, row_of, table,
    NetstatRowView,
};
use crate::observation::{Source, Timestamp};
use crate::seqs::{filter_map_from, filter_map_keeps};
use crate::text::{
    decimal, decimal_round_trip, has_prefix, is_digit, is_number, is_space, joined, lines,
    occurs_at, rfind, rfind_is_last, scan_lines, scan_words, without_cr, words,
};

verus! {

// ---------- words and lines --------------------------------------------------------

/// Whether a text is a word: it is not empty and holds no white space.
pub open spec fn is_word(w: Seq<char>) -> bool {
    w.len() > 0 && forall|i: int| 0 <= i < w.len() ==> !is_space(#[trigger] w[i])
}

proof fn word_under_way(s: Seq<char>, w: Seq<char>)
    requires
        scan_words(s).1.len() == 0,
        forall|i: int| 0 <= i < w.len() ==> !is_space(#[trigger] w[i]),
    ensures
        scan_words(s + w) == (scan_words(s).0, w),
    decreases w.len(),
{
    if w.len() == 0 {
        assert(s + w =~= s);
        assert(scan_words(s).1 =~= w);
    } else {
        let t = w.drop_last();
        assert forall|i: int| 0 <= i < t.len() implies !is_space(#[trigger] t[i]) by {
            assert(t[i] == w[i]);
        }
        word_under_way(s, t);
        assert((s + w).drop_last() =~= s + t);
        assert(!is_space(w[w.len() - 1]));
        assert(t.push(w.last()) =~= w);
    }
}

/// A word behind white space is one more word of a text, whatever stands before
/// it; a word alone is the only one.
pub proof fn words_are_read_one_by_one(s: Seq<char>, c: char, w: Seq<char>)
    requires
        is_space(c),
        is_word(w),
    ensures
        words(s.push(c) + w) == words(s).push(w),
        words(s.push(c)) == words(s),
        words(w) == seq![w],
{
    assert(s.push(c).drop_last() =~= s);
    assert(scan_words(s.push(c)).1.len() == 0);
    word_under_way(s.push(c), w);
    let e = Seq::<char>::empty();
    word_under_way(e, w);
    assert(e + w =~= w);
    assert(words(w) =~= seq![w]);
}

proof fn line_under_way(s: Seq<char>, l: Seq<char>)
    requires
        scan_lines(s).1.len() == 0,
        !l.contains('\n'),
    ensures
        scan_lines(s + l) == (scan_lines(s).0, l),
    decreases l.len(),
{
    if l.len() == 0 {
        assert(s + l =~= s);
        assert(scan_lines(s).1 =~= l);
    } else {
        let t = l.drop_last();
        assert(!t.contains('\n')) by {
            if t.contains('\n') {
                let i = choose|i: int| 0 <= i < t.len() && t[i] == '\n';
                assert(l[i] == '\n');
            }
        }
        line_under_way(s, t);
        assert((s + l).drop_last() =~= s + t);
        assert(l[l.len() - 1] != '\n');
        assert(t.push(l.last()) =~= l);
    }
}

/// A line with its end is one more line behind lines with their ends, without
/// its end.
pub proof fn lines_are_read_one_by_one(s: Seq<char>, l: Seq<char>)
    requires
        s.len() == 0 || s.last() == '\n',
        !l.contains('\n'),
        !l.contains('\r'),
    ensures
        lines(s + l.push('\n')) == lines(s).push(l),
        lines(s + l.push('\r').push('\n')) == lines(s).push(l),
        l.len() > 0 ==> lines(s + l) == lines(s).push(l),
{
    line_under_way(s, l);
    let r = l.push('\r');
    assert(!r.contains('\n')) by {
        if r.contains('\n') {
            let i = choose|i: int| 0 <= i < r.len() && r[i] == '\n';
            assert(i < l.len() && l[i] == '\n');
        }
    }
    line_under_way(s, r);
    let a = s + l.push('\n');
    let b = s + r.push('\n');
    assert(a.drop_last() =~= s + l);
    assert(b.drop_last() =~= s + r);
    assert(r.drop_last() =~= l);
    assert(without_cr(l) == l) by {
        if l.len() > 0 {
            assert(l[l.len() - 1] != '\r');
        }
    }
    assert(lines(s + l.push('\r').push('\n')) =~= lines(s).push(l));
}

// ---------- sockets ----------------------------------------------------------------

/// Whether a word names a protocol: it begins with `tcp` or `udp`.
pub open spec fn names_protocol(w: Seq<char>) -> bool {
    w.len() >= 3 && w[2] == 'p' && (w[0] == 't' && w[1] == 'c' || w[0] == 'u' && w[1] == 'd')
}

/// A protocol is told by its first three letters, whichever address family
/// follows.
proof fn protocol_is_told(w: Seq<char>)
    ensures
        has_prefix(w, "tcp"@) || has_prefix(w, "udp"@) <==> names_protocol(w),
{
    reveal_strlit("tcp");
    reveal_strlit("udp");
    if w.len() >= 3 {
        let p = w.subrange(0, 3);
        assert(p[0] == w[0] && p[1] == w[1] && p[2] == w[2]);
        if names_protocol(w) {
            if w[0] == 't' {
                assert(p =~= "tcp"@);
            } else {
                assert(p =~= "udp"@);
            }
        }
    }
}

/// A word of a name, a colon and a number is an owner, and both are read back.
pub proof fn owner_reads_back(name: Seq<char>, pid: u32)
    requires
        name.len() > 0,
    ensures
        is_owner(name + seq![':'] + decimal(pid as nat)),
        owner_of(name + seq![':'] + decimal(pid as nat)) == (name, Some(pid)),
        !is_number(name + seq![':'] + decimal(pid as nat)),
{
    let digits = decimal(pid as nat);
    let s = name + seq![':'] + digits;
    let colon = seq![':'];
    let n = name.len() as int;
    decimal_round_trip(pid as nat);
    assert(s[n] == ':');
    assert(!is_digit(s[n]));
    assert(occurs_at(s, colon, n)) by {
        assert(s.subrange(n, n + 1) =~= colon);
    }
    rfind_is_last(s, colon, s.len() - 1);
    let k = rfind(s, colon)->0;
    if k > n {
        assert(s.subrange(k, k + 1)[0] == ':');
        assert(s[k] == digits[k - n - 1]);
        assert(is_digit(digits[k - n - 1]));
    }
    assert(k == n) by {
        if k < n {
            assert(!occurs_at(s, colon, n));
        }
    }
    assert(s.take(n) =~= name);
    assert(s.skip(n + 1) =~= digits);
    assert(is_digit(digits[0]));
}

proof fn name_starts_behind_number(toks: Seq<Seq<char>>, p: int, k: int)
    requires
        0 < k <= p < toks.len(),
        is_number(toks[k - 1]),
        forall|i: int| k <= i < p ==> !is_number(#[trigger] toks[i]),
    ensures
        name_start(toks, p) == k,
    decreases p,
{
    if p > k {
        name_starts_behind_number(toks, p - 1, k);
    }
}

/// Whether a line is laid out as a row: a protocol, two counts, two addresses,
/// a state or none, four numbers, of which the first two are the bytes received
/// and sent, the words of the owner's name, the last with the process id, and
/// eight more.
pub open spec fn is_laid_out(
    toks: Seq<Seq<char>>,
    row: NetstatRowView,
    names: Seq<Seq<char>>,
    last: Seq<char>,
) -> bool {
    let at = if row.state is Some {
        6int
    } else {
        5
    };
    let k = at + 4;
    let p = k + names.len();
    &&& toks.len() == p + 9
    &&& toks[0] == row.proto
    &&& names_protocol(row.proto)
    &&& toks[3] == row.local_addr
    &&& toks[4] == row.foreign_addr
    &&& row.state matches Some(s) ==> toks[5] == s
    &&& row.rxbytes matches Some(n) && toks[at] == decimal(n as nat)
    &&& row.txbytes matches Some(n) && toks[at + 1] == decimal(n as nat)
    &&& is_number(toks[at + 3])
    &&& toks.subrange(k, p) == names
    &&& forall|i: int| 0 <= i < names.len() ==> !is_number(#[trigger] names[i])
    &&& last.len() > 0
    &&& row.pid matches Some(pid) && toks[p] == last + seq![':'] + decimal(pid as nat)
    &&& row.process_name == joined(names.push(last), " "@)
}

/// A line that is laid out as a row is read as that row, whatever its address
/// family is, with a state or without, and however many words its owner's name
/// has.
pub proof fn socket_reads_back(
    toks: Seq<Seq<char>>,
    row: NetstatRowView,
    names: Seq<Seq<char>>,
    last: Seq<char>,
)
    requires
        is_laid_out(toks, row, names, last),
    ensures
        row_of(toks) == Some(row),
{
    let at = if row.state is Some {
        6int
    } else {
        5
    };
    let k = at + 4;
    let p = k + names.len();
    protocol_is_told(toks[0]);
    owner_reads_back(last, row.pid->0);
    assert(last_owner(toks, p + 1) == Some(p));
    assert forall|i: int| k <= i < p implies !is_number(#[trigger] toks[i]) by {
        assert(toks.subrange(k, p)[i - k] == toks[i]);
        assert(!is_number(names[i - k]));
    }
    name_starts_behind_number(toks, p, k);
    decimal_round_trip(row.rxbytes->0 as nat);
    decimal_round_trip(row.txbytes->0 as nat);
    assert(is_digit(decimal(row.rxbytes->0 as nat)[0]));
    assert(is_digit(decimal(row.txbytes->0 as nat)[0]));
}

/// A line is read as a row whenever its first word begins with `tcp` or `udp`,
/// it has fourteen words or more, and an owner stands before the last eight
/// behind a number that is not among its first three words. No other line is.
pub proof fn only_sockets_are_read(toks: Seq<Seq<char>>)
    ensures
        row_of(toks) is Some <==> toks.len() >= 14 && names_protocol(toks[0]) && exists|
            p: int,
            q: int,
        |
            3 <= q < p < toks.len() - 8 && is_owner(#[trigger] toks[p]) && is_number(
                #[trigger] toks[q],
            ) && forall|i: int| p < i < toks.len() - 8 ==> !is_owner(#[trigger] toks[i]),
        row_of(toks) matches Some(row) ==> row.proto == toks[0] && row.local_addr == toks[3]
            && row.foreign_addr == toks[4],
{
    let n = toks.len() - 8;
    protocol_is_told(toks[0]);
    if toks.len() >= 14 && names_protocol(toks[0]) {
        last_owner_is_last(toks, n);
        match last_owner(toks, n) {
            Some(p) => {
                name_start_is_behind(toks, p);
                let k = name_start(toks, p);
                if k >= 4 {
                    assert(is_owner(toks[p]) && is_number(toks[k - 1]));
                }
                if exists|a: int, q: int|
                    3 <= q < a < n && is_owner(#[trigger] toks[a]) && is_number(#[trigger] toks[q])
                        && forall|i: int| a < i < n ==> !is_owner(#[trigger] toks[i]) {
                    let (a, q) = choose|a: int, q: int|
                        3 <= q < a < n && is_owner(#[trigger] toks[a]) && is_number(
                            #[trigger] toks[q],
                        ) && forall|i: int| a < i < n ==> !is_owner(#[trigger] toks[i]);
                    assert(a == p);
                    assert(q < k);
                }
            },
            None => {},
        }
    }
}

proof fn last_owner_is_last(toks: Seq<Seq<char>>, n: int)
    requires
        n <= toks.len(),
    ensures
        match last_owner(toks, n) {
            Some(p) => 0 <= p < n && is_owner(toks[p]) && forall|i: int|
                p < i < n ==> !is_owner(#[trigger] toks[i]),
            None => forall|i: int| 0 <= i < n ==> !is_owner(#[trigger] toks[i]),
        },
    decreases n,
{
    if n > 0 && !is_owner(toks[n - 1]) {
        last_owner_is_last(toks, n - 1);
    }
}

proof fn name_start_is_behind(toks: Seq<Seq<char>>, p: int)
    requires
        0 <= p <= toks.len(),
    ensures
        0 <= name_start(toks, p) <= p,
        name_start(toks, p) > 0 ==> is_number(toks[name_start(toks, p) - 1]),
        forall|i: int| name_start(toks, p) <= i < p ==> !is_number(#[trigger] toks[i]),
    decreases p,
{
    if p > 0 && !is_number(toks[p - 1]) {
        name_start_is_behind(toks, p - 1);
    }
}

/// Every line behind the header of a table is read by itself: what stands
/// before the header, and the header, are passed over, and a row is in the
/// result exactly if a line behind the header is that row.
pub proof fn rows_stand_behind_the_header(
    before: Seq<Seq<char>>,
    header: Seq<char>,
    rest: Seq<Seq<char>>,
    row: NetstatRowView,
)
    requires
        has_prefix(header, "Proto"@),
        forall|i: int| 0 <= i < before.len() ==> !has_prefix(#[trigger] before[i], "Proto"@),
    ensures
        table(before.push(header) + rest) == rest,
        table(before.push(header) + rest).filter_map(line_row()).contains(row) <==> exists|i: int|
            0 <= i < rest.len() && row_of(words(#[trigger] rest[i])) == Some(row),
    decreases before.len(),
{
    let all = before.push(header) + rest;
    if before.len() == 0 {
        assert(all[0] == header);
        assert(all.skip(1) =~= rest);
    } else {
        let t = before.skip(1);
        assert(all[0] == before[0]);
        assert(all.skip(1) =~= t.push(header) + rest);
        assert forall|i: int| 0 <= i < t.len() implies !has_prefix(#[trigger] t[i], "Proto"@) by {
            assert(t[i] == before[i + 1]);
        }
        rows_stand_behind_the_header(t, header, rest, row);
    }
    let f = line_row();
    let kept = rest.filter_map(f);
    if kept.contains(row) {
        let k = choose|k: int| 0 <= k < kept.len() && kept[k] == row;
        filter_map_from(rest, f, k);
        let i = choose|i: int| 0 <= i < rest.len() && f(#[trigger] rest[i]) == Some(kept[k]);
        assert(row_of(words(rest[i])) == Some(row));
    }
    if exists|i: int| 0 <= i < rest.len() && row_of(words(#[trigger] rest[i])) == Some(row) {
        let i = choose|i: int|
            0 <= i < rest.len() && row_of(words(#[trigger] rest[i])) == Some(row);
        filter_map_keeps(rest, f, i);
    }
}

/// The observation of a socket tells the row: each value is read under its
/// name.
pub proof fn socket_is_told(row: NetstatRowView, at: Timestamp)
    ensures
        ({
            let o = observation_of(row, at);
            &&& o.source == Source::Network
            &&& o.timestamp == at
            &&& o.pid == row.pid
            &&& o.payload.str_at("proto"@) == Some(row.proto)
            &&& o.payload.str_at("local_addr"@) == Some(row.local_addr)
            &&& o.payload.str_at("foreign_addr"@) == Some(row.foreign_addr)
            &&& o.payload.str_at("state"@) == row.state
            &&& o.payload.u64_at("rxbytes"@) == row.rxbytes
            &&& o.payload.u64_at("txbytes"@) == row.txbytes
            &&& o.payload.str_at("process_name"@) == Some(row.process_name)
            &&& o.tags is None
        }),
{
    reveal_strlit("proto");
    reveal_strlit("local_addr");
    reveal_strlit("foreign_addr");
    reveal_strlit("state");
    reveal_strlit("rxbytes");
    reveal_strlit("txbytes");
    reveal_strlit("process_name");
    assert("proto"@.len() == 5 && "local_addr"@.len() == 10 && "foreign_addr"@.len() == 12);
    assert("state"@.len() == 5 && "rxbytes"@.len() == 7 && "txbytes"@.len() == 7);
    assert("process_name"@.len() == 12);
    assert("proto"@[0] != "state"@[0]);
    assert("rxbytes"@[0] != "txbytes"@[0]);
    assert("foreign_addr"@[0] != "process_name"@[0]);
    let f = observation_of(row, at).payload->Object_0;
    field_is_read(f, 0);
    field_is_read(f, 1);
    field_is_read(f, 2);
    field_is_read(f, 3);
    field_is_read(f, 4);
    field_is_read(f, 5);
    field_is_read(f, 6);
}

} // verus!
