//! What holds of texts in pieces, of the directories that paths count for, and of
//! internet addresses.

use vstd::prelude::*;
use vstd::string::*;

use crate::inet::{groups, groups_text, hex, hex_char, ipv4_text, ipv6_text, longest_run, zero_run};
use crate::ip::{
    group_count, is_group, is_hex_digit, is_ip, is_ipv4, is_ipv6, is_octet, side_count,
};
use crate::seqs::{filter_map_step, take_all};
use crate::text::{
    all_digits, decimal, decimal_round_trip, decimal_value, find, find_is_first, flat, is_digit, joined,
    occurs_at, pieces, scan_pieces,
};
use crate::timeline::{bucket, component};

verus! {

// ---------- pieces -----------------------------------------------------------------

/// Whether a character is not in a text.
pub open spec fn is_free(s: Seq<char>, c: char) -> bool {
    forall|i: int| 0 <= i < s.len() ==> #[trigger] s[i] != c
}

proof fn piece_is_cut(a: Seq<char>, b: Seq<char>, c: char)
    requires
        is_free(b, c),
    ensures
        scan_pieces(a + seq![c] + b, c) == (scan_pieces(a, c).0.push(scan_pieces(a, c).1), b),
    decreases b.len(),
{
    let s = a + seq![c] + b;
    if b.len() == 0 {
        assert(s.drop_last() =~= a);
        assert(b =~= Seq::<char>::empty());
    } else {
        let t = b.drop_last();
        assert(s.drop_last() =~= a + seq![c] + t);
        assert(s.last() == b[b.len() - 1]);
        assert(is_free(t, c)) by {
            assert forall|i: int| 0 <= i < t.len() implies #[trigger] t[i] != c by {
                assert(t[i] == b[i]);
            }
        }
        piece_is_cut(a, t, c);
        assert(t.push(b.last()) =~= b);
    }
}

proof fn free_is_one_piece(b: Seq<char>, c: char)
    requires
        is_free(b, c),
    ensures
        scan_pieces(b, c) == (Seq::<Seq<char>>::empty(), b),
    decreases b.len(),
{
    if b.len() == 0 {
        assert(b =~= Seq::<char>::empty());
    } else {
        let t = b.drop_last();
        assert(is_free(t, c)) by {
            assert forall|i: int| 0 <= i < t.len() implies #[trigger] t[i] != c by {
                assert(t[i] == b[i]);
            }
        }
        free_is_one_piece(t, c);
        assert(b.last() == b[b.len() - 1]);
        assert(t.push(b.last()) =~= b);
    }
}

/// Texts that are joined with a character that none of them holds are the pieces
/// of what comes out.
pub proof fn joined_is_cut_again(parts: Seq<Seq<char>>, c: char)
    requires
        parts.len() > 0,
        forall|i: int| 0 <= i < parts.len() ==> is_free(#[trigger] parts[i], c),
    ensures
        pieces(joined(parts, seq![c]), c) == parts,
    decreases parts.len(),
{
    let n = parts.len() - 1;
    assert(is_free(parts[n], c));
    if parts.len() == 1 {
        free_is_one_piece(parts[0], c);
        assert(pieces(parts[0], c) =~= parts);
    } else {
        let t = parts.drop_last();
        assert forall|i: int| 0 <= i < t.len() implies is_free(#[trigger] t[i], c) by {
            assert(t[i] == parts[i]);
        }
        joined_is_cut_again(t, c);
        piece_is_cut(joined(t, seq![c]), parts[n], c);
        assert(pieces(joined(parts, seq![c]), c) =~= t.push(parts[n]));
        assert(t.push(parts[n]) =~= parts);
    }
}

/// The pieces of a text hold no separator, and joined with it they are the text.
pub proof fn pieces_join_again(s: Seq<char>, c: char)
    ensures
        pieces(s, c).len() > 0,
        joined(pieces(s, c), seq![c]) == s,
        forall|i: int| 0 <= i < pieces(s, c).len() ==> is_free(#[trigger] pieces(s, c)[i], c),
    decreases s.len(),
{
    let p = pieces(s, c);
    if s.len() == 0 {
        assert(p =~= seq![Seq::<char>::empty()]);
        assert(s =~= Seq::<char>::empty());
    } else {
        let t = s.drop_last();
        let q = pieces(t, c);
        pieces_join_again(t, c);
        assert(t.push(s.last()) =~= s);
        let k = q.len() - 1;
        assert(is_free(q[k], c));
        if s.last() == c {
            assert(p =~= q.push(Seq::empty()));
            assert(p.drop_last() =~= q);
            assert(joined(p, seq![c]) =~= s);
            assert forall|i: int| 0 <= i < p.len() implies is_free(#[trigger] p[i], c) by {
                if i <= k {
                    assert(p[i] == q[i]);
                }
            }
        } else {
            assert(p =~= q.drop_last().push(q[k].push(s.last())));
            assert(p.drop_last() =~= q.drop_last());
            assert(joined(p, seq![c]) =~= joined(q, seq![c]).push(s.last()));
            assert forall|i: int| 0 <= i < p.len() implies is_free(#[trigger] p[i], c) by {
                if i < k {
                    assert(p[i] == q[i]);
                }
            }
        }
    }
}

// ---------- directories ------------------------------------------------------------

proof fn joined_behind_empty(parts: Seq<Seq<char>>, sep: Seq<char>)
    requires
        parts.len() > 0,
    ensures
        joined(seq![Seq::<char>::empty()] + parts, sep) == sep + joined(parts, sep),
    decreases parts.len(),
{
    let all = seq![Seq::<char>::empty()] + parts;
    if parts.len() == 1 {
        assert(all.drop_last() =~= seq![Seq::<char>::empty()]);
        assert(joined(all.drop_last(), sep) == Seq::<char>::empty());
        assert(all.last() == parts[0]);
        assert(joined(all, sep) =~= sep + parts[0]);
    } else {
        let t = parts.drop_last();
        joined_behind_empty(t, sep);
        assert(all.drop_last() =~= seq![Seq::<char>::empty()] + t);
        assert(joined(all, sep) =~= sep + joined(parts, sep));
    }
}

proof fn full_parts_are_kept(parts: Seq<Seq<char>>)
    requires
        forall|i: int| 0 <= i < parts.len() ==> (#[trigger] parts[i]).len() > 0,
    ensures
        parts.filter_map(component()) == parts,
        (seq![Seq::<char>::empty()] + parts).filter_map(component()) == parts,
    decreases parts.len(),
{
    let e = seq![Seq::<char>::empty()];
    let all = e + parts;
    let n = parts.len() as int;
    if n == 0 {
        crate::seqs::filter_map_start(parts, component());
        take_all(parts);
        crate::seqs::filter_map_start(all, component());
        filter_map_step(all, component(), 0);
        assert(all.take(1) =~= all);
        assert(parts.filter_map(component()) =~= parts);
        assert(all.filter_map(component()) =~= parts);
    } else {
        let t = parts.drop_last();
        assert forall|i: int| 0 <= i < t.len() implies (#[trigger] t[i]).len() > 0 by {
            assert(t[i] == parts[i]);
        }
        full_parts_are_kept(t);
        assert(parts[n - 1].len() > 0);
        filter_map_step(parts, component(), n - 1);
        take_all(parts);
        assert(parts.take(n - 1) =~= t);
        filter_map_step(all, component(), n);
        take_all(all);
        assert(all.take(n) =~= e + t);
        assert(t.push(parts[n - 1]) =~= parts);
    }
}

/// A path counts for itself up to four components, and for its first four if it
/// has more.
pub proof fn paths_count_for_four(parts: Seq<Seq<char>>)
    requires
        parts.len() > 0,
        forall|i: int|
            0 <= i < parts.len() ==> (#[trigger] parts[i]).len() > 0 && is_free(parts[i], '/'),
    ensures
        parts.len() <= 4 ==> bucket("/"@ + joined(parts, "/"@)) == "/"@ + joined(parts, "/"@)
            && bucket(joined(parts, "/"@)) == joined(parts, "/"@),
        parts.len() > 4 ==> bucket("/"@ + joined(parts, "/"@)) == "/"@ + joined(
            parts.take(4),
            "/"@,
        ) && bucket(joined(parts, "/"@)) == "/"@ + joined(parts.take(4), "/"@),
{
    reveal_strlit("/");
    assert("/"@ =~= seq!['/']);
    let e = seq![Seq::<char>::empty()];
    let all = e + parts;
    joined_behind_empty(parts, "/"@);
    assert forall|i: int| 0 <= i < all.len() implies is_free(#[trigger] all[i], '/') by {
        if i > 0 {
            assert(all[i] == parts[i - 1]);
        }
    }
    joined_is_cut_again(all, '/');
    joined_is_cut_again(parts, '/');
    full_parts_are_kept(parts);
}

// ---------- addresses --------------------------------------------------------------

proof fn value_is_positive(s: Seq<char>)
    requires
        s.len() > 0,
        all_digits(s),
        s[0] != '0',
    ensures
        decimal_value(s) > 0,
    decreases s.len(),
{
    let t = s.drop_last();
    assert(is_digit(s[0]));
    assert(is_digit(s[s.len() - 1]));
    if s.len() == 1 {
        assert(decimal_value(t) == 0);
    } else {
        assert(all_digits(t)) by {
            assert forall|i: int| 0 <= i < t.len() implies is_digit(#[trigger] t[i]) by {
                assert(t[i] == s[i]);
            }
        }
        value_is_positive(t);
    }
}

/// Digits without a zero in front are the decimal writing of their number.
pub proof fn digits_are_decimal(s: Seq<char>)
    requires
        s.len() > 0,
        all_digits(s),
        s.len() > 1 ==> s[0] != '0',
    ensures
        decimal(decimal_value(s)) == s,
    decreases s.len(),
{
    let t = s.drop_last();
    let c = s[s.len() - 1];
    assert(is_digit(c));
    let d = c as int - 48;
    assert(crate::text::digit_char(d) == c);
    if s.len() == 1 {
        assert(decimal_value(t) == 0);
        assert(decimal_value(s) == d);
        assert(decimal(d as nat) =~= s);
    } else {
        assert(all_digits(t)) by {
            assert forall|i: int| 0 <= i < t.len() implies is_digit(#[trigger] t[i]) by {
                assert(t[i] == s[i]);
            }
        }
        assert(t[0] == s[0]);
        value_is_positive(t);
        digits_are_decimal(t);
        let v = decimal_value(s);
        assert(v == decimal_value(t) * 10 + d);
        assert(v / 10 == decimal_value(t) && v % 10 == d);
        assert(decimal(v) =~= t.push(c));
        assert(t.push(c) =~= s);
    }
}

proof fn octet_is_decimal(s: Seq<char>)
    ensures
        is_octet(s) <==> exists|n: u8| s == #[trigger] decimal(n as nat),
{
    if is_octet(s) {
        assert(s[0] != '+') by {
            assert(is_digit(s[0]));
        }
        digits_are_decimal(s);
        let n = decimal_value(s) as u8;
        assert(s == decimal(n as nat));
    }
    if exists|n: u8| s == #[trigger] decimal(n as nat) {
        let n = choose|n: u8| s == #[trigger] decimal(n as nat);
        decimal_round_trip(n as nat);
        let m = n as nat;
        assert(is_digit(s[0]));
        if m < 10 {
            assert(s.len() == 1);
        } else if m < 100 {
            assert(decimal(m / 10).len() == 1);
            assert(s.len() == 2 && s[0] == decimal(m / 10)[0]);
        } else {
            assert(decimal(m / 10 / 10).len() == 1);
            assert(decimal(m / 10).len() == 2);
            assert(s.len() == 3 && s[0] == decimal(m / 10 / 10)[0]);
        }
        assert(is_octet(s));
    }
}

proof fn decimal_is_free(n: nat, c: char)
    requires
        !is_digit(c),
    ensures
        is_free(decimal(n), c),
{
    decimal_round_trip(n);
    assert forall|i: int| 0 <= i < decimal(n).len() implies #[trigger] decimal(n)[i] != c by {
        assert(is_digit(decimal(n)[i]));
    }
}

/// The numbers of an address.
pub open spec fn octets(a: Seq<u8>) -> Seq<Seq<char>> {
    a.map_values(|b: u8| decimal(b as nat))
}

proof fn four_are_joined(a: Seq<u8>)
    requires
        a.len() == 4,
    ensures
        ipv4_text(a) == joined(octets(a), seq!['.']),
{
    reveal_strlit(".");
    assert("."@ =~= seq!['.']);
    let o = octets(a);
    let dot = seq!['.'];
    let p = seq![o[0], dot, o[1], dot, o[2], dot, o[3]];
    reveal_with_fuel(flat, 8);
    reveal_with_fuel(joined, 5);
    let q = p.drop_last().drop_last().drop_last().drop_last().drop_last().drop_last();
    assert(q.drop_last() =~= Seq::<Seq<char>>::empty());
    assert(flat(q) =~= o[0]);
    assert(flat(p) =~= o[0] + dot + o[1] + dot + o[2] + dot + o[3]);
    assert(joined(o, dot) =~= o[0] + dot + o[1] + dot + o[2] + dot + o[3]);
}

/// A text is an address of four numbers exactly if it is how four bytes are
/// written.
pub proof fn four_bytes_are_an_address(s: Seq<char>)
    ensures
        is_ipv4(s) <==> exists|a: Seq<u8>| a.len() == 4 && s == #[trigger] ipv4_text(a),
{
    let p = pieces(s, '.');
    pieces_join_again(s, '.');
    if is_ipv4(s) {
        octet_is_decimal(p[0]);
        octet_is_decimal(p[1]);
        octet_is_decimal(p[2]);
        octet_is_decimal(p[3]);
        let a = choose|n: u8| p[0] == #[trigger] decimal(n as nat);
        let b = choose|n: u8| p[1] == #[trigger] decimal(n as nat);
        let c = choose|n: u8| p[2] == #[trigger] decimal(n as nat);
        let d = choose|n: u8| p[3] == #[trigger] decimal(n as nat);
        let all = seq![a, b, c, d];
        assert(octets(all) =~= p);
        four_are_joined(all);
        assert(s == ipv4_text(all));
    }
    if exists|a: Seq<u8>| a.len() == 4 && s == #[trigger] ipv4_text(a) {
        let a = choose|a: Seq<u8>| a.len() == 4 && s == #[trigger] ipv4_text(a);
        let o = octets(a);
        four_are_joined(a);
        assert forall|i: int| 0 <= i < o.len() implies is_free(#[trigger] o[i], '.') by {
            decimal_is_free(a[i] as nat, '.');
        }
        joined_is_cut_again(o, '.');
        octet_is_decimal(o[0]);
        octet_is_decimal(o[1]);
        octet_is_decimal(o[2]);
        octet_is_decimal(o[3]);
        assert(o[0] == decimal(a[0] as nat) && o[1] == decimal(a[1] as nat) && o[2] == decimal(
            a[2] as nat,
        ) && o[3] == decimal(a[3] as nat));
    }
}

proof fn hex_is_a_group(n: u16)
    ensures
        is_group(hex(n as nat)),
        is_free(hex(n as nat), ':'),
{
    let m = n as nat;
    reveal_with_fuel(hex, 5);
    assert(m / 16 / 16 / 16 < 16);
    let s = hex(m);
    assert(1 <= s.len() <= 4);
    hex_is_hex(m);
    assert forall|i: int| 0 <= i < s.len() implies #[trigger] s[i] != ':' by {
        assert(is_hex_digit(s[i]));
    }
}

proof fn hex_is_hex(n: nat)
    ensures
        forall|i: int| 0 <= i < hex(n).len() ==> is_hex_digit(#[trigger] hex(n)[i]),
    decreases n,
{
    let d = (n % 16) as int;
    assert(is_hex_digit(hex_char(d)));
    if n >= 16 {
        hex_is_hex(n / 16);
        assert forall|i: int| 0 <= i < hex(n).len() implies is_hex_digit(
            #[trigger] hex(n)[i],
        ) by {
            if i < hex(n / 16).len() {
                assert(hex(n)[i] == hex(n / 16)[i]);
            }
        }
    }
}

/// Whether a text has a separator at neither end, nor twice in a row.
pub open spec fn is_single(s: Seq<char>, c: char) -> bool {
    &&& s.len() > 0
    &&& s[0] != c
    &&& s[s.len() - 1] != c
    &&& forall|i: int| 0 <= i < s.len() - 1 && #[trigger] s[i] == c ==> s[i + 1] != c
}

proof fn joined_is_single(parts: Seq<Seq<char>>, c: char)
    requires
        parts.len() > 0,
        forall|i: int|
            0 <= i < parts.len() ==> (#[trigger] parts[i]).len() > 0 && is_free(parts[i], c),
    ensures
        is_single(joined(parts, seq![c]), c),
    decreases parts.len(),
{
    let n = parts.len() - 1;
    let l = parts[n];
    assert(l.len() > 0 && is_free(l, c));
    assert(l[0] != c && l[l.len() - 1] != c);
    if n > 0 {
        let t = parts.drop_last();
        assert forall|i: int| 0 <= i < t.len() implies (#[trigger] t[i]).len() > 0 && is_free(
            t[i],
            c,
        ) by {
            assert(t[i] == parts[i]);
        }
        joined_is_single(t, c);
        let a = joined(t, seq![c]);
        let s = joined(parts, seq![c]);
        assert(s == a + seq![c] + l);
        assert(s[0] == a[0]);
        assert(s[s.len() - 1] == l[l.len() - 1]);
        assert forall|i: int| 0 <= i < s.len() - 1 && #[trigger] s[i] == c implies s[i + 1] != c by {
            if i < a.len() - 1 {
                assert(s[i] == a[i] && s[i + 1] == a[i + 1]);
            } else if i == a.len() - 1 {
                assert(s[i] == a[i]);
            } else if i == a.len() {
                assert(s[i + 1] == l[0]);
            } else {
                assert(s[i] == l[i - a.len() - 1]);
            }
        }
    }
}

/// What some groups are, written.
proof fn groups_are_groups(g: Seq<u16>)
    requires
        g.len() > 0,
    ensures
        is_single(groups_text(g), ':'),
        group_count(pieces(groups_text(g), ':'), true) == Some(g.len() as int),
        group_count(pieces(groups_text(g), ':'), false) == Some(g.len() as int),
{
    reveal_strlit(":");
    assert(":"@ =~= seq![':']);
    let p = Seq::new(g.len(), |i: int| hex(g[i] as nat));
    assert forall|i: int| 0 <= i < p.len() implies is_group(#[trigger] p[i]) && p[i].len() > 0
        && is_free(p[i], ':') by {
        hex_is_a_group(g[i]);
    }
    joined_is_single(p, ':');
    joined_is_cut_again(p, ':');
}

proof fn runs_are_inside(g: Seq<u16>, i: int)
    requires
        0 <= i <= g.len(),
    ensures
        0 <= zero_run(g, i) <= g.len() - i,
    decreases g.len() - i,
{
    if i < g.len() {
        runs_are_inside(g, i + 1);
    }
}

proof fn longest_is_inside(g: Seq<u16>, n: int)
    requires
        0 <= n <= g.len(),
    ensures
        0 <= longest_run(g, n) <= g.len(),
        n > 0 ==> longest_run(g, n) < n,
    decreases n,
{
    if n > 0 {
        longest_is_inside(g, n - 1);
    }
}

/// The longest run of zeros is the longest, and the first of those as long.
pub proof fn longest_run_is_longest(g: Seq<u16>, n: int, i: int)
    requires
        0 <= i < n <= g.len(),
    ensures
        0 <= longest_run(g, n) < n,
        zero_run(g, i) <= zero_run(g, longest_run(g, n)),
        i < longest_run(g, n) ==> zero_run(g, i) < zero_run(g, longest_run(g, n)),
    decreases n,
{
    longest_is_inside(g, n);
    if i < n - 1 {
        longest_run_is_longest(g, n - 1, i);
    } else if n > 1 {
        longest_is_inside(g, n - 1);
    }
}

proof fn colons_are_found(x: Seq<char>, y: Seq<char>)
    requires
        x.len() == 0 || is_single(x, ':'),
    ensures
        find(x + seq![':', ':'] + y, seq![':', ':']) == Some(x.len() as int),
        (x + seq![':', ':'] + y).take(x.len() as int) == x,
        (x + seq![':', ':'] + y).skip(x.len() as int + 2) == y,
{
    let colons = seq![':', ':'];
    let s = x + colons + y;
    let k = x.len() as int;
    find_is_first(s, colons, 0);
    assert(s.subrange(k, k + 2) =~= colons);
    assert(occurs_at(s, colons, k));
    assert forall|j: int| 0 <= j < k implies !#[trigger] occurs_at(s, colons, j) by {
        if occurs_at(s, colons, j) {
            let w = s.subrange(j, j + 2);
            assert(w[0] == s[j] && w[1] == s[j + 1]);
            assert(s[j] == x[j]);
            if j + 1 < k {
                assert(s[j + 1] == x[j + 1]);
            }
        }
    }
    assert(s.take(k) =~= x);
    assert(s.skip(k + 2) =~= y);
}

proof fn shortened_is_an_address(x: Seq<char>, y: Seq<char>, m: int, n: int)
    requires
        x.len() == 0 || is_single(x, ':'),
        side_count(x, false) == Some(m),
        side_count(y, true) == Some(n),
        m + n <= 7,
    ensures
        is_ipv6(x + seq![':', ':'] + y),
{
    colons_are_found(x, y);
}

proof fn eight_groups_are_an_address(g: Seq<u16>)
    requires
        g.len() == 8,
    ensures
        is_ipv6(groups_text(g)),
{
    let colons = seq![':', ':'];
    let s = groups_text(g);
    groups_are_groups(g);
    find_is_first(s, colons, 0);
    assert forall|j: int| 0 <= j implies !#[trigger] occurs_at(s, colons, j) by {
        if occurs_at(s, colons, j) {
            let w = s.subrange(j, j + 2);
            assert(w[0] == s[j] && w[1] == s[j + 1]);
        }
    }
    assert(find(s, colons) is None);
}

proof fn short_groups_are_an_address(g: Seq<u16>, at: int, len: int)
    requires
        g.len() == 8,
        0 <= at,
        1 < len,
        at + len <= 8,
    ensures
        is_ipv6(flat(seq![groups_text(g.take(at)), "::"@, groups_text(g.skip(at + len))])),
{
    reveal_strlit("::");
    assert("::"@ =~= seq![':', ':']);
    let x = groups_text(g.take(at));
    let y = groups_text(g.skip(at + len));
    let parts = seq![x, "::"@, y];
    reveal_with_fuel(flat, 4);
    assert(parts.drop_last().drop_last().drop_last() =~= Seq::<Seq<char>>::empty());
    assert(flat(parts) =~= x + seq![':', ':'] + y);
    if at > 0 {
        groups_are_groups(g.take(at));
    } else {
        assert(x =~= Seq::<char>::empty());
    }
    if at + len < 8 {
        groups_are_groups(g.skip(at + len));
    } else {
        assert(y =~= Seq::<char>::empty());
    }
    shortened_is_an_address(x, y, at, 8 - at - len);
}

/// How sixteen bytes are written is an address, and so is how four are.
pub proof fn bytes_are_an_address(a: Seq<u8>)
    requires
        a.len() == 16,
    ensures
        is_ip(ipv6_text(a)),
        is_ip(ipv4_text(a.take(4))),
{
    four_bytes_are_an_address(ipv4_text(a.take(4)));
    let g = groups(a);
    let at = longest_run(g, 8);
    let len = zero_run(g, at);
    longest_is_inside(g, 8);
    runs_are_inside(g, at);
    mapped_is_an_address(a.subrange(12, 16));
    eight_groups_are_an_address(g);
    if len > 1 {
        short_groups_are_an_address(g, at, len);
    }
}

proof fn mapped_is_an_address(b: Seq<u8>)
    requires
        b.len() == 4,
    ensures
        is_ipv6(flat(seq!["::ffff:"@, ipv4_text(b)])),
{
    reveal_strlit("::ffff:");
    let colons = seq![':', ':'];
    let v = ipv4_text(b);
    let parts = seq!["::ffff:"@, v];
    let s = flat(parts);
    reveal_with_fuel(flat, 3);
    assert(parts.drop_last().drop_last() =~= Seq::<Seq<char>>::empty());
    assert(s =~= "::ffff:"@ + v);
    find_is_first(s, colons, 0);
    assert(s.subrange(0, 2) =~= colons);
    assert(occurs_at(s, colons, 0));
    assert(find(s, colons) == Some(0int));
    assert(s.take(0) =~= Seq::<char>::empty());
    let f = seq!['f', 'f', 'f', 'f'];
    let two = seq![f, v];
    assert(s.skip(2) =~= f + seq![':'] + v);
    assert(two.drop_last() =~= seq![f]);
    reveal_with_fuel(joined, 3);
    assert(joined(two, seq![':']) =~= f + seq![':'] + v);
    four_are_joined(b);
    assert(is_free(v, ':')) by {
        let o = octets(b);
        assert forall|i: int| 0 <= i < o.len() implies is_free(#[trigger] o[i], ':') by {
            decimal_is_free(b[i] as nat, ':');
        }
        joined_is_free(o, '.', ':');
    }
    assert(is_free(f, ':'));
    assert forall|i: int| 0 <= i < two.len() implies is_free(#[trigger] two[i], ':') by {
        if i == 1 {
            assert(two[i] == v);
        }
    }
    joined_is_cut_again(two, ':');
    four_bytes_are_an_address(v);
    assert(is_ipv4(v));
    assert(is_group(f));
    assert(two[0] == f && two[1] == v);
    assert(group_count(two, true) is Some && group_count(two, true)->0 <= 3);
}

proof fn joined_is_free(parts: Seq<Seq<char>>, c: char, d: char)
    requires
        c != d,
        forall|i: int| 0 <= i < parts.len() ==> is_free(#[trigger] parts[i], d),
    ensures
        is_free(joined(parts, seq![c]), d),
    decreases parts.len(),
{
    if parts.len() > 0 {
        assert(is_free(parts[parts.len() - 1], d));
    }
    if parts.len() > 1 {
        let t = parts.drop_last();
        assert forall|i: int| 0 <= i < t.len() implies is_free(#[trigger] t[i], d) by {
            assert(t[i] == parts[i]);
        }
        joined_is_free(t, c, d);
    }
}

} // verus!
