//! Internet addresses as text.

use vstd::prelude::*;
use vstd::string::*;

use crate::seqs::push_item;
use crate::text::{decimal, flat, join_texts, joined, push_char, Parts};

verus! {

/// The character of a hexadecimal digit.
pub open spec fn hex_char(d: int) -> char {
    if d < 10 {
        (48 + d) as char
    } else {
        (87 + d) as char
    }
}

/// A number in hexadecimal, without leading zeros.
pub open spec fn hex(n: nat) -> Seq<char>
    decreases n,
{
    if n < 16 {
        seq![hex_char(n as int)]
    } else {
        hex(n / 16).push(hex_char((n % 16) as int))
    }
}

fn push_hex(s: &mut String, n: u16)
    ensures
        final(s)@ == old(s)@ + hex(n as nat),
    decreases n,
{
    if n >= 16 {
        push_hex(s, n / 16);
    }
    let d: u8 = (n % 16) as u8;
    let c: char = if d < 10 {
        (48u8 + d) as char
    } else {
        (87u8 + d) as char
    };
    push_char(s, c);
    assert(s@ =~= old(s)@ + hex(n as nat));
}

/// An IPv4 address: its four numbers with dots between them.
pub open spec fn ipv4_text(a: Seq<u8>) -> Seq<char> {
    flat(
        seq![
            decimal(a[0] as nat),
            "."@,
            decimal(a[1] as nat),
            "."@,
            decimal(a[2] as nat),
            "."@,
            decimal(a[3] as nat),
        ],
    )
}

/// An IPv4 address as text.
pub fn ipv4_to_text(a: &[u8]) -> (r: String)
    requires
        a@.len() == 4,
    ensures
        r@ == ipv4_text(a@),
{
    let mut t = Parts::new();
    t.add_number(a[0] as u64);
    t.add(".");
    t.add_number(a[1] as u64);
    t.add(".");
    t.add_number(a[2] as u64);
    t.add(".");
    t.add_number(a[3] as u64);
    t.finish()
}

/// The eight groups of an IPv6 address.
pub open spec fn groups(a: Seq<u8>) -> Seq<u16> {
    Seq::new(8, |i: int| (a[2 * i] * 256 + a[2 * i + 1]) as u16)
}

/// How many groups from `i` on are zero, one after the other.
pub open spec fn zero_run(g: Seq<u16>, i: int) -> int
    decreases g.len() - i,
{
    if 0 <= i < g.len() && g[i] == 0 {
        1 + zero_run(g, i + 1)
    } else {
        0
    }
}

/// Where the longest run of zero groups begins, of those that begin below `n`;
/// of equally long ones the first.
pub open spec fn longest_run(g: Seq<u16>, n: int) -> int
    decreases n,
{
    if n <= 0 {
        0
    } else {
        let best = longest_run(g, n - 1);
        if zero_run(g, n - 1) > zero_run(g, best) {
            n - 1
        } else {
            best
        }
    }
}

/// Groups in hexadecimal, with colons between them.
pub open spec fn groups_text(g: Seq<u16>) -> Seq<char> {
    joined(Seq::new(g.len(), |i: int| hex(g[i] as nat)), ":"@)
}

/// An IPv6 address: an IPv4 address that is mapped keeps its own form; else
/// the first of the longest runs of at least two zero groups is left out.
pub open spec fn ipv6_text(a: Seq<u8>) -> Seq<char> {
    let g = groups(a);
    let at = longest_run(g, 8);
    let len = zero_run(g, at);
    if g[0] == 0 && g[1] == 0 && g[2] == 0 && g[3] == 0 && g[4] == 0 && g[5] == 0xffff {
        flat(seq!["::ffff:"@, ipv4_text(a.subrange(12, 16))])
    } else if len > 1 {
        flat(seq![groups_text(g.take(at)), "::"@, groups_text(g.skip(at + len))])
    } else {
        groups_text(g)
    }
}

/// How many groups from `i` on are zero.
fn count_zeros(g: &[u16], i: usize) -> (r: usize)
    requires
        i <= g@.len(),
        g@.len() <= 8,
    ensures
        r == zero_run(g@, i as int),
        i + r <= g@.len(),
    decreases g@.len() - i,
{
    if i < g.len() && g[i] == 0 {
        1 + count_zeros(g, i + 1)
    } else {
        0
    }
}

/// Groups in hexadecimal, with colons between them.
fn groups_to_text(g: &[u16], from: usize, to: usize) -> (r: String)
    requires
        from <= to <= g@.len(),
    ensures
        r@ == groups_text(g@.subrange(from as int, to as int)),
{
    let ghost s = g@.subrange(from as int, to as int);
    let ghost want = Seq::new(s.len(), |i: int| hex(s[i] as nat));
    let mut out: Vec<String> = Vec::new();
    let mut i: usize = from;
    assert(out.deep_view() =~= want.take(0));
    while i < to
        invariant
            from <= i <= to <= g@.len(),
            s == g@.subrange(from as int, to as int),
            want == Seq::new(s.len(), |i: int| hex(s[i] as nat)),
            out.deep_view() == want.take(i - from),
        decreases to - i,
    {
        let mut t = String::new();
        push_hex(&mut t, g[i]);
        assert(t@ =~= want[i - from]);
        push_item(&mut out, t);
        assert(want.take(i - from).push(want[i - from]) =~= want.take(i - from + 1));
        i = i + 1;
    }
    assert(want.take(to - from) =~= want);
    join_texts(&out, ":")
}

/// An IPv6 address as text.
pub fn ipv6_to_text(a: &[u8]) -> (r: String)
    requires
        a@.len() == 16,
    ensures
        r@ == ipv6_text(a@),
{
    let mut g: Vec<u16> = Vec::new();
    let mut i: usize = 0;
    while i < 8
        invariant
            a@.len() == 16,
            i <= 8,
            g@.len() == i,
            forall|k: int| 0 <= k < i ==> g@[k] == groups(a@)[k],
        decreases 8 - i,
    {
        let hi: u16 = a[2 * i] as u16;
        let lo: u16 = a[2 * i + 1] as u16;
        g.push(hi * 256 + lo);
        i = i + 1;
    }
    assert(g@ =~= groups(a@));
    if g[0] == 0 && g[1] == 0 && g[2] == 0 && g[3] == 0 && g[4] == 0 && g[5] == 0xffff {
        let mut t = Parts::new();
        t.add("::ffff:");
        let tail = [a[12], a[13], a[14], a[15]];
        assert(tail@ =~= a@.subrange(12, 16));
        t.add(ipv4_to_text(&tail).as_str());
        return t.finish();
    }
    let mut best: usize = 0;
    let mut n: usize = 0;
    while n < 8
        invariant
            g@ == groups(a@),
            n <= 8,
            best < 8,
            best == longest_run(g@, n as int),
        decreases 8 - n,
    {
        let here: usize = count_zeros(g.as_slice(), n);
        let there: usize = count_zeros(g.as_slice(), best);
        if here > there {
            best = n;
        }
        n = n + 1;
    }
    let len: usize = count_zeros(g.as_slice(), best);
    if len > 1 {
        let mut t = Parts::new();
        t.add(groups_to_text(g.as_slice(), 0, best).as_str());
        t.add("::");
        t.add(groups_to_text(g.as_slice(), best + len, 8).as_str());
        assert(g@.subrange(0, best as int) =~= g@.take(best as int));
        assert(g@.subrange(best + len, 8) =~= g@.skip(best + len));
        t.finish()
    } else {
        let r = groups_to_text(g.as_slice(), 0, 8);
        assert(g@.subrange(0, 8) =~= g@);
        r
    }
}

} // verus!
