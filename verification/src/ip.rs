//! Which texts are internet addresses, and the port behind one.
//!
//! Socket tables print a remote end as an address, a dot and a port:
//! `140.82.112.4.443`, `2607:f8b0::200e.443`.

use vstd::prelude::*;
use vstd::string::*;

use crate::text::{
    chars_of, decimal, decimal_round_trip, find, find_chars, find_is_first, is_all_digits, is_digit,
    is_number, occurs_at, parse_unsigned, parse_unsigned_max, pieces, pieces_of, rfind, rfind_is_last,
    split_at_last, split_last, string_of,
};

verus! {

/// Whether a text is a number up to 255 without leading zeros.
pub open spec fn is_octet(s: Seq<char>) -> bool {
    &&& is_number(s)
    &&& s.len() <= 3
    &&& s.len() > 1 ==> s[0] != '0'
    &&& parse_unsigned(s, 255) is Some
}

/// Whether a text is four octets with dots between them.
pub open spec fn is_ipv4(s: Seq<char>) -> bool {
    let p = pieces(s, '.');
    p.len() == 4 && is_octet(p[0]) && is_octet(p[1]) && is_octet(p[2]) && is_octet(p[3])
}

/// Whether a character is a hexadecimal digit.
pub open spec fn is_hex_digit(c: char) -> bool {
    ('0' <= c && c <= '9') || ('a' <= c && c <= 'f') || ('A' <= c && c <= 'F')
}

/// Whether a text is one to four hexadecimal digits.
pub open spec fn is_group(s: Seq<char>) -> bool {
    1 <= s.len() <= 4 && forall|i: int| 0 <= i < s.len() ==> is_hex_digit(#[trigger] s[i])
}

/// How many groups the pieces write, where every piece is a group. With `v4`
/// the last piece may be four octets instead, in place of two groups.
pub open spec fn group_count(p: Seq<Seq<char>>, v4: bool) -> Option<int> {
    let n = p.len();
    if n > 0 && (forall|i: int| 0 <= i < n ==> is_group(#[trigger] p[i])) {
        Some(n as int)
    } else if v4 && n > 0 && is_ipv4(p[n - 1]) && (forall|i: int|
        0 <= i < n - 1 ==> is_group(#[trigger] p[i])) {
        Some(n as int + 1)
    } else {
        None
    }
}

/// How many groups a side of a double colon writes; nothing writes none.
pub open spec fn side_count(s: Seq<char>, v4: bool) -> Option<int> {
    if s.len() == 0 {
        Some(0)
    } else {
        group_count(pieces(s, ':'), v4)
    }
}

/// Whether a text is eight groups with colons between them, where a double
/// colon stands for one group of zeros or more.
pub open spec fn is_ipv6(s: Seq<char>) -> bool {
    match find(s, seq![':', ':']) {
        None => group_count(pieces(s, ':'), true) == Some(8int),
        Some(i) => match (side_count(s.take(i), false), side_count(s.skip(i + 2), true)) {
            (Some(a), Some(b)) => a + b <= 7,
            _ => false,
        },
    }
}

/// Whether a text is an address.
pub open spec fn is_ip(s: Seq<char>) -> bool {
    is_ipv4(s) || is_ipv6(s)
}

/// The port behind an address.
pub open spec fn port_behind(addr: Seq<char>) -> Option<u16> {
    match split_last(addr, '.') {
        Some((host, port)) => match parse_unsigned(port, 65535) {
            Some(n) => if is_ip(host) {
                Some(n as u16)
            } else {
                None
            },
            None => None,
        },
        None => None,
    }
}

fn octet(s: &str) -> (r: bool)
    ensures
        r == is_octet(s@),
{
    let cs: Vec<char> = chars_of(s);
    let n: usize = cs.len();
    if !is_all_digits(s) || n > 3 || (n > 1 && cs[0] == '0') {
        return false;
    }
    parse_unsigned_max(cs.as_slice(), 255).is_some()
}

fn ipv4(s: &str) -> (r: bool)
    ensures
        r == is_ipv4(s@),
{
    let p: Vec<String> = pieces_of(s, '.');
    let ghost all = p.deep_view();
    if p.len() != 4 {
        return false;
    }
    assert(all[0] == p@[0]@ && all[1] == p@[1]@ && all[2] == p@[2]@ && all[3] == p@[3]@);
    octet(p[0].as_str()) && octet(p[1].as_str()) && octet(p[2].as_str()) && octet(p[3].as_str())
}

fn group(s: &str) -> (r: bool)
    ensures
        r == is_group(s@),
{
    let cs: Vec<char> = chars_of(s);
    let n: usize = cs.len();
    if n < 1 || n > 4 {
        return false;
    }
    let mut i: usize = 0;
    while i < n
        invariant
            cs@ == s@,
            n == cs@.len(),
            i <= n,
            forall|k: int| 0 <= k < i ==> is_hex_digit(#[trigger] s@[k]),
        decreases n - i,
    {
        let c: char = cs[i];
        if !(('0' <= c && c <= '9') || ('a' <= c && c <= 'f') || ('A' <= c && c <= 'F')) {
            assert(!is_hex_digit(s@[i as int]));
            return false;
        }
        i = i + 1;
    }
    true
}

fn count_groups(p: &Vec<String>, v4: bool) -> (r: Option<u128>)
    ensures
        r is Some == group_count(p.deep_view(), v4) is Some,
        r is Some ==> r->0 == group_count(p.deep_view(), v4)->0 && r->0 <= 0x1_0000_0000_0000_0000,
{
    let ghost all = p.deep_view();
    let n: usize = p.len();
    if n == 0 {
        return None;
    }
    let mut i: usize = 0;
    while i < n - 1
        invariant
            all == p.deep_view(),
            n == p@.len(),
            n > 0,
            i <= n - 1,
            forall|k: int| 0 <= k < i ==> is_group(#[trigger] all[k]),
        decreases n - i,
    {
        assert(all[i as int] == p@[i as int]@);
        if !group(p[i].as_str()) {
            return None;
        }
        i = i + 1;
    }
    assert(all[n - 1] == p@[n - 1]@);
    if group(p[n - 1].as_str()) {
        assert forall|k: int| 0 <= k < n implies is_group(#[trigger] all[k]) by {}
        return Some(n as u128);
    }
    if v4 && ipv4(p[n - 1].as_str()) {
        return Some(n as u128 + 1);
    }
    None
}

fn count_side(s: &str, v4: bool) -> (r: Option<u128>)
    ensures
        r is Some == side_count(s@, v4) is Some,
        r is Some ==> r->0 == side_count(s@, v4)->0 && r->0 <= 0x1_0000_0000_0000_0000,
{
    if s.is_empty() {
        return Some(0);
    }
    count_groups(&pieces_of(s, ':'), v4)
}

fn ipv6(s: &str) -> (r: bool)
    ensures
        r == is_ipv6(s@),
{
    let cs: Vec<char> = chars_of(s);
    let n: usize = cs.len();
    let colons = [':', ':'];
    assert(colons@ =~= seq![':', ':']);
    match find_chars(cs.as_slice(), &colons, 0) {
        None => match count_groups(&pieces_of(s, ':'), true) {
            Some(k) => k == 8,
            None => false,
        },
        Some(i) => {
            proof {
                find_is_first(s@, seq![':', ':'], 0);
            }
            let head = string_of(cs.as_slice(), 0, i);
            let tail = string_of(cs.as_slice(), i + 2, n);
            assert(head@ =~= s@.take(i as int));
            assert(tail@ =~= s@.skip(i + 2));
            match (count_side(head.as_str(), false), count_side(tail.as_str(), true)) {
                (Some(a), Some(b)) => a + b <= 7,
                _ => false,
            }
        },
    }
}

/// Whether a text is an address: four decimal octets, or hexadecimal groups.
pub fn is_ip_address(s: &str) -> (r: bool)
    ensures
        r == is_ip(s@),
{
    ipv4(s) || ipv6(s)
}

/// The port of a remote end, `1.2.3.4.443`. Only what stands behind an address
/// is a port, so that the last octet of a bare `1.2.3.4` is none.
pub fn foreign_port(addr: &str) -> (r: Option<u16>)
    ensures
        r == port_behind(addr@),
{
    match split_at_last(addr, '.') {
        Some((host, port)) => {
            let cs: Vec<char> = chars_of(port.as_str());
            match parse_unsigned_max(cs.as_slice(), 65535) {
                Some(n) => if is_ip_address(host.as_str()) {
                    Some(n as u16)
                } else {
                    None
                },
                None => None,
            }
        },
        None => None,
    }
}

/// The port behind an address is read back.
pub proof fn port_reads_back(host: Seq<char>, port: u16)
    requires
        is_ip(host),
    ensures
        port_behind(host + "."@ + decimal(port as nat)) == Some(port),
{
    reveal_strlit(".");
    let digits = decimal(port as nat);
    let s = host + "."@ + digits;
    let dot = seq!['.'];
    let n = host.len() as int;
    decimal_round_trip(port as nat);
    assert(s[n] == '.');
    assert(occurs_at(s, dot, n)) by {
        assert(s.subrange(n, n + 1) =~= dot);
    }
    rfind_is_last(s, dot, s.len() - 1);
    let k = rfind(s, dot)->0;
    if k > n {
        assert(s.subrange(k, k + 1)[0] == '.');
        assert(s[k] == digits[k - n - 1]);
        assert(is_digit(digits[k - n - 1]));
    }
    assert(s.take(n) =~= host);
    assert(s.skip(n + 1) =~= digits);
}

} // verus!
