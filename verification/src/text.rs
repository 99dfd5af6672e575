//! Text as sequences of characters: decimal numbers, searching, splitting
//! and trimming.

use vstd::prelude::*;
use vstd::string::*;

verus! {

/// The character of a decimal digit.
pub open spec fn digit_char(d: int) -> char {
    (48 + d) as char
}

/// Whether a character is one of `0` to `9`.
pub open spec fn is_digit(c: char) -> bool {
    '0' <= c && c <= '9'
}

/// The decimal digits of a number, without leading zeros.
pub open spec fn decimal(n: nat) -> Seq<char>
    decreases n,
{
    if n < 10 {
        seq![digit_char(n as int)]
    } else {
        decimal(n / 10).push(digit_char((n % 10) as int))
    }
}

/// A signed number in decimal, with `-` before a negative one.
pub open spec fn signed_decimal(n: int) -> Seq<char> {
    if n < 0 {
        seq!['-'] + decimal((-n) as nat)
    } else {
        decimal(n as nat)
    }
}

/// The number that a run of digits writes in base ten.
pub open spec fn decimal_value(s: Seq<char>) -> nat
    decreases s.len(),
{
    if s.len() == 0 {
        0
    } else {
        (decimal_value(s.drop_last()) * 10 + (s.last() as int - 48)) as nat
    }
}

/// Whether every character is a digit.
pub open spec fn all_digits(s: Seq<char>) -> bool {
    forall|i: int| 0 <= i < s.len() ==> is_digit(#[trigger] s[i])
}

/// Compares two strings with `str`'s own `==`.
///
/// Claimed of it: it is true exactly when both hold the same characters.
#[verifier::external_body]
pub(crate) fn str_eq(a: &str, b: &str) -> (r: bool)
    ensures
        r == (a@ == b@),
{
    a == b
}

/// Appends one character with `String::push`.
///
/// Claimed of it: the string grows by that character at its end.
#[verifier::external_body]
pub(crate) fn push_char(s: &mut String, c: char)
    ensures
        final(s)@ == old(s)@.push(c),
{
    s.push(c)
}

/// The characters of a string.
pub fn chars_of(s: &str) -> (r: Vec<char>)
    ensures
        r@ == s@,
{
    let mut out: Vec<char> = Vec::new();
    for c in it: s.chars()
        invariant
            it.seq() == s@,
            out@ == s@.take(it.index() as int),
    {
        out.push(c);
        assert(out@ =~= s@.take(it.index() + 1));
    }
    assert(s@.take(s@.len() as int) =~= s@);
    out
}

/// The string of the characters from `from` up to but not including `to`.
pub fn string_of(cs: &[char], from: usize, to: usize) -> (r: String)
    requires
        from <= to <= cs@.len(),
    ensures
        r@ == cs@.subrange(from as int, to as int),
{
    let mut out = String::new();
    let mut i: usize = from;
    while i < to
        invariant
            from <= i <= to <= cs@.len(),
            out@ == cs@.subrange(from as int, i as int),
        decreases to - i,
    {
        push_char(&mut out, cs[i]);
        i = i + 1;
        assert(out@ =~= cs@.subrange(from as int, i as int));
    }
    out
}

/// Appends the decimal digits of `n`.
pub fn push_u64(s: &mut String, n: u64)
    ensures
        final(s)@ == old(s)@ + decimal(n as nat),
    decreases n,
{
    if n >= 10 {
        push_u64(s, n / 10);
    }
    let d: u8 = (n % 10) as u8;
    let c: char = (48u8 + d) as char;
    push_char(s, c);
    assert(s@ =~= old(s)@ + decimal(n as nat));
}

/// The decimal digits of `n`.
pub fn u64_text(n: u64) -> (r: String)
    ensures
        r@ == decimal(n as nat),
{
    let mut s = String::new();
    push_u64(&mut s, n);
    assert(s@ =~= decimal(n as nat));
    s
}


/// The decimal digits of `n`, with a sign before a negative one.
pub fn i64_text(n: i64) -> (r: String)
    ensures
        r@ == signed_decimal(n as int),
{
    let mut s = String::new();
    if n < 0 {
        push_char(&mut s, '-');
        let m: u64 = if n == i64::MIN {
            9_223_372_036_854_775_808
        } else {
            (-n) as u64
        };
        push_u64(&mut s, m);
    } else {
        push_u64(&mut s, n as u64);
    }
    assert(s@ =~= signed_decimal(n as int));
    s
}

/// Writing a number in decimal and reading the digits gives the number back.
pub proof fn decimal_round_trip(n: nat)
    ensures
        decimal(n).len() > 0,
        all_digits(decimal(n)),
        decimal_value(decimal(n)) == n,
    decreases n,
{
    if n < 10 {
        assert(decimal(n).drop_last() =~= Seq::<char>::empty());
        assert(decimal_value(Seq::<char>::empty()) == 0);
        assert(decimal(n).last() as int - 48 == n);
    } else {
        decimal_round_trip(n / 10);
        assert(decimal(n).drop_last() =~= decimal(n / 10));
        assert(decimal(n).last() as int - 48 == n % 10);
    }
}

/// What an unsigned integer type with the largest value `max` reads from a
/// text: an optional `+`, then at least one digit and nothing else, writing a
/// number no larger than `max`.
pub open spec fn parse_unsigned(s: Seq<char>, max: nat) -> Option<nat> {
    let body = if s.len() > 0 && s[0] == '+' {
        s.skip(1)
    } else {
        s
    };
    if body.len() > 0 && all_digits(body) && decimal_value(body) <= max {
        Some(decimal_value(body))
    } else {
        None
    }
}

/// What a signed integer type with the values `min` to `max` reads from a
/// text: an optional sign, then at least one digit and nothing else.
pub open spec fn parse_signed(s: Seq<char>, min: int, max: int) -> Option<int> {
    if s.len() > 0 && s[0] == '-' {
        let body = s.skip(1);
        if body.len() > 0 && all_digits(body) && -decimal_value(body) >= min {
            Some(-(decimal_value(body) as int))
        } else {
            None
        }
    } else {
        match parse_unsigned(s, max as nat) {
            Some(n) => Some(n as int),
            None => None,
        }
    }
}
/// Reads the digits `cs[from..to]` as a number, if there is at least one, all
/// are digits, and the number is at most `max`.
fn parse_digits(cs: &[char], from: usize, to: usize, max: u64) -> (r: Option<u64>)
    requires
        from <= to <= cs@.len(),
    ensures
        ({
            let body = cs@.subrange(from as int, to as int);
            match r {
                Some(n) => body.len() > 0 && all_digits(body) && decimal_value(body) == n && n <= max,
                None => body.len() == 0 || !all_digits(body) || decimal_value(body) > max,
            }
        }),
{
    let ghost body = cs@.subrange(from as int, to as int);
    if from == to {
        return None;
    }
    let mut over: bool = false;
    let mut n: u64 = 0;
    let mut i: usize = from;
    while i < to
        invariant
            from <= i <= to <= cs@.len(),
            body == cs@.subrange(from as int, to as int),
            forall|j: int| 0 <= j < i - from ==> is_digit(#[trigger] body[j]),
            over ==> decimal_value(body.take(i - from)) > max,
            !over ==> decimal_value(body.take(i - from)) == n && n <= max,
        decreases to - i,
    {
        let c: char = cs[i];
        proof {
            assert(body[i - from] == c);
            assert(body.take(i - from + 1).drop_last() =~= body.take(i - from));
            assert(body.take(i - from + 1).last() == c);
        }
        if !(c >= '0' && c <= '9') {
            assert(!is_digit(body[i - from]));
            return None;
        }
        let d: u64 = c as u64 - 48;
        if !over {
            if n > (u64::MAX - d) / 10 {
                over = true;
            } else {
                let m: u64 = n * 10 + d;
                if m > max {
                    over = true;
                } else {
                    n = m;
                }
            }
        }
        i = i + 1;
    }
    assert(body.take(body.len() as int) =~= body);
    if over {
        None
    } else {
        Some(n)
    }
}

/// Reads an unsigned number no larger than `max`, as `str::parse` does.
pub fn parse_unsigned_max(cs: &[char], max: u64) -> (r: Option<u64>)
    ensures
        r is Some == parse_unsigned(cs@, max as nat) is Some,
        r is Some ==> r->0 == parse_unsigned(cs@, max as nat)->0,
{
    let n: usize = cs.len();
    let from: usize = if n > 0 && cs[0] == '+' {
        1
    } else {
        0
    };
    proof {
        assert(cs@.subrange(0, n as int) =~= cs@);
        if n > 0 {
            assert(cs@.subrange(1, n as int) =~= cs@.skip(1));
        }
    }
    parse_digits(cs, from, n, max)
}

/// Reads a `u64`.
pub fn parse_u64(cs: &[char]) -> (r: Option<u64>)
    ensures
        r is Some == parse_unsigned(cs@, u64::MAX as nat) is Some,
        r is Some ==> r->0 == parse_unsigned(cs@, u64::MAX as nat)->0,
{
    parse_unsigned_max(cs, u64::MAX)
}

/// Reads a `u32`.
pub fn parse_u32(cs: &[char]) -> (r: Option<u32>)
    ensures
        r is Some == parse_unsigned(cs@, u32::MAX as nat) is Some,
        r is Some ==> r->0 == parse_unsigned(cs@, u32::MAX as nat)->0,
{
    match parse_unsigned_max(cs, 4_294_967_295) {
        Some(n) => Some(n as u32),
        None => None,
    }
}

/// Reads an `i64`.
pub fn parse_i64(cs: &[char]) -> (r: Option<i64>)
    ensures
        r is Some == parse_signed(cs@, i64::MIN as int, i64::MAX as int) is Some,
        r is Some ==> r->0 == parse_signed(cs@, i64::MIN as int, i64::MAX as int)->0,
{
    let n: usize = cs.len();
    if n > 0 && cs[0] == '-' {
        assert(cs@.subrange(1, n as int) =~= cs@.skip(1));
        match parse_digits(cs, 1, n, 9_223_372_036_854_775_808) {
            Some(m) => if m == 9_223_372_036_854_775_808 {
                Some(i64::MIN)
            } else {
                Some(-(m as i64))
            },
            None => None,
        }
    } else {
        match parse_unsigned_max(cs, 9_223_372_036_854_775_807) {
            Some(m) => Some(m as i64),
            None => None,
        }
    }
}

/// Reads an `i32`.
pub fn parse_i32(cs: &[char]) -> (r: Option<i32>)
    ensures
        r is Some == parse_signed(cs@, i32::MIN as int, i32::MAX as int) is Some,
        r is Some ==> r->0 == parse_signed(cs@, i32::MIN as int, i32::MAX as int)->0,
{
    let n: usize = cs.len();
    if n > 0 && cs[0] == '-' {
        assert(cs@.subrange(1, n as int) =~= cs@.skip(1));
        match parse_digits(cs, 1, n, 2_147_483_648) {
            Some(m) => Some((-(m as i64)) as i32),
            None => None,
        }
    } else {
        match parse_unsigned_max(cs, 2_147_483_647) {
            Some(m) => Some(m as i32),
            None => None,
        }
    }
}

/// Whether `p` stands in `s` at position `i`.
pub open spec fn occurs_at(s: Seq<char>, p: Seq<char>, i: int) -> bool {
    0 <= i && i + p.len() <= s.len() && s.subrange(i, i + p.len()) == p
}

/// The first position at or after `i` where `p` stands in `s`.
pub open spec fn find_from(s: Seq<char>, p: Seq<char>, i: int) -> Option<int>
    decreases s.len() - i + 1,
{
    if i < 0 || i + p.len() > s.len() {
        None
    } else if occurs_at(s, p, i) {
        Some(i)
    } else {
        find_from(s, p, i + 1)
    }
}

/// The last position at or before `i` where `p` stands in `s`.
pub open spec fn rfind_from(s: Seq<char>, p: Seq<char>, i: int) -> Option<int>
    decreases i + 1,
{
    if i < 0 {
        None
    } else if occurs_at(s, p, i) {
        Some(i)
    } else {
        rfind_from(s, p, i - 1)
    }
}

/// The first position of `p` in `s`.
pub open spec fn find(s: Seq<char>, p: Seq<char>) -> Option<int> {
    find_from(s, p, 0)
}

/// The last position of `p` in `s`.
pub open spec fn rfind(s: Seq<char>, p: Seq<char>) -> Option<int> {
    rfind_from(s, p, s.len() - p.len())
}

/// Whether `s` begins with `p`.
pub open spec fn has_prefix(s: Seq<char>, p: Seq<char>) -> bool {
    occurs_at(s, p, 0)
}

/// Whether the pattern stands at position `i`.
pub fn matches_at(s: &[char], p: &[char], i: usize) -> (r: bool)
    ensures
        r == occurs_at(s@, p@, i as int),
{
    if i > s.len() || p.len() > s.len() - i {
        return false;
    }
    let n: usize = s.len();
    let mut k: usize = 0;
    while k < p.len()
        invariant
            0 <= k <= p@.len(),
            n == s@.len(),
            i + p@.len() <= s@.len(),
            forall|j: int| 0 <= j < k ==> s@[i + j] == p@[j],
        decreases p@.len() - k,
    {
        if s[i + k] != p[k] {
            assert(s@.subrange(i as int, i + p@.len())[k as int] != p@[k as int]);
            return false;
        }
        k = k + 1;
    }
    assert(s@.subrange(i as int, i + p@.len()) =~= p@);
    true
}

/// The first position of the pattern at or after `from`.
pub fn find_chars(s: &[char], p: &[char], from: usize) -> (r: Option<usize>)
    ensures
        match r {
            Some(i) => find_from(s@, p@, from as int) == Some(i as int),
            None => find_from(s@, p@, from as int) is None,
        },
{
    let mut i: usize = from;
    while i <= s.len() && p.len() <= s.len() - i
        invariant
            from <= i <= s@.len() + 1 || i == from,
            find_from(s@, p@, from as int) == find_from(s@, p@, i as int),
        decreases s@.len() + 1 - i,
    {
        if matches_at(s, p, i) {
            return Some(i);
        }
        if i == s.len() {
            assert(find_from(s@, p@, i + 1) is None);
            return None;
        }
        i = i + 1;
    }
    None
}

/// The last position of the pattern.
pub fn rfind_chars(s: &[char], p: &[char]) -> (r: Option<usize>)
    ensures
        match r {
            Some(i) => rfind(s@, p@) == Some(i as int),
            None => rfind(s@, p@) is None,
        },
{
    if p.len() > s.len() {
        return None;
    }
    let mut i: usize = s.len() - p.len();
    loop
        invariant
            i <= s@.len() - p@.len(),
            rfind(s@, p@) == rfind_from(s@, p@, i as int),
        decreases i,
    {
        if matches_at(s, p, i) {
            return Some(i);
        }
        if i == 0 {
            assert(rfind_from(s@, p@, -1) is None);
            return None;
        }
        i = i - 1;
    }
}

/// What `find_from` gives is a position of the pattern, and the first one.
pub proof fn find_is_first(s: Seq<char>, p: Seq<char>, i: int)
    requires
        0 <= i,
    ensures
        match find_from(s, p, i) {
            Some(k) => i <= k && occurs_at(s, p, k) && forall|j: int|
                i <= j < k ==> !occurs_at(s, p, j),
            None => forall|j: int| i <= j ==> !occurs_at(s, p, j),
        },
    decreases s.len() - i + 1,
{
    if i + p.len() <= s.len() && !occurs_at(s, p, i) {
        find_is_first(s, p, i + 1);
    }
}

/// What `rfind_from` gives is a position of the pattern, and the last one.
pub proof fn rfind_is_last(s: Seq<char>, p: Seq<char>, i: int)
    ensures
        match rfind_from(s, p, i) {
            Some(k) => k <= i && occurs_at(s, p, k) && forall|j: int|
                k < j <= i ==> !occurs_at(s, p, j),
            None => forall|j: int| j <= i ==> !occurs_at(s, p, j),
        },
    decreases i + 1,
{
    if i >= 0 && !occurs_at(s, p, i) {
        rfind_is_last(s, p, i - 1);
    }
}

/// Texts one after the other.
pub open spec fn flat(s: Seq<Seq<char>>) -> Seq<char>
    decreases s.len(),
{
    if s.len() == 0 {
        Seq::empty()
    } else {
        flat(s.drop_last()) + s.last()
    }
}

/// A text under construction, as the sequence of its parts.
pub(crate) struct Parts {
    text: String,
    list: Ghost<Seq<Seq<char>>>,
}

impl Parts {
    /// The parts in order.
    pub(crate) closed spec fn parts(self) -> Seq<Seq<char>> {
        self.list@
    }

    /// The text is its parts one after the other.
    pub(crate) closed spec fn wf(self) -> bool {
        self.text@ == flat(self.list@)
    }

    /// A text without any part.
    pub(crate) fn new() -> (r: Self)
        ensures
            r.wf(),
            r.parts() == Seq::<Seq<char>>::empty(),
    {
        Parts { text: String::new(), list: Ghost(Seq::empty()) }
    }

    /// Adds a part.
    pub(crate) fn add(&mut self, part: &str)
        requires
            old(self).wf(),
        ensures
            final(self).wf(),
            final(self).parts() == old(self).parts().push(part@),
    {
        let ghost before = self.list@;
        self.text.append(part);
        self.list = Ghost(before.push(part@));
        assert(before.push(part@).drop_last() =~= before);
    }

    /// Adds a number in decimal.
    pub(crate) fn add_number(&mut self, n: u64)
        requires
            old(self).wf(),
        ensures
            final(self).wf(),
            final(self).parts() == old(self).parts().push(decimal(n as nat)),
    {
        self.add(u64_text(n).as_str());
    }

    /// The text.
    pub(crate) fn finish(self) -> (r: String)
        requires
            self.wf(),
        ensures
            r@ == flat(self.parts()),
            forall|p: Seq<Seq<char>>| #![trigger flat(p)] p =~= self.parts() ==> r@ == flat(p),
    {
        self.text
    }
}

/// Texts one after the other, with a separator between them.
pub open spec fn joined(s: Seq<Seq<char>>, sep: Seq<char>) -> Seq<char>
    decreases s.len(),
{
    if s.len() == 0 {
        Seq::empty()
    } else if s.len() == 1 {
        s[0]
    } else {
        joined(s.drop_last(), sep) + sep + s.last()
    }
}

/// Texts one after the other, with a separator between them.
pub fn join_texts(v: &Vec<String>, sep: &str) -> (r: String)
    ensures
        r@ == joined(v.deep_view(), sep@),
{
    let ghost all = v.deep_view();
    let mut out = String::new();
    let mut i: usize = 0;
    assert(out@ =~= joined(all.take(0), sep@));
    while i < v.len()
        invariant
            all == v.deep_view(),
            i <= v@.len(),
            out@ == joined(all.take(i as int), sep@),
        decreases v@.len() - i,
    {
        assert(all.take(i + 1).drop_last() =~= all.take(i as int));
        assert(all.take(i + 1).last() == v@[i as int]@);
        if i > 0 {
            out.append(sep);
        }
        out.append(v[i].as_str());
        assert(out@ =~= joined(all.take(i + 1), sep@));
        i = i + 1;
    }
    assert(all.take(all.len() as int) =~= all);
    out
}

/// What stands behind the last slash of a path; the whole path without one.
pub open spec fn basename(s: Seq<char>) -> Seq<char> {
    match rfind(s, seq!['/']) {
        Some(i) => s.skip(i + 1),
        None => s,
    }
}

/// What stands behind the last slash of a path.
pub fn basename_of(path: &str) -> (r: String)
    ensures
        r@ == basename(path@),
{
    let cs: Vec<char> = chars_of(path);
    let n: usize = cs.len();
    let slash = ['/'];
    assert(slash@ =~= seq!['/']);
    match rfind_chars(cs.as_slice(), &slash) {
        Some(i) => {
            proof {
                rfind_is_last(path@, seq!['/'], path@.len() - 1);
            }
            let r = string_of(cs.as_slice(), i + 1, n);
            assert(r@ =~= path@.skip(i + 1));
            r
        },
        None => path.to_owned(),
    }
}

// ---------- space, words, lines ------------------------------------------------------

/// Whether a character is white space.
pub open spec fn is_space(c: char) -> bool {
    let n = c as u32;
    (9 <= n <= 13) || n == 0x20 || n == 0x85 || n == 0xa0 || n == 0x1680 || (0x2000 <= n <= 0x200a) || n
        == 0x2028 || n == 0x2029 || n == 0x202f || n == 0x205f || n == 0x3000
}

/// A text without the white space at its start.
pub open spec fn trim_start(s: Seq<char>) -> Seq<char>
    decreases s.len(),
{
    if s.len() > 0 && is_space(s[0]) {
        trim_start(s.skip(1))
    } else {
        s
    }
}

/// A text without the white space at its end.
pub open spec fn trim_end(s: Seq<char>) -> Seq<char>
    decreases s.len(),
{
    if s.len() > 0 && is_space(s.last()) {
        trim_end(s.drop_last())
    } else {
        s
    }
}

/// A text without the white space at both ends.
pub open spec fn trim(s: Seq<char>) -> Seq<char> {
    trim_end(trim_start(s))
}

/// The complete words of a text, and the word under way at its end.
pub open spec fn scan_words(s: Seq<char>) -> (Seq<Seq<char>>, Seq<char>)
    decreases s.len(),
{
    if s.len() == 0 {
        (Seq::empty(), Seq::empty())
    } else {
        let (done, word) = scan_words(s.drop_last());
        if is_space(s.last()) {
            (
                if word.len() > 0 {
                    done.push(word)
                } else {
                    done
                },
                Seq::empty(),
            )
        } else {
            (done, word.push(s.last()))
        }
    }
}

/// The words of a text: what stands between white space.
pub open spec fn words(s: Seq<char>) -> Seq<Seq<char>> {
    let (done, word) = scan_words(s);
    if word.len() > 0 {
        done.push(word)
    } else {
        done
    }
}

/// A line without the carriage return at its end.
pub open spec fn without_cr(s: Seq<char>) -> Seq<char> {
    if s.len() > 0 && s.last() == '\r' {
        s.drop_last()
    } else {
        s
    }
}

/// The complete lines of a text, and the line under way at its end.
pub open spec fn scan_lines(s: Seq<char>) -> (Seq<Seq<char>>, Seq<char>)
    decreases s.len(),
{
    if s.len() == 0 {
        (Seq::empty(), Seq::empty())
    } else {
        let (done, line) = scan_lines(s.drop_last());
        if s.last() == '\n' {
            (done.push(without_cr(line)), Seq::empty())
        } else {
            (done, line.push(s.last()))
        }
    }
}

/// The lines of a text, without their ends.
pub open spec fn lines(s: Seq<char>) -> Seq<Seq<char>> {
    let (done, line) = scan_lines(s);
    if line.len() > 0 {
        done.push(line)
    } else {
        done
    }
}

/// Whether a character is white space.
pub fn char_is_space(c: char) -> (r: bool)
    ensures
        r == is_space(c),
{
    let n: u32 = c as u32;
    (n >= 9 && n <= 13) || n == 0x20 || n == 0x85 || n == 0xa0 || n == 0x1680 || (n >= 0x2000 && n
        <= 0x200a) || n == 0x2028 || n == 0x2029 || n == 0x202f || n == 0x205f || n == 0x3000
}

/// A text without the white space at both ends.
pub fn trim_text(s: &str) -> (r: String)
    ensures
        r@ == trim(s@),
{
    let cs: Vec<char> = chars_of(s);
    let n: usize = cs.len();
    let mut from: usize = 0;
    assert(s@.skip(0) =~= s@);
    while from < n && char_is_space(cs[from])
        invariant
            cs@ == s@,
            n == cs@.len(),
            from <= n,
            trim_start(s@) == trim_start(s@.skip(from as int)),
        decreases n - from,
    {
        assert(s@.skip(from as int)[0] == cs@[from as int]);
        assert(s@.skip(from as int).skip(1) =~= s@.skip(from + 1));
        from = from + 1;
    }
    let ghost t = s@.skip(from as int);
    assert(trim_start(s@) == t) by {
        if from < n {
            assert(t[0] == cs@[from as int]);
        }
    }
    let mut to: usize = n;
    assert(s@.subrange(from as int, n as int) =~= t);
    while to > from && char_is_space(cs[to - 1])
        invariant
            cs@ == s@,
            n == cs@.len(),
            from <= to <= n,
            trim_end(t) == trim_end(s@.subrange(from as int, to as int)),
        decreases to,
    {
        let ghost u = s@.subrange(from as int, to as int);
        assert(u.last() == cs@[to - 1]);
        assert(u.drop_last() =~= s@.subrange(from as int, to - 1));
        to = to - 1;
    }
    assert(trim_end(t) == s@.subrange(from as int, to as int)) by {
        if to > from {
            assert(s@.subrange(from as int, to as int).last() == cs@[to - 1]);
        }
    }
    string_of(cs.as_slice(), from, to)
}

/// The words of a text.
pub fn words_of(s: &str) -> (r: Vec<String>)
    ensures
        r.deep_view() == words(s@),
{
    let cs: Vec<char> = chars_of(s);
    let mut out: Vec<String> = Vec::new();
    let mut word = String::new();
    let mut i: usize = 0;
    assert(out.deep_view() =~= scan_words(s@.take(0)).0);
    assert(word@ =~= scan_words(s@.take(0)).1);
    while i < cs.len()
        invariant
            cs@ == s@,
            i <= cs@.len(),
            out.deep_view() == scan_words(s@.take(i as int)).0,
            word@ == scan_words(s@.take(i as int)).1,
            word@.len() <= i,
        decreases cs@.len() - i,
    {
        assert(s@.take(i + 1).drop_last() =~= s@.take(i as int));
        let c: char = cs[i];
        if char_is_space(c) {
            if !word.as_str().is_empty() {
                crate::seqs::push_item(&mut out, word);
            }
            word = String::new();
        } else {
            push_char(&mut word, c);
        }
        i = i + 1;
    }
    assert(s@.take(s@.len() as int) =~= s@);
    if !word.as_str().is_empty() {
        crate::seqs::push_item(&mut out, word);
    }
    out
}

/// A line without the carriage return at its end.
fn drop_cr(s: String) -> (r: String)
    ensures
        r@ == without_cr(s@),
{
    let cs: Vec<char> = chars_of(s.as_str());
    let n: usize = cs.len();
    if n > 0 && cs[n - 1] == '\r' {
        let r = string_of(cs.as_slice(), 0, n - 1);
        assert(r@ =~= s@.drop_last());
        r
    } else {
        s
    }
}

/// The lines of a text.
pub fn lines_of(s: &str) -> (r: Vec<String>)
    ensures
        r.deep_view() == lines(s@),
{
    let cs: Vec<char> = chars_of(s);
    let mut out: Vec<String> = Vec::new();
    let mut line = String::new();
    let mut i: usize = 0;
    assert(out.deep_view() =~= scan_lines(s@.take(0)).0);
    assert(line@ =~= scan_lines(s@.take(0)).1);
    while i < cs.len()
        invariant
            cs@ == s@,
            i <= cs@.len(),
            out.deep_view() == scan_lines(s@.take(i as int)).0,
            line@ == scan_lines(s@.take(i as int)).1,
        decreases cs@.len() - i,
    {
        assert(s@.take(i + 1).drop_last() =~= s@.take(i as int));
        let c: char = cs[i];
        if c == '\n' {
            crate::seqs::push_item(&mut out, drop_cr(line));
            line = String::new();
        } else {
            push_char(&mut line, c);
        }
        i = i + 1;
    }
    assert(s@.take(s@.len() as int) =~= s@);
    if !line.as_str().is_empty() {
        crate::seqs::push_item(&mut out, line);
    }
    out
}

/// Whether a text begins with another.
pub fn starts_with(s: &str, p: &str) -> (r: bool)
    ensures
        r == has_prefix(s@, p@),
{
    let cs: Vec<char> = chars_of(s);
    let ps: Vec<char> = chars_of(p);
    matches_at(cs.as_slice(), ps.as_slice(), 0)
}

/// Whether a text has another in it.
pub open spec fn holds(s: Seq<char>, p: Seq<char>) -> bool {
    find(s, p) is Some
}

/// Whether a text has another in it.
pub fn contains_text(s: &str, p: &str) -> (r: bool)
    ensures
        r == holds(s@, p@),
{
    let cs: Vec<char> = chars_of(s);
    let ps: Vec<char> = chars_of(p);
    find_chars(cs.as_slice(), ps.as_slice(), 0).is_some()
}

/// The two sides of the last occurrence of a character.
pub open spec fn split_last(s: Seq<char>, c: char) -> Option<(Seq<char>, Seq<char>)> {
    match rfind(s, seq![c]) {
        Some(i) => Some((s.take(i), s.skip(i + 1))),
        None => None,
    }
}

/// The two sides of the last occurrence of a character.
pub fn split_at_last(s: &str, c: char) -> (r: Option<(String, String)>)
    ensures
        r.deep_view() == split_last(s@, c),
{
    let cs: Vec<char> = chars_of(s);
    let n: usize = cs.len();
    let pat = [c];
    assert(pat@ =~= seq![c]);
    match rfind_chars(cs.as_slice(), &pat) {
        Some(i) => {
            proof {
                rfind_is_last(s@, seq![c], s@.len() - 1);
            }
            let a = string_of(cs.as_slice(), 0, i);
            let b = string_of(cs.as_slice(), i + 1, n);
            assert(a@ =~= s@.take(i as int));
            assert(b@ =~= s@.skip(i + 1));
            Some((a, b))
        },
        None => None,
    }
}

/// The two sides of the first occurrence of a character.
pub open spec fn split_first(s: Seq<char>, c: char) -> Option<(Seq<char>, Seq<char>)> {
    match find(s, seq![c]) {
        Some(i) => Some((s.take(i), s.skip(i + 1))),
        None => None,
    }
}

/// The two sides of the first occurrence of a character.
pub fn split_at_first(s: &str, c: char) -> (r: Option<(String, String)>)
    ensures
        r.deep_view() == split_first(s@, c),
{
    let cs: Vec<char> = chars_of(s);
    let n: usize = cs.len();
    let pat = [c];
    assert(pat@ =~= seq![c]);
    match find_chars(cs.as_slice(), &pat, 0) {
        Some(i) => {
            proof {
                find_is_first(s@, seq![c], 0);
            }
            let a = string_of(cs.as_slice(), 0, i);
            let b = string_of(cs.as_slice(), i + 1, n);
            assert(a@ =~= s@.take(i as int));
            assert(b@ =~= s@.skip(i + 1));
            Some((a, b))
        },
        None => None,
    }
}

/// Reads a `u64` from a text.
pub fn u64_from_text(s: &str) -> (r: Option<u64>)
    ensures
        r is Some == parse_unsigned(s@, u64::MAX as nat) is Some,
        r is Some ==> r->0 == parse_unsigned(s@, u64::MAX as nat)->0,
{
    let cs: Vec<char> = chars_of(s);
    parse_u64(cs.as_slice())
}

/// Reads a `u32` from a text.
pub fn u32_from_text(s: &str) -> (r: Option<u32>)
    ensures
        r is Some == parse_unsigned(s@, u32::MAX as nat) is Some,
        r is Some ==> r->0 == parse_unsigned(s@, u32::MAX as nat)->0,
{
    let cs: Vec<char> = chars_of(s);
    parse_u32(cs.as_slice())
}

/// Whether a text is digits, and at least one.
pub open spec fn is_number(s: Seq<char>) -> bool {
    s.len() > 0 && all_digits(s)
}

/// Whether a text is digits, and at least one.
pub fn is_all_digits(s: &str) -> (r: bool)
    ensures
        r == is_number(s@),
{
    let cs: Vec<char> = chars_of(s);
    let mut i: usize = 0;
    while i < cs.len()
        invariant
            cs@ == s@,
            i <= cs@.len(),
            forall|k: int| 0 <= k < i ==> is_digit(#[trigger] s@[k]),
        decreases cs@.len() - i,
    {
        if !(cs[i] >= '0' && cs[i] <= '9') {
            assert(!is_digit(s@[i as int]));
            return false;
        }
        i = i + 1;
    }
    cs.len() > 0
}

/// The pieces of a text that end at a character, and the piece under way at
/// its end.
pub open spec fn scan_pieces(s: Seq<char>, c: char) -> (Seq<Seq<char>>, Seq<char>)
    decreases s.len(),
{
    if s.len() == 0 {
        (Seq::empty(), Seq::empty())
    } else {
        let (done, piece) = scan_pieces(s.drop_last(), c);
        if s.last() == c {
            (done.push(piece), Seq::empty())
        } else {
            (done, piece.push(s.last()))
        }
    }
}

/// The pieces of a text between occurrences of a character; one more than
/// there are occurrences.
pub open spec fn pieces(s: Seq<char>, c: char) -> Seq<Seq<char>> {
    scan_pieces(s, c).0.push(scan_pieces(s, c).1)
}

/// The pieces of a text between occurrences of a character.
pub fn pieces_of(s: &str, c: char) -> (r: Vec<String>)
    ensures
        r.deep_view() == pieces(s@, c),
{
    let cs: Vec<char> = chars_of(s);
    let mut out: Vec<String> = Vec::new();
    let mut piece = String::new();
    let mut i: usize = 0;
    assert(out.deep_view() =~= scan_pieces(s@.take(0), c).0);
    assert(piece@ =~= scan_pieces(s@.take(0), c).1);
    while i < cs.len()
        invariant
            cs@ == s@,
            i <= cs@.len(),
            out.deep_view() == scan_pieces(s@.take(i as int), c).0,
            piece@ == scan_pieces(s@.take(i as int), c).1,
        decreases cs@.len() - i,
    {
        assert(s@.take(i + 1).drop_last() =~= s@.take(i as int));
        let x: char = cs[i];
        if x == c {
            crate::seqs::push_item(&mut out, piece);
            piece = String::new();
        } else {
            push_char(&mut piece, x);
        }
        i = i + 1;
    }
    assert(s@.take(s@.len() as int) =~= s@);
    crate::seqs::push_item(&mut out, piece);
    out
}

} // verus!
