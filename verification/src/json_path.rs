//! Paths into JSON values: keys after dots, and places in lists in square
//! brackets, counted from the start or, after `#-`, from the end.

use vstd::prelude::*;
use vstd::string::*;
use vstd::utf8::encode_utf8;

use crate::json::{json_view, Json, JsonView};
use crate::json_key::{codes_of, key_codes, read_codes};
use crate::seqs::{first_where, first_where_from, first_where_is_first};
use crate::tally::wrapped32;
use crate::text::{chars_of, decimal_value, is_digit, string_of};

verus! {

/// Whether a character is a given one.
pub open spec fn is_char(c: char) -> spec_fn(char) -> bool {
    |x: char| x == c
}

/// Whether a character ends a key.
pub open spec fn ends_key() -> spec_fn(char) -> bool {
    |x: char| x == '.' || x == '['
}

/// Whether a character ends a number.
pub open spec fn ends_number() -> spec_fn(char) -> bool {
    |x: char| !is_digit(x)
}

/// Where the characters before the first that satisfies a predicate end.
pub open spec fn end_of(s: Seq<char>, p: spec_fn(char) -> bool) -> int {
    match first_where(s, p) {
        Some(i) => i,
        None => s.len() as int,
    }
}

/// A text up to its first NUL.
pub open spec fn up_to_nul(s: Seq<char>) -> Seq<char> {
    s.take(end_of(s, is_char('\0')))
}

/// What a key in quotes stands for.
pub open spec fn quoted_key(s: Seq<char>) -> Seq<u32> {
    if s.contains('\\') {
        key_codes(encode_utf8(s))
    } else {
        codes_of(s)
    }
}

/// The key at the front of a path, behind its dot, as codes, and what follows
/// it. A key in quotes may hold dots, brackets and escapes. None where there is
/// no key.
pub open spec fn first_key(s: Seq<char>) -> Option<(Seq<u32>, Seq<char>)> {
    if s.len() > 0 && s[0] == '"' {
        let t = s.skip(1);
        match first_where(t, is_char('"')) {
            Some(i) => Some((quoted_key(t.take(i)), t.skip(i + 1))),
            None => None,
        }
    } else {
        let i = end_of(s, ends_key());
        if i == 0 {
            None
        } else {
            Some((codes_of(s.take(i)), s.skip(i)))
        }
    }
}

/// The number at the front of a text, as 32 bits hold it.
pub open spec fn first_number(s: Seq<char>) -> u32 {
    wrapped32(decimal_value(s.take(end_of(s, ends_number()))) as int)
}

/// The place in a list of `n` values at the front of a path, behind its
/// bracket, and what follows it. None inside where the place lies before the
/// list, and none at all where there is no place.
pub open spec fn first_place(s: Seq<char>, n: int) -> Option<Option<(int, Seq<char>)>> {
    let d = end_of(s, ends_number());
    if 0 < d < s.len() && s[d] == ']' {
        Some(Some((first_number(s) as int, s.skip(d + 1))))
    } else if s.len() > 2 && s[0] == '#' && s[1] == '-' && is_digit(s[2]) {
        let t = s.skip(2);
        let e = end_of(t, ends_number());
        if first_number(t) > n {
            Some(None)
        } else if e < t.len() && t[e] == ']' {
            Some(Some((n - first_number(t), t.skip(e + 1))))
        } else {
            None
        }
    } else if s.len() > 1 && s[0] == '#' && s[1] == ']' {
        Some(Some((n, s.skip(2))))
    } else {
        None
    }
}

/// Whether a field stands under a key. A field's name counts up to its first
/// NUL.
pub open spec fn has_label(key: Seq<u32>) -> spec_fn((Seq<char>, JsonView)) -> bool {
    |f: (Seq<char>, JsonView)| codes_of(up_to_nul(f.0)) == key
}

/// The value at the end of a path: none inside where there is none, and none at
/// all where the path, as far as it was followed, is no path.
pub open spec fn lookup(j: JsonView, path: Seq<char>) -> Option<Option<JsonView>>
    decreases path.len(),
{
    if path.len() == 0 {
        Some(Some(j))
    } else if path[0] == '.' {
        match (first_key(path.skip(1)), j) {
            (None, _) => None,
            (Some((key, rest)), JsonView::Object(f)) if rest.len() < path.len() => match first_where(
                f,
                has_label(key),
            ) {
                Some(i) => lookup(f[i].1, rest),
                None => Some(None),
            },
            _ => Some(None),
        }
    } else if path[0] == '[' {
        match j {
            JsonView::Array(v) => match first_place(path.skip(1), v.len() as int) {
                None => None,
                Some(Some((k, rest))) if 0 <= k < v.len() && rest.len() < path.len() => lookup(
                    v[k],
                    rest,
                ),
                _ => Some(None),
            },
            _ => Some(None),
        }
    } else {
        None
    }
}

/// Where the characters from a position on, before the first that satisfies a
/// predicate, end.
fn find_end<F: Fn(char) -> bool>(
    cs: &Vec<char>,
    from: usize,
    f: F,
    Ghost(p): Ghost<spec_fn(char) -> bool>,
) -> (r: usize)
    requires
        from <= cs@.len(),
        forall|c: char| f.requires((c,)),
        forall|c: char, b: bool| f.ensures((c,), b) ==> b == p(c),
    ensures
        from <= r <= cs@.len(),
        r - from == end_of(cs@.skip(from as int), p),
        r < cs@.len() ==> p(cs@[r as int]),
        r < cs@.len() <==> first_where(cs@.skip(from as int), p) is Some,
        forall|k: int| from <= k < r ==> !p(#[trigger] cs@[k]),
{
    let ghost s = cs@.skip(from as int);
    let mut i: usize = from;
    while i < cs.len() && !f(cs[i])
        invariant
            from <= i <= cs@.len(),
            s == cs@.skip(from as int),
            forall|c: char| f.requires((c,)),
            forall|c: char, b: bool| f.ensures((c,), b) ==> b == p(c),
            forall|k: int| from <= k < i ==> !p(#[trigger] cs@[k]),
        decreases cs@.len() - i,
    {
        i = i + 1;
    }
    proof {
        first_where_is_first(s, p);
        match first_where(s, p) {
            Some(k) => {
                assert(s[k] == cs@[from + k]);
                if i < cs@.len() && i - from < k {
                    assert(s[i - from] == cs@[i as int]);
                }
            },
            None => {
                if i < cs@.len() {
                    assert(s[i - from] == cs@[i as int]);
                }
            },
        }
    }
    i
}

fn char_is_quote(c: char) -> (r: bool)
    ensures
        r == is_char('"')(c),
{
    c == '"'
}

fn char_is_nul(c: char) -> (r: bool)
    ensures
        r == is_char('\0')(c),
{
    c == '\0'
}

fn char_ends_key(c: char) -> (r: bool)
    ensures
        r == ends_key()(c),
{
    c == '.' || c == '['
}

fn char_ends_number(c: char) -> (r: bool)
    ensures
        r == ends_number()(c),
{
    !('0' <= c && c <= '9')
}

/// A text's characters as codes.
fn text_codes(s: &str) -> (r: Vec<u32>)
    ensures
        r@ == codes_of(s@),
{
    let cs: Vec<char> = chars_of(s);
    let mut out: Vec<u32> = Vec::new();
    let mut i: usize = 0;
    while i < cs.len()
        invariant
            i <= cs@.len(),
            out@.len() == i,
            forall|k: int| 0 <= k < i ==> #[trigger] out@[k] == cs@[k] as u32,
        decreases cs@.len() - i,
    {
        out.push(cs[i] as u32);
        i = i + 1;
    }
    assert(out@ =~= codes_of(s@));
    out
}

/// What a key in quotes stands for.
fn quoted_codes(s: &str) -> (r: Vec<u32>)
    ensures
        r@ == quoted_key(s@),
{
    let cs: Vec<char> = chars_of(s);
    let mut i: usize = 0;
    while i < cs.len()
        invariant
            i <= cs@.len(),
            cs@ == s@,
            forall|k: int| 0 <= k < i ==> #[trigger] cs@[k] != '\\',
        decreases cs@.len() - i,
    {
        if cs[i] == '\\' {
            assert(s@.contains(cs@[i as int]));
            return read_codes(s.as_bytes());
        }
        i = i + 1;
    }
    text_codes(s)
}

/// The key at the front of a path, and where what follows it begins.
fn read_key(cs: &Vec<char>, from: usize) -> (r: Option<(Vec<u32>, usize)>)
    requires
        from <= cs@.len(),
    ensures
        match (r, first_key(cs@.skip(from as int))) {
            (Some((k, end)), Some((key, rest))) => from <= end <= cs@.len() && k@ == key
                && cs@.skip(end as int) == rest,
            (None, None) => true,
            _ => false,
        },
{
    let ghost s = cs@.skip(from as int);
    if from < cs.len() && cs[from] == '"' {
        let start: usize = from + 1;
        let ghost t = cs@.skip(start as int);
        assert(s.skip(1) =~= t);
        assert(s[0] == cs@[from as int]);
        let end: usize = find_end(cs, start, char_is_quote, Ghost(is_char('"')));
        if end == cs.len() {
            return None;
        }
        let ghost i = end - start;
        assert(t.take(i) =~= cs@.subrange(start as int, end as int));
        let key: Vec<u32> = quoted_codes(string_of(cs.as_slice(), start, end).as_str());
        assert(t.skip(i + 1) =~= cs@.skip(end + 1));
        Some((key, end + 1))
    } else {
        assert(s.len() > 0 ==> s[0] == cs@[from as int]);
        let end: usize = find_end(cs, from, char_ends_key, Ghost(ends_key()));
        if end == from {
            return None;
        }
        let key: Vec<u32> = text_codes(string_of(cs.as_slice(), from, end).as_str());
        assert(cs@.subrange(from as int, end as int) =~= s.take(end - from));
        assert(s.skip(end - from) =~= cs@.skip(end as int));
        Some((key, end))
    }
}

/// One more digit of a number that 32 bits hold.
proof fn number_step(s: Seq<char>, i: int)
    requires
        0 <= i < s.len(),
        is_digit(s[i]),
    ensures
        wrapped32(decimal_value(s.take(i + 1)) as int) == (wrapped32(
            decimal_value(s.take(i)) as int,
        ) * 10 + (s[i] as int - 48)) % 0x1_0000_0000,
{
    let v = decimal_value(s.take(i)) as int;
    let d = s[i] as int - 48;
    assert(s.take(i + 1).drop_last() =~= s.take(i));
    assert(((v % 0x1_0000_0000) * 10 + d) % 0x1_0000_0000 == (v * 10 + d) % 0x1_0000_0000)
        by (nonlinear_arith);
}

/// The number between two positions, as 32 bits hold it.
fn read_number(cs: &Vec<char>, from: usize, to: usize) -> (r: u32)
    requires
        from <= to <= cs@.len(),
        forall|k: int| from <= k < to ==> is_digit(#[trigger] cs@[k]),
    ensures
        r == wrapped32(decimal_value(cs@.subrange(from as int, to as int)) as int),
{
    let ghost s = cs@.subrange(from as int, to as int);
    let mut n: u64 = 0;
    let mut i: usize = from;
    while i < to
        invariant
            from <= i <= to <= cs@.len(),
            s == cs@.subrange(from as int, to as int),
            forall|k: int| from <= k < to ==> is_digit(#[trigger] cs@[k]),
            n < 0x1_0000_0000,
            n == wrapped32(decimal_value(s.take(i - from)) as int),
        decreases to - i,
    {
        let c: char = cs[i];
        assert(s[i - from] == c);
        assert(is_digit(cs@[i as int]));
        proof {
            number_step(s, i - from);
        }
        n = (n * 10 + (c as u64 - 48)) % 0x1_0000_0000;
        i = i + 1;
    }
    assert(s.take(to - from) =~= s);
    n as u32
}

/// The place at the front of a path, and where what follows it begins.
fn read_place(cs: &Vec<char>, from: usize, n: usize) -> (r: Option<Option<(usize, usize)>>)
    requires
        from <= cs@.len(),
    ensures
        match (r, first_place(cs@.skip(from as int), n as int)) {
            (Some(Some((k, end))), Some(Some((place, rest)))) => from < end <= cs@.len() && k
                == place && cs@.skip(end as int) == rest,
            (Some(None), Some(None)) => true,
            (None, None) => true,
            _ => false,
        },
{
    let ghost s = cs@.skip(from as int);
    assert forall|k: int| 0 <= k < s.len() implies #[trigger] s[k] == cs@[from + k] by {}
    let end: usize = find_end(cs, from, char_ends_number, Ghost(ends_number()));
    if end > from && end < cs.len() && cs[end] == ']' {
        let k: u32 = read_number(cs, from, end);
        assert(cs@.subrange(from as int, end as int) =~= s.take(end - from));
        assert(s.skip(end - from + 1) =~= cs@.skip(end + 1));
        return Some(Some((k as usize, end + 1)));
    }
    if cs.len() - from > 2 && cs[from] == '#' && cs[from + 1] == '-' && !char_ends_number(
        cs[from + 2],
    ) {
        let start: usize = from + 2;
        let ghost t = cs@.skip(start as int);
        assert(s.skip(2) =~= t);
        let stop: usize = find_end(cs, start, char_ends_number, Ghost(ends_number()));
        let back: u32 = read_number(cs, start, stop);
        assert(cs@.subrange(start as int, stop as int) =~= t.take(stop - start));
        assert(back == first_number(t));
        assert(stop < cs@.len() ==> t[stop - start] == cs@[stop as int]);
        if back as usize > n {
            return Some(None);
        }
        if stop < cs.len() && cs[stop] == ']' {
            assert(t.skip(stop - start + 1) =~= cs@.skip(stop + 1));
            return Some(Some((n - back as usize, stop + 1)));
        }
        return None;
    }
    if cs.len() - from > 1 && cs[from] == '#' && cs[from + 1] == ']' {
        assert(s.skip(2) =~= cs@.skip(from + 2));
        return Some(Some((n, from + 2)));
    }
    None
}

/// Whether a field's name is a key.
fn is_label(name: &str, key: &Vec<u32>) -> (r: bool)
    ensures
        r == (codes_of(up_to_nul(name@)) == key@),
{
    let codes: Vec<u32> = text_codes(cut_at_nul(name).as_str());
    if codes.len() != key.len() {
        return false;
    }
    let mut i: usize = 0;
    while i < codes.len()
        invariant
            i <= codes@.len(),
            codes@.len() == key@.len(),
            codes@ == codes_of(up_to_nul(name@)),
            forall|k: int| 0 <= k < i ==> #[trigger] codes@[k] == key@[k],
        decreases codes@.len() - i,
    {
        if codes[i] != key[i] {
            return false;
        }
        i = i + 1;
    }
    assert(codes@ =~= key@);
    true
}

/// A text up to its first NUL.
pub(crate) fn cut_at_nul(s: &str) -> (r: String)
    ensures
        r@ == up_to_nul(s@),
{
    let cs: Vec<char> = chars_of(s);
    let end: usize = find_end(&cs, 0, char_is_nul, Ghost(is_char('\0')));
    assert(cs@.skip(0) =~= s@);
    let r: String = string_of(cs.as_slice(), 0, end);
    assert(r@ =~= up_to_nul(s@));
    r
}

fn find_label(f: &Vec<(String, Json)>, key: &Vec<u32>) -> (r: Option<usize>)
    ensures
        match r {
            Some(i) => i < f@.len() && first_where(f.deep_view(), has_label(key@)) == Some(i as int),
            None => first_where(f.deep_view(), has_label(key@)) is None,
        },
{
    let ghost all = f.deep_view();
    let ghost p = has_label(key@);
    let mut i: usize = 0;
    while i < f.len()
        invariant
            all == f.deep_view(),
            p == has_label(key@),
            i <= f@.len(),
            first_where(all, p) == first_where_from(all, p, i as int),
        decreases f@.len() - i,
    {
        assert(all[i as int] == (f@[i as int].0@, f@[i as int].1@));
        if is_label(f[i].0.as_str(), key) {
            return Some(i);
        }
        i = i + 1;
    }
    None
}

/// The value at the end of the path from a position on.
pub(crate) fn lookup_from<'a>(j: &'a Json, cs: &Vec<char>, from: usize) -> (r: Option<
    Option<&'a Json>,
>)
    requires
        from <= cs@.len(),
    ensures
        match r {
            Some(Some(v)) => lookup(j@, cs@.skip(from as int)) == Some(Some(v@)),
            Some(None) => lookup(j@, cs@.skip(from as int)) == Some(None::<JsonView>),
            None => lookup(j@, cs@.skip(from as int)) is None,
        },
    decreases cs@.len() - from,
{
    let ghost path = cs@.skip(from as int);
    if from == cs.len() {
        return Some(Some(j));
    }
    assert(path[0] == cs@[from as int]);
    assert(path.skip(1) =~= cs@.skip(from + 1));
    if cs[from] == '.' {
        match read_key(cs, from + 1) {
            None => None,
            Some((key, end)) => match j {
                Json::Object(f) => {
                    assert(j@->Object_0 =~= f.deep_view());
                    match find_label(f, &key) {
                        Some(i) => {
                            assert(j@->Object_0[i as int].1 == json_view(f@[i as int].1));
                            lookup_from(&f[i].1, cs, end)
                        },
                        None => Some(None),
                    }
                },
                _ => Some(None),
            },
        }
    } else if cs[from] == '[' {
        match j {
            Json::Array(v) => {
                assert(j@->Array_0 =~= v.deep_view());
                match read_place(cs, from + 1, v.len()) {
                    None => None,
                    Some(None) => Some(None),
                    Some(Some((k, end))) => {
                        if k < v.len() {
                            assert(j@->Array_0[k as int] == json_view(v@[k as int]));
                            lookup_from(&v[k], cs, end)
                        } else {
                            Some(None)
                        }
                    },
                }
            },
            _ => Some(None),
        }
    } else {
        None
    }
}

/// A key of letters, digits and underscores is looked up in an object, and is
/// always a path.
pub proof fn plain_key_is_a_path(j: JsonView, key: Seq<char>)
    requires
        key.len() > 0,
        forall|i: int|
            0 <= i < key.len() ==> (#[trigger] key[i]) != '.' && key[i] != '[' && key[i] != '"',
    ensures
        lookup(j, seq!['.'] + key) == Some(
            match j {
                JsonView::Object(f) => match first_where(f, has_label(codes_of(key))) {
                    Some(i) => Some(f[i].1),
                    None => None,
                },
                _ => None,
            },
        ),
{
    reveal_with_fuel(lookup, 2);
    let path = seq!['.'] + key;
    assert(path.skip(1) =~= key);
    first_where_is_first(key, ends_key());
    match first_where(key, ends_key()) {
        Some(i) => {
            assert(key[i] == '.' || key[i] == '[');
        },
        None => {},
    }
    assert(key.take(key.len() as int) =~= key);
    assert(key.skip(key.len() as int) =~= Seq::<char>::empty());
    assert(first_key(key) == Some((codes_of(key), Seq::<char>::empty())));
}

} // verus!
