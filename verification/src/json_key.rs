//! Keys of JSON paths that hold escapes. A key is compared code by code with a
//! field's name, up to the first code that is zero.

use vstd::prelude::*;

verus! {

/// The code of an escape that cannot be read.
pub const UNREADABLE: u32 = 0x99999;

/// A text's characters as codes.
pub open spec fn codes_of(s: Seq<char>) -> Seq<u32> {
    s.map_values(|c: char| c as u32)
}

/// The value of a hexadecimal digit. Any other byte has one too.
pub open spec fn hex_value(b: u8) -> int {
    if (b / 64) % 2 == 1 {
        (b + 9) % 16
    } else {
        b as int % 16
    }
}

/// The value of four hexadecimal digits from a position on.
pub open spec fn hex4(b: Seq<u8>, i: int) -> int {
    hex_value(b[i]) * 4096 + hex_value(b[i + 1]) * 256 + hex_value(b[i + 2]) * 16 + hex_value(
        b[i + 3],
    )
}

/// Whether a byte continues a character.
pub open spec fn continues(b: Seq<u8>, i: int) -> bool {
    i < b.len() && b[i] / 64 == 2
}

/// How many bytes the character at the front takes.
pub open spec fn char_len(b: Seq<u8>) -> int {
    if b[0] < 0xc0 || !continues(b, 1) {
        1
    } else if !continues(b, 2) {
        2
    } else if !continues(b, 3) {
        3
    } else {
        4
    }
}

/// The bits that the first byte of a character of several bytes holds.
pub open spec fn lead_bits(b: u8) -> int {
    if b < 0xe0 {
        b as int % 32
    } else if b < 0xf0 {
        b as int % 16
    } else {
        b as int % 8
    }
}

/// The code that the first bytes of a character add up to.
pub open spec fn char_bits(b: Seq<u8>, n: int) -> int
    decreases n,
{
    if n <= 1 {
        if b[0] < 0xc0 {
            b[0] as int
        } else {
            lead_bits(b[0])
        }
    } else {
        char_bits(b, n - 1) * 64 + b[n - 1] % 64
    }
}

/// The code of the character at the front.
pub open spec fn char_code(b: Seq<u8>) -> int {
    char_bits(b, char_len(b))
}

/// How many bytes at the front are escaped line breaks.
pub open spec fn breaks_len(b: Seq<u8>) -> int
    decreases b.len(),
{
    if b.len() < 2 || b[0] != 0x5c {
        0
    } else if b[1] == 0x0d && b.len() > 2 && b[2] == 0x0a {
        3 + breaks_len(b.skip(3))
    } else if b[1] == 0x0a || b[1] == 0x0d {
        2 + breaks_len(b.skip(2))
    } else if b[1] == 0xe2 && b.len() > 3 && b[2] == 0x80 && (b[3] == 0xa8 || b[3] == 0xa9) {
        4 + breaks_len(b.skip(4))
    } else {
        0
    }
}

/// The code of an escape of one letter.
pub open spec fn letter_code(c: u8) -> int {
    if c == 0x62 {
        8
    } else if c == 0x66 {
        12
    } else if c == 0x6e {
        10
    } else if c == 0x72 {
        13
    } else if c == 0x74 {
        9
    } else if c == 0x76 {
        11
    } else if c == 0x30 {
        0
    } else if c == 0x22 || c == 0x27 || c == 0x2f || c == 0x5c {
        c as int
    } else {
        UNREADABLE as int
    }
}

/// Whether two escapes of four digits stand for one character.
pub open spec fn is_pair(b: Seq<u8>) -> bool {
    b.len() >= 12 && hex4(b, 2) / 1024 == 54 && b[6] == 0x5c && b[7] == 0x75 && hex4(b, 8) / 1024
        == 55
}

/// The code of the escape at the front, and how many bytes it takes.
pub open spec fn escape(b: Seq<u8>) -> (int, int)
    decreases b.len(),
{
    let n = b.len() as int;
    if n < 2 {
        (UNREADABLE as int, n)
    } else if b[1] == 0x75 {
        if n < 6 {
            (UNREADABLE as int, n)
        } else if is_pair(b) {
            ((hex4(b, 2) % 1024) * 1024 + hex4(b, 8) % 1024 + 0x10000, 12)
        } else {
            (hex4(b, 2), 6)
        }
    } else if b[1] == 0x78 {
        if n < 4 {
            (UNREADABLE as int, n)
        } else {
            (hex_value(b[2]) * 16 + hex_value(b[3]), 4)
        }
    } else if b[1] == 0x0a || b[1] == 0x0d || b[1] == 0xe2 {
        let k = breaks_len(b);
        if k <= 0 {
            (UNREADABLE as int, n)
        } else if k >= n {
            (0, n)
        } else if b[k] == 0x5c {
            let (c, m) = escape(b.skip(k));
            (c, k + m)
        } else {
            (char_code(b.skip(k)), k + char_len(b.skip(k)))
        }
    } else {
        (letter_code(b[1]), 2)
    }
}

/// The code at the front, and how many bytes it takes.
pub open spec fn first_code(b: Seq<u8>) -> (int, int) {
    if b[0] == 0x5c {
        escape(b)
    } else {
        (char_code(b), char_len(b))
    }
}

/// The codes of a key that holds escapes, up to the first that is zero.
pub open spec fn key_codes(b: Seq<u8>) -> Seq<u32>
    decreases b.len(),
{
    if b.len() == 0 {
        Seq::empty()
    } else {
        let (c, n) = first_code(b);
        if c == 0 || !(0 < n <= b.len()) {
            Seq::empty()
        } else {
            seq![c as u32] + key_codes(b.skip(n))
        }
    }
}

fn hex(b: u8) -> (r: u32)
    ensures
        r == hex_value(b),
        r < 16,
{
    if (b / 64) % 2 == 1 {
        ((b as u32) + 9) % 16
    } else {
        (b as u32) % 16
    }
}

fn read_hex4(b: &[u8], i: usize) -> (r: u32)
    requires
        i + 4 <= b@.len(),
    ensures
        r == hex4(b@, i as int),
        r < 0x10000,
{
    hex(b[i]) * 4096 + hex(b[i + 1]) * 256 + hex(b[i + 2]) * 16 + hex(b[i + 3])
}

fn lead(b: u8) -> (r: u32)
    ensures
        r == lead_bits(b),
        r < 32,
{
    if b < 0xe0 {
        (b as u32) % 32
    } else if b < 0xf0 {
        (b as u32) % 16
    } else {
        (b as u32) % 8
    }
}

/// The character at a position, and where what follows it begins.
fn read_char(b: &[u8], from: usize) -> (r: (u32, usize))
    requires
        from < b@.len(),
    ensures
        r.0 == char_code(b@.skip(from as int)),
        r.1 - from == char_len(b@.skip(from as int)),
        from < r.1 <= b@.len(),
{
    let ghost s = b@.skip(from as int);
    assert forall|k: int| 0 <= k < s.len() implies #[trigger] s[k] == b@[from + k] by {}
    reveal_with_fuel(char_bits, 5);
    if b[from] < 0xc0 {
        return (b[from] as u32, from + 1);
    }
    let mut code: u32 = lead(b[from]);
    let left: usize = b.len() - from;
    if left < 2 || b[from + 1] / 64 != 2 {
        return (code, from + 1);
    }
    code = code * 64 + (b[from + 1] % 64) as u32;
    if left < 3 || b[from + 2] / 64 != 2 {
        return (code, from + 2);
    }
    code = code * 64 + (b[from + 2] % 64) as u32;
    if left < 4 || b[from + 3] / 64 != 2 {
        return (code, from + 3);
    }
    code = code * 64 + (b[from + 3] % 64) as u32;
    (code, from + 4)
}

/// Where the escaped line breaks at a position end.
fn skip_breaks(b: &[u8], from: usize) -> (r: usize)
    requires
        from <= b@.len(),
    ensures
        r - from == breaks_len(b@.skip(from as int)),
        from <= r <= b@.len(),
    decreases b@.len() - from,
{
    let ghost s = b@.skip(from as int);
    assert forall|k: int| 0 <= k < s.len() implies #[trigger] s[k] == b@[from + k] by {}
    let left: usize = b.len() - from;
    if left < 2 || b[from] != 0x5c {
        from
    } else if b[from + 1] == 0x0d && left > 2 && b[from + 2] == 0x0a {
        assert(s.skip(3) =~= b@.skip(from + 3));
        skip_breaks(b, from + 3)
    } else if b[from + 1] == 0x0a || b[from + 1] == 0x0d {
        assert(s.skip(2) =~= b@.skip(from + 2));
        skip_breaks(b, from + 2)
    } else if b[from + 1] == 0xe2 && left > 3 && b[from + 2] == 0x80 && (b[from + 3] == 0xa8
        || b[from + 3] == 0xa9) {
        assert(s.skip(4) =~= b@.skip(from + 4));
        skip_breaks(b, from + 4)
    } else {
        from
    }
}

fn letter(c: u8) -> (r: u32)
    ensures
        r == letter_code(c),
{
    match c {
        0x62 => 8,
        0x66 => 12,
        0x6e => 10,
        0x72 => 13,
        0x74 => 9,
        0x76 => 11,
        0x30 => 0,
        0x22 | 0x27 | 0x2f | 0x5c => c as u32,
        _ => UNREADABLE,
    }
}

/// The escape at a position, and where what follows it begins.
fn read_escape(b: &[u8], from: usize) -> (r: (u32, usize))
    requires
        from < b@.len(),
    ensures
        (r.0 as int, r.1 - from) == escape(b@.skip(from as int)),
        from < r.1 <= b@.len(),
    decreases b@.len() - from,
{
    let ghost s = b@.skip(from as int);
    assert forall|k: int| 0 <= k < s.len() implies #[trigger] s[k] == b@[from + k] by {}
    let left: usize = b.len() - from;
    if left < 2 {
        return (UNREADABLE, b.len());
    }
    let c: u8 = b[from + 1];
    if c == 0x75 {
        if left < 6 {
            return (UNREADABLE, b.len());
        }
        let high: u32 = read_hex4(b, from + 2);
        assert(high == hex4(s, 2));
        if left >= 12 && high / 1024 == 54 && b[from + 6] == 0x5c && b[from + 7] == 0x75 {
            let low: u32 = read_hex4(b, from + 8);
            assert(low == hex4(s, 8));
            if low / 1024 == 55 {
                return ((high % 1024) * 1024 + low % 1024 + 0x10000, from + 12);
            }
        }
        (high, from + 6)
    } else if c == 0x78 {
        if left < 4 {
            return (UNREADABLE, b.len());
        }
        (hex(b[from + 2]) * 16 + hex(b[from + 3]), from + 4)
    } else if c == 0x0a || c == 0x0d || c == 0xe2 {
        let end: usize = skip_breaks(b, from);
        assert(s.skip(end - from) =~= b@.skip(end as int));
        if end == from {
            (UNREADABLE, b.len())
        } else if end == b.len() {
            (0, end)
        } else if b[end] == 0x5c {
            read_escape(b, end)
        } else {
            read_char(b, end)
        }
    } else {
        (letter(c), from + 2)
    }
}

/// The codes of a key that holds escapes.
pub(crate) fn read_codes(b: &[u8]) -> (r: Vec<u32>)
    ensures
        r@ == key_codes(b@),
{
    let mut out: Vec<u32> = Vec::new();
    let mut i: usize = 0;
    assert(b@.skip(0) =~= b@);
    assert(out@ + key_codes(b@) =~= key_codes(b@));
    while i < b.len()
        invariant
            i <= b@.len(),
            out@ + key_codes(b@.skip(i as int)) == key_codes(b@),
        decreases b@.len() - i,
    {
        let ghost s = b@.skip(i as int);
        assert(s[0] == b@[i as int]);
        let (c, end): (u32, usize) = if b[i] == 0x5c {
            read_escape(b, i)
        } else {
            read_char(b, i)
        };
        if c == 0 {
            assert(out@ + key_codes(s) =~= out@);
            return out;
        }
        assert(s.skip(end - i) =~= b@.skip(end as int));
        assert((out@ + seq![c]) + key_codes(b@.skip(end as int)) =~= out@ + (seq![c] + key_codes(
            b@.skip(end as int),
        )));
        out.push(c);
        i = end;
    }
    assert(out@ + key_codes(b@.skip(i as int)) =~= out@);
    out
}

} // verus!
