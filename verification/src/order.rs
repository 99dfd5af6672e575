//! Stable sorting by an integer key, and the order of texts.

use vstd::prelude::*;
use vstd::string::*;

use crate::text::chars_of;

verus! {

/// Puts `x` behind the last element whose key is no larger, in a sequence
/// sorted by key.
pub open spec fn insert_sorted<A>(s: Seq<A>, key: spec_fn(A) -> int, x: A) -> Seq<A>
    decreases s.len(),
{
    if s.len() == 0 || key(s.last()) <= key(x) {
        s.push(x)
    } else {
        insert_sorted(s.drop_last(), key, x).push(s.last())
    }
}

/// The elements in ascending order of their key; equal keys keep their order.
pub open spec fn sort_by_key<A>(s: Seq<A>, key: spec_fn(A) -> int) -> Seq<A>
    decreases s.len(),
{
    if s.len() == 0 {
        Seq::empty()
    } else {
        insert_sorted(sort_by_key(s.drop_last(), key), key, s.last())
    }
}

/// Whether the keys never descend.
pub open spec fn ascending<A>(s: Seq<A>, key: spec_fn(A) -> int) -> bool {
    forall|i: int, j: int| 0 <= i < j < s.len() ==> key(#[trigger] s[i]) <= key(#[trigger] s[j])
}

/// At most `n` elements from the front.
pub open spec fn first_n<A>(s: Seq<A>, n: int) -> Seq<A> {
    if n < s.len() {
        s.take(n)
    } else {
        s
    }
}

/// Insertion keeps a sorted sequence sorted and adds exactly the one element.
pub proof fn insert_sorted_sorts<A>(s: Seq<A>, key: spec_fn(A) -> int, x: A)
    requires
        ascending(s, key),
    ensures
        ascending(insert_sorted(s, key, x), key),
        insert_sorted(s, key, x).len() == s.len() + 1,
        insert_sorted(s, key, x).to_multiset() == s.to_multiset().insert(x),
    decreases s.len(),
{
    broadcast use vstd::seq_lib::group_to_multiset_ensures;

    let r = insert_sorted(s, key, x);
    if s.len() == 0 || key(s.last()) <= key(x) {
        assert forall|i: int, j: int| 0 <= i < j < r.len() implies key(#[trigger] r[i]) <= key(
            #[trigger] r[j],
        ) by {
            if j == s.len() {
                if i < s.len() - 1 {
                    assert(key(s[i]) <= key(s[s.len() - 1]));
                }
            } else {
                assert(key(s[i]) <= key(s[j]));
            }
        }
    } else {
        let t = s.drop_last();
        assert(ascending(t, key)) by {
            assert forall|i: int, j: int| 0 <= i < j < t.len() implies key(#[trigger] t[i]) <= key(
                #[trigger] t[j],
            ) by {
                assert(key(s[i]) <= key(s[j]));
            }
        }
        insert_sorted_sorts(t, key, x);
        let u = insert_sorted(t, key, x);
        assert(s =~= t.push(s.last()));
        assert(r =~= u.push(s.last()));
        assert forall|i: int| 0 <= i < u.len() implies key(#[trigger] u[i]) <= key(s.last()) by {
            assert(u.to_multiset().contains(u[i]));
            if u[i] != x {
                assert(t.to_multiset().contains(u[i]));
                assert(t.contains(u[i]));
                let k = choose|k: int| 0 <= k < t.len() && t[k] == u[i];
                assert(key(s[k]) <= key(s[s.len() - 1]));
            }
        }
        assert forall|i: int, j: int| 0 <= i < j < r.len() implies key(#[trigger] r[i]) <= key(
            #[trigger] r[j],
        ) by {
            if j < u.len() {
                assert(key(u[i]) <= key(u[j]));
            } else {
                assert(r[i] == u[i]);
            }
        }
        assert(r.to_multiset() =~= s.to_multiset().insert(x));
    }
}

/// Sorting gives the same elements in ascending order of their key.
pub proof fn sort_by_key_sorts<A>(s: Seq<A>, key: spec_fn(A) -> int)
    ensures
        ascending(sort_by_key(s, key), key),
        sort_by_key(s, key).len() == s.len(),
        sort_by_key(s, key).to_multiset() == s.to_multiset(),
    decreases s.len(),
{
    broadcast use vstd::seq_lib::group_to_multiset_ensures;

    if s.len() > 0 {
        sort_by_key_sorts(s.drop_last(), key);
        insert_sorted_sorts(sort_by_key(s.drop_last(), key), key, s.last());
        assert(s =~= s.drop_last().push(s.last()));
    } else {
        assert(s =~= Seq::empty());
    }
}

/// Where everything from `pos` on has a larger key and what stands before it
/// does not, insertion happens at `pos`.
proof fn insert_sorted_at<A>(s: Seq<A>, key: spec_fn(A) -> int, x: A, pos: int)
    requires
        0 <= pos <= s.len(),
        pos > 0 ==> key(s[pos - 1]) <= key(x),
        forall|i: int| pos <= i < s.len() ==> key(#[trigger] s[i]) > key(x),
    ensures
        insert_sorted(s, key, x) == s.insert(pos, x),
    decreases s.len(),
{
    if pos == s.len() {
        assert(s.insert(pos, x) =~= s.push(x));
    } else {
        assert(key(s[s.len() - 1]) > key(x));
        let t = s.drop_last();
        assert forall|i: int| pos <= i < t.len() implies key(#[trigger] t[i]) > key(x) by {
            assert(t[i] == s[i]);
        }
        insert_sorted_at(t, key, x, pos);
        assert(s.insert(pos, x) =~= t.insert(pos, x).push(s.last()));
    }
}

/// Whether the keys are those of the rows.
pub open spec fn keyed<A>(rows: Seq<A>, key: spec_fn(A) -> int, keys: Seq<i128>) -> bool {
    &&& keys.len() == rows.len()
    &&& forall|i: int| 0 <= i < rows.len() ==> keys[i] == key(#[trigger] rows[i])
}

/// Inserts a row into rows sorted by key. `keys` holds the rows' keys.
pub(crate) fn insert_row<T: DeepView>(
    rows: &mut Vec<T>,
    keys: &mut Vec<i128>,
    row: T,
    k: i128,
    Ghost(key): Ghost<spec_fn(T::V) -> int>,
)
    requires
        keyed(old(rows).deep_view(), key, old(keys)@),
        k == key(row.deep_view()),
    ensures
        keyed(final(rows).deep_view(), key, final(keys)@),
        final(rows).deep_view() == insert_sorted(old(rows).deep_view(), key, row.deep_view()),
{
    let ghost before = rows.deep_view();
    let mut pos: usize = keys.len();
    while pos > 0 && keys[pos - 1] > k
        invariant
            0 <= pos <= keys@.len(),
            keyed(before, key, keys@),
            forall|i: int| pos <= i < before.len() ==> key(#[trigger] before[i]) > k,
        decreases pos,
    {
        pos = pos - 1;
        assert(key(before[pos as int]) == keys@[pos as int]);
    }
    proof {
        if pos > 0 {
            assert(key(before[pos - 1]) == keys@[pos - 1]);
        }
        insert_sorted_at(before, key, row.deep_view(), pos as int);
    }
    let ghost x = row.deep_view();
    rows.insert(pos, row);
    keys.insert(pos, k);
    assert(rows.deep_view() =~= before.insert(pos as int, x));
}

/// Whether text `a` comes before text `b`, character by character.
pub open spec fn text_lt(a: Seq<char>, b: Seq<char>) -> bool
    decreases a.len(),
{
    if b.len() == 0 {
        false
    } else if a.len() == 0 {
        true
    } else if a[0] != b[0] {
        a[0] < b[0]
    } else {
        text_lt(a.skip(1), b.skip(1))
    }
}

/// Whether `a` comes before `b`, character by character.
pub fn text_before(a: &str, b: &str) -> (r: bool)
    ensures
        r == text_lt(a@, b@),
{
    let x: Vec<char> = chars_of(a);
    let y: Vec<char> = chars_of(b);
    let mut i: usize = 0;
    assert(a@.skip(0) =~= a@);
    assert(b@.skip(0) =~= b@);
    while i < x.len() && i < y.len()
        invariant
            x@ == a@,
            y@ == b@,
            i <= x@.len(),
            i <= y@.len(),
            text_lt(a@, b@) == text_lt(a@.skip(i as int), b@.skip(i as int)),
        decreases x@.len() - i,
    {
        let ghost sa = a@.skip(i as int);
        let ghost sb = b@.skip(i as int);
        assert(sa[0] == x@[i as int] && sb[0] == y@[i as int]);
        if x[i] != y[i] {
            return x[i] < y[i];
        }
        assert(sa.skip(1) =~= a@.skip(i + 1));
        assert(sb.skip(1) =~= b@.skip(i + 1));
        i = i + 1;
    }
    i == x.len() && i < y.len()
}

/// No text comes before itself.
pub proof fn text_lt_irreflexive(a: Seq<char>)
    ensures
        !text_lt(a, a),
    decreases a.len(),
{
    if a.len() > 0 {
        text_lt_irreflexive(a.skip(1));
    }
}

/// Of two different texts exactly one comes first.
pub proof fn text_lt_total(a: Seq<char>, b: Seq<char>)
    ensures
        a != b ==> (text_lt(a, b) != text_lt(b, a)),
    decreases a.len(),
{
    if a.len() == 0 || b.len() == 0 {
        if a.len() == b.len() {
            assert(a =~= b);
        }
    } else if a[0] == b[0] {
        text_lt_total(a.skip(1), b.skip(1));
        if a.skip(1) == b.skip(1) {
            assert(a =~= seq![a[0]] + a.skip(1));
            assert(b =~= seq![b[0]] + b.skip(1));
        }
    }
}

} // verus!
