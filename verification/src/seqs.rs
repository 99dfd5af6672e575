//! Sequences searched by a predicate.

use vstd::prelude::*;

verus! {

/// The first position at or after `i` whose element satisfies `p`.
pub open spec fn first_where_from<A>(s: Seq<A>, p: spec_fn(A) -> bool, i: int) -> Option<int>
    decreases s.len() - i,
{
    if i < 0 || i >= s.len() {
        None
    } else if p(s[i]) {
        Some(i)
    } else {
        first_where_from(s, p, i + 1)
    }
}

/// The first position whose element satisfies `p`.
pub open spec fn first_where<A>(s: Seq<A>, p: spec_fn(A) -> bool) -> Option<int> {
    first_where_from(s, p, 0)
}

/// Whether some element satisfies `p`.
pub open spec fn any_where<A>(s: Seq<A>, p: spec_fn(A) -> bool) -> bool {
    first_where(s, p) is Some
}

/// What `first_where_from` gives satisfies the predicate, and nothing before
/// it does.
pub proof fn first_where_from_is_first<A>(s: Seq<A>, p: spec_fn(A) -> bool, i: int)
    requires
        0 <= i,
    ensures
        match first_where_from(s, p, i) {
            Some(k) => i <= k < s.len() && p(s[k]) && forall|j: int| i <= j < k ==> !p(#[trigger] s[j]),
            None => forall|j: int| i <= j < s.len() ==> !p(#[trigger] s[j]),
        },
    decreases s.len() - i,
{
    if i < s.len() && !p(s[i]) {
        first_where_from_is_first(s, p, i + 1);
    }
}

/// What `first_where` gives satisfies the predicate, and nothing before it
/// does.
pub proof fn first_where_is_first<A>(s: Seq<A>, p: spec_fn(A) -> bool)
    ensures
        match first_where(s, p) {
            Some(k) => 0 <= k < s.len() && p(s[k]) && forall|j: int| 0 <= j < k ==> !p(#[trigger] s[j]),
            None => forall|j: int| 0 <= j < s.len() ==> !p(#[trigger] s[j]),
        },
{
    first_where_from_is_first(s, p, 0);
}

/// Whether no two elements have the same key.
pub open spec fn distinct_by<A, K>(s: Seq<A>, key: spec_fn(A) -> K) -> bool {
    forall|i: int, j: int| 0 <= i < j < s.len() ==> key(#[trigger] s[i]) != key(#[trigger] s[j])
}

/// One more element joins the filtered and mapped sequence where the function
/// keeps it.
pub proof fn filter_map_step<A, B>(s: Seq<A>, f: spec_fn(A) -> Option<B>, i: int)
    requires
        0 <= i < s.len(),
    ensures
        s.take(i + 1).filter_map(f) == match f(s[i]) {
            Some(b) => s.take(i).filter_map(f).push(b),
            None => s.take(i).filter_map(f),
        },
{
    s.lemma_filter_map_take_succ(f, i);
    match f(s[i]) {
        Some(b) => {
            assert(s.take(i).filter_map(f) + seq![b] =~= s.take(i).filter_map(f).push(b));
        },
        None => {
            assert(s.take(i).filter_map(f) + Seq::<B>::empty() =~= s.take(i).filter_map(f));
        },
    }
}

/// Nothing filtered from nothing.
pub proof fn filter_map_start<A, B>(s: Seq<A>, f: spec_fn(A) -> Option<B>)
    ensures
        s.take(0).filter_map(f) == Seq::<B>::empty(),
{
    assert(s.take(0) =~= Seq::<A>::empty());
    assert(Seq::<A>::empty().filter_map(f) == Seq::<B>::empty());
}

/// What is kept of a prefix comes first in what is kept of everything.
pub proof fn filter_map_prefix<A, B>(s: Seq<A>, f: spec_fn(A) -> Option<B>, i: int)
    requires
        0 <= i <= s.len(),
    ensures
        s.take(i).filter_map(f).len() <= s.filter_map(f).len(),
        s.filter_map(f).take(s.take(i).filter_map(f).len() as int) == s.take(i).filter_map(f),
    decreases s.len() - i,
{
    let a = s.take(i).filter_map(f);
    if i < s.len() {
        filter_map_prefix(s, f, i + 1);
        filter_map_step(s, f, i);
        let b = s.take(i + 1).filter_map(f);
        let c = s.filter_map(f);
        assert(c.take(b.len() as int) == b);
        assert(c.take(a.len() as int) =~= b.take(a.len() as int));
        assert(b.take(a.len() as int) =~= a);
    } else {
        take_all(s);
        take_all(a);
    }
}

/// Everything is the prefix as long as the sequence.
pub proof fn take_all<A>(s: Seq<A>)
    ensures
        s.take(s.len() as int) == s,
{
    assert(s.take(s.len() as int) =~= s);
}

/// What the function keeps of any element stands in the result.
pub proof fn filter_map_keeps<A, B>(s: Seq<A>, f: spec_fn(A) -> Option<B>, i: int)
    requires
        0 <= i < s.len(),
        f(s[i]) is Some,
    ensures
        s.filter_map(f).contains(f(s[i])->0),
    decreases s.len(),
{
    let n = s.len() - 1;
    filter_map_step(s, f, n);
    take_all(s);
    let t = s.take(n);
    let b = f(s[i])->0;
    if i == n {
        assert(s.filter_map(f)[t.filter_map(f).len() as int] == b);
    } else {
        assert(t[i] == s[i]);
        filter_map_keeps(t, f, i);
        let k = choose|k: int| 0 <= k < t.filter_map(f).len() && t.filter_map(f)[k] == b;
        assert(s.filter_map(f)[k] == b);
    }
}

/// Everything in the result comes from some element.
pub proof fn filter_map_from<A, B>(s: Seq<A>, f: spec_fn(A) -> Option<B>, k: int)
    requires
        0 <= k < s.filter_map(f).len(),
    ensures
        exists|i: int| 0 <= i < s.len() && f(#[trigger] s[i]) == Some(s.filter_map(f)[k]),
    decreases s.len(),
{
    if s.len() == 0 {
        filter_map_start(s, f);
        take_all(s);
    } else {
        let n = s.len() - 1;
        let t = s.take(n);
        filter_map_step(s, f, n);
        take_all(s);
        if k < t.filter_map(f).len() {
            filter_map_from(t, f, k);
            let i = choose|i: int| 0 <= i < t.len() && f(#[trigger] t[i]) == Some(t.filter_map(f)[k]);
            assert(s[i] == t[i]);
        } else {
            assert(f(s[n]) == Some(s.filter_map(f)[k]));
        }
    }
}

/// The elements in the order of their first occurrence, each once.
pub open spec fn uniques<A>(s: Seq<A>) -> Seq<A>
    decreases s.len(),
{
    if s.len() == 0 {
        Seq::empty()
    } else {
        let rest = uniques(s.drop_last());
        if rest.contains(s.last()) {
            rest
        } else {
            rest.push(s.last())
        }
    }
}

/// `uniques` has the same elements, and none of them twice.
pub proof fn uniques_are_distinct<A>(s: Seq<A>)
    ensures
        uniques(s).no_duplicates(),
        forall|x: A| uniques(s).contains(x) <==> s.contains(x),
        uniques(s).len() <= s.len(),
    decreases s.len(),
{
    if s.len() > 0 {
        let t = s.drop_last();
        uniques_are_distinct(t);
        assert forall|x: A| uniques(s).contains(x) <==> s.contains(x) by {
            if s.contains(x) {
                let i = choose|i: int| 0 <= i < s.len() && s[i] == x;
                if i < t.len() {
                    assert(t[i] == x);
                    assert(t.contains(x));
                    let j = choose|j: int| 0 <= j < uniques(t).len() && uniques(t)[j] == x;
                    assert(uniques(s)[j] == x);
                } else if !uniques(t).contains(x) {
                    assert(uniques(s)[uniques(t).len() as int] == x);
                }
            }
            if uniques(s).contains(x) {
                let j = choose|j: int| 0 <= j < uniques(s).len() && uniques(s)[j] == x;
                if j < uniques(t).len() {
                    assert(uniques(t)[j] == x);
                    assert(t.contains(x));
                    let i = choose|i: int| 0 <= i < t.len() && t[i] == x;
                    assert(s[i] == x);
                } else {
                    assert(s[s.len() - 1] == x);
                }
            }
        }
    }
}

/// How many elements satisfy a predicate.
pub open spec fn count_where<A>(s: Seq<A>, p: spec_fn(A) -> bool) -> nat
    decreases s.len(),
{
    if s.len() == 0 {
        0
    } else {
        count_where(s.drop_last(), p) + if p(s.last()) {
            1nat
        } else {
            0nat
        }
    }
}

/// One more element counts if it satisfies the predicate.
pub proof fn count_where_step<A>(s: Seq<A>, p: spec_fn(A) -> bool, i: int)
    requires
        0 <= i < s.len(),
    ensures
        count_where(s.take(i + 1), p) == count_where(s.take(i), p) + if p(s[i]) {
            1nat
        } else {
            0nat
        },
        count_where(s.take(i), p) <= i,
    decreases i,
{
    assert(s.take(i + 1).drop_last() =~= s.take(i));
    if i > 0 {
        count_where_step(s, p, i - 1);
        assert(s.take(i).drop_last() =~= s.take(i - 1));
    }
}

/// What two sequences count together is what each counts.
pub proof fn count_where_joins<A>(a: Seq<A>, b: Seq<A>, p: spec_fn(A) -> bool)
    ensures
        count_where(a + b, p) == count_where(a, p) + count_where(b, p),
    decreases b.len(),
{
    if b.len() == 0 {
        assert(a + b =~= a);
    } else {
        assert((a + b).drop_last() =~= a + b.drop_last());
        count_where_joins(a, b.drop_last(), p);
    }
}

/// A predicate that nothing satisfies counts nothing.
pub proof fn count_where_none<A>(s: Seq<A>, p: spec_fn(A) -> bool)
    requires
        forall|i: int| 0 <= i < s.len() ==> !p(#[trigger] s[i]),
    ensures
        count_where(s, p) == 0,
    decreases s.len(),
{
    if s.len() > 0 {
        assert forall|i: int| 0 <= i < s.drop_last().len() implies !p(
            #[trigger] s.drop_last()[i],
        ) by {
            assert(s.drop_last()[i] == s[i]);
        }
        count_where_none(s.drop_last(), p);
        assert(!p(s[s.len() - 1]));
    }
}

/// A predicate that one element alone satisfies counts one.
pub proof fn count_where_one<A>(s: Seq<A>, p: spec_fn(A) -> bool, k: int)
    requires
        0 <= k < s.len(),
        p(s[k]),
        forall|i: int| 0 <= i < s.len() && i != k ==> !p(#[trigger] s[i]),
    ensures
        count_where(s, p) == 1,
    decreases s.len(),
{
    let t = s.drop_last();
    if k == s.len() - 1 {
        assert forall|i: int| 0 <= i < t.len() implies !p(#[trigger] t[i]) by {
            assert(t[i] == s[i]);
        }
        count_where_none(t, p);
    } else {
        assert(t[k] == s[k]);
        assert forall|i: int| 0 <= i < t.len() && i != k implies !p(#[trigger] t[i]) by {
            assert(t[i] == s[i]);
        }
        count_where_one(t, p, k);
        assert(!p(s[s.len() - 1]));
    }
}

/// A predicate that counts something is satisfied somewhere.
pub proof fn counted_is_there<A>(s: Seq<A>, p: spec_fn(A) -> bool)
    requires
        count_where(s, p) > 0,
    ensures
        exists|i: int| 0 <= i < s.len() && p(#[trigger] s[i]),
{
    if forall|i: int| 0 <= i < s.len() ==> !p(#[trigger] s[i]) {
        count_where_none(s, p);
    }
}
/// Whether a function keeps an element, and what it keeps satisfies `q`.
pub open spec fn keeps_where<A, B>(f: spec_fn(A) -> Option<B>, q: spec_fn(B) -> bool) -> spec_fn(
    A,
) -> bool {
    |a: A|
        match f(a) {
            Some(b) => q(b),
            None => false,
        }
}

/// What is kept counts as the elements that it is kept of.
pub proof fn count_kept<A, B>(s: Seq<A>, f: spec_fn(A) -> Option<B>, q: spec_fn(B) -> bool)
    ensures
        count_where(s.filter_map(f), q) == count_where(s, keeps_where(f, q)),
    decreases s.len(),
{
    if s.len() == 0 {
        filter_map_start(s, f);
        take_all(s);
    } else {
        let n = s.len() - 1;
        let t = s.drop_last();
        count_kept(t, f, q);
        filter_map_step(s, f, n);
        take_all(s);
        assert(s.take(n) =~= t);
        match f(s[n]) {
            Some(b) => {
                assert(t.filter_map(f).push(b).drop_last() =~= t.filter_map(f));
            },
            None => {},
        }
    }
}

/// The total of a measure over the elements.
pub open spec fn sum_of<A>(s: Seq<A>, f: spec_fn(A) -> int) -> int
    decreases s.len(),
{
    if s.len() == 0 {
        0
    } else {
        sum_of(s.drop_last(), f) + f(s.last())
    }
}

/// A prefix has no larger total, where nothing counts below zero.
pub proof fn sum_of_prefix<A>(s: Seq<A>, f: spec_fn(A) -> int, i: int)
    requires
        0 <= i <= s.len(),
        forall|k: int| 0 <= k < s.len() ==> f(#[trigger] s[k]) >= 0,
    ensures
        0 <= sum_of(s.take(i), f) <= sum_of(s, f),
    decreases s.len() + s.len() - i,
{
    if i < s.len() {
        sum_of_prefix(s, f, i + 1);
        assert(s.take(i + 1).drop_last() =~= s.take(i));
        assert(f(s[i]) >= 0);
        sum_of_nonneg(s.take(i), f);
    } else {
        take_all(s);
        sum_of_nonneg(s, f);
    }
}

/// A total of measures that are not below zero is not below zero.
pub proof fn sum_of_nonneg<A>(s: Seq<A>, f: spec_fn(A) -> int)
    requires
        forall|k: int| 0 <= k < s.len() ==> f(#[trigger] s[k]) >= 0,
    ensures
        sum_of(s, f) >= 0,
    decreases s.len(),
{
    if s.len() > 0 {
        assert(f(s[s.len() - 1]) >= 0);
        let t = s.drop_last();
        assert forall|k: int| 0 <= k < t.len() implies f(#[trigger] t[k]) >= 0 by {
            assert(t[k] == s[k]);
        }
        sum_of_nonneg(t, f);
    }
}

/// Adds an element at the end.
pub(crate) fn push_item<T: DeepView>(v: &mut Vec<T>, x: T)
    ensures
        final(v).deep_view() == old(v).deep_view().push(x.deep_view()),
        final(v)@ == old(v)@.push(x),
{
    v.push(x);
    assert(v.deep_view() =~= old(v).deep_view().push(x.deep_view()));
}

/// What a function makes of each element, one after the other.
pub open spec fn chain<A, B>(s: Seq<A>, f: spec_fn(A) -> Seq<B>) -> Seq<B>
    decreases s.len(),
{
    if s.len() == 0 {
        Seq::empty()
    } else {
        chain(s.drop_last(), f) + f(s.last())
    }
}

/// What a function keeps of the elements.
pub(crate) fn collect<A: DeepView, B: DeepView, F: Fn(&A) -> Option<B>>(
    v: &[A],
    f: F,
    Ghost(g): Ghost<spec_fn(A::V) -> Option<B::V>>,
) -> (r: Vec<B>)
    requires
        forall|a: &A| f.requires((a,)),
        forall|a: &A, b: Option<B>| f.ensures((a,), b) ==> b.deep_view() == g(a.deep_view()),
    ensures
        r.deep_view() == v.deep_view().filter_map(g),
{
    let ghost all = v.deep_view();
    let mut out: Vec<B> = Vec::new();
    let mut i: usize = 0;
    proof {
        filter_map_start(all, g);
        assert(out.deep_view() =~= Seq::<B::V>::empty());
    }
    while i < v.len()
        invariant
            all == v.deep_view(),
            i <= v@.len(),
            forall|a: &A| f.requires((a,)),
            forall|a: &A, b: Option<B>| f.ensures((a,), b) ==> b.deep_view() == g(a.deep_view()),
            out.deep_view() == all.take(i as int).filter_map(g),
        decreases v@.len() - i,
    {
        assert(all[i as int] == v@[i as int].deep_view());
        proof {
            filter_map_step(all, g, i as int);
        }
        match f(&v[i]) {
            Some(b) => {
                push_item(&mut out, b);
            },
            None => {},
        }
        i = i + 1;
    }
    proof {
        take_all(all);
    }
    out
}

/// What a function makes of the elements.
pub(crate) fn convert<A: DeepView, B: DeepView, F: Fn(&A) -> B>(
    v: &[A],
    f: F,
    Ghost(g): Ghost<spec_fn(A::V) -> B::V>,
) -> (r: Vec<B>)
    requires
        forall|a: &A| f.requires((a,)),
        forall|a: &A, b: B| f.ensures((a,), b) ==> b.deep_view() == g(a.deep_view()),
    ensures
        r.deep_view() == v.deep_view().map_values(g),
{
    let ghost all = v.deep_view();
    let ghost want = all.map_values(g);
    let mut out: Vec<B> = Vec::new();
    let mut i: usize = 0;
    assert(out.deep_view() =~= want.take(0));
    while i < v.len()
        invariant
            all == v.deep_view(),
            want == all.map_values(g),
            i <= v@.len(),
            forall|a: &A| f.requires((a,)),
            forall|a: &A, b: B| f.ensures((a,), b) ==> b.deep_view() == g(a.deep_view()),
            out.deep_view() == want.take(i as int),
        decreases v@.len() - i,
    {
        assert(all[i as int] == v@[i as int].deep_view());
        push_item(&mut out, f(&v[i]));
        assert(want.take(i + 1) =~= want.take(i as int).push(want[i as int]));
        i = i + 1;
    }
    assert(want.take(want.len() as int) =~= want);
    out
}

/// What a function makes of each element, one after the other.
pub(crate) fn gather<A: DeepView, B: DeepView, F: Fn(&A) -> Vec<B>>(
    v: &[A],
    f: F,
    Ghost(g): Ghost<spec_fn(A::V) -> Seq<B::V>>,
) -> (r: Vec<B>)
    requires
        forall|a: &A| f.requires((a,)),
        forall|a: &A, b: Vec<B>| f.ensures((a,), b) ==> b.deep_view() == g(a.deep_view()),
    ensures
        r.deep_view() == chain(v.deep_view(), g),
{
    let ghost all = v.deep_view();
    let mut out: Vec<B> = Vec::new();
    let mut i: usize = 0;
    assert(out.deep_view() =~= chain(all.take(0), g));
    while i < v.len()
        invariant
            all == v.deep_view(),
            i <= v@.len(),
            forall|a: &A| f.requires((a,)),
            forall|a: &A, b: Vec<B>| f.ensures((a,), b) ==> b.deep_view() == g(a.deep_view()),
            out.deep_view() == chain(all.take(i as int), g),
        decreases v@.len() - i,
    {
        assert(all[i as int] == v@[i as int].deep_view());
        assert(all.take(i + 1).drop_last() =~= all.take(i as int));
        let mut more: Vec<B> = f(&v[i]);
        let ghost a = out.deep_view();
        let ghost b = more.deep_view();
        out.append(&mut more);
        assert(out.deep_view() =~= a + b);
        i = i + 1;
    }
    proof {
        take_all(all);
    }
    out
}

/// What a function makes of every element, where it makes something of all.
pub open spec fn all_of<A, B>(s: Seq<A>, g: spec_fn(A) -> Option<B>) -> Option<Seq<B>> {
    if forall|i: int| 0 <= i < s.len() ==> g(#[trigger] s[i]) is Some {
        Some(s.map_values(|a: A| g(a)->0))
    } else {
        None
    }
}

/// What a function makes of every element, where it makes something of all.
pub(crate) fn convert_all<A: DeepView, B: DeepView, F: Fn(&A) -> Option<B>>(
    v: &[A],
    f: F,
    Ghost(g): Ghost<spec_fn(A::V) -> Option<B::V>>,
) -> (r: Option<Vec<B>>)
    requires
        forall|a: &A| f.requires((a,)),
        forall|a: &A, b: Option<B>| f.ensures((a,), b) ==> b.deep_view() == g(a.deep_view()),
    ensures
        r.deep_view() == all_of(v.deep_view(), g),
{
    let ghost all = v.deep_view();
    let ghost want = all.map_values(|a: A::V| g(a)->0);
    let mut out: Vec<B> = Vec::new();
    let mut i: usize = 0;
    assert(out.deep_view() =~= want.take(0));
    while i < v.len()
        invariant
            all == v.deep_view(),
            want == all.map_values(|a: A::V| g(a)->0),
            i <= v@.len(),
            forall|a: &A| f.requires((a,)),
            forall|a: &A, b: Option<B>| f.ensures((a,), b) ==> b.deep_view() == g(a.deep_view()),
            forall|k: int| 0 <= k < i ==> g(#[trigger] all[k]) is Some,
            out.deep_view() == want.take(i as int),
        decreases v@.len() - i,
    {
        assert(all[i as int] == v@[i as int].deep_view());
        match f(&v[i]) {
            Some(b) => {
                push_item(&mut out, b);
            },
            None => {
                assert(g(all[i as int]) is None);
                return None;
            },
        }
        assert(want.take(i + 1) =~= want.take(i as int).push(want[i as int]));
        i = i + 1;
    }
    assert(want.take(want.len() as int) =~= want);
    Some(out)
}

/// Each element once.
pub(crate) fn distinct<A: DeepView, E: Fn(&A, &A) -> bool, C: Fn(&A) -> A>(
    v: &[A],
    same: E,
    copy: C,
) -> (r: Vec<A>)
    requires
        forall|a: &A, b: &A| same.requires((a, b)),
        forall|a: &A, b: &A, r: bool|
            same.ensures((a, b), r) ==> r == (a.deep_view() == b.deep_view()),
        forall|a: &A| copy.requires((a,)),
        forall|a: &A, r: A| copy.ensures((a,), r) ==> r.deep_view() == a.deep_view(),
    ensures
        r.deep_view() == uniques(v.deep_view()),
{
    let ghost all = v.deep_view();
    let mut out: Vec<A> = Vec::new();
    let mut i: usize = 0;
    assert(out.deep_view() =~= uniques(all.take(0)));
    while i < v.len()
        invariant
            all == v.deep_view(),
            i <= v@.len(),
            forall|a: &A, b: &A| same.requires((a, b)),
            forall|a: &A, b: &A, r: bool|
                same.ensures((a, b), r) ==> r == (a.deep_view() == b.deep_view()),
            forall|a: &A| copy.requires((a,)),
            forall|a: &A, r: A| copy.ensures((a,), r) ==> r.deep_view() == a.deep_view(),
            out.deep_view() == uniques(all.take(i as int)),
        decreases v@.len() - i,
    {
        assert(all.take(i + 1).drop_last() =~= all.take(i as int));
        assert(all[i as int] == v@[i as int].deep_view());
        let ghost have = out.deep_view();
        let mut found: bool = false;
        let mut j: usize = 0;
        while j < out.len() && !found
            invariant
                i < v@.len(),
                j <= out@.len(),
                have == out.deep_view(),
                forall|a: &A, b: &A| same.requires((a, b)),
                forall|a: &A, b: &A, r: bool|
                    same.ensures((a, b), r) ==> r == (a.deep_view() == b.deep_view()),
                !found ==> forall|k: int| 0 <= k < j ==> have[k] != v@[i as int].deep_view(),
                found ==> have.contains(v@[i as int].deep_view()),
            decreases out@.len() - j,
        {
            assert(have[j as int] == out@[j as int].deep_view());
            if same(&out[j], &v[i]) {
                found = true;
            }
            j = j + 1;
        }
        if !found {
            push_item(&mut out, copy(&v[i]));
        }
        i = i + 1;
    }
    proof {
        take_all(all);
    }
    out
}

/// Copies a list, where a copy of an element holds the same.
pub(crate) fn copy_all<A: DeepView + Clone>(v: &Vec<A>) -> (r: Vec<A>)
    requires
        forall|a: A, b: A| cloned::<A>(a, b) ==> a.deep_view() == b.deep_view(),
    ensures
        r.deep_view() == v.deep_view(),
{
    let mut out: Vec<A> = Vec::new();
    let mut i: usize = 0;
    while i < v.len()
        invariant
            forall|a: A, b: A| cloned::<A>(a, b) ==> a.deep_view() == b.deep_view(),
            i <= v@.len(),
            out@.len() == i,
            forall|k: int| 0 <= k < i ==> (#[trigger] out@[k]).deep_view() == v@[k].deep_view(),
        decreases v@.len() - i,
    {
        let copy = v[i].clone();
        assert(cloned::<A>(v@[i as int], copy));
        out.push(copy);
        i = i + 1;
    }
    assert(out.deep_view() =~= v.deep_view());
    out
}

/// A vector as a slice holds the same.
pub(crate) fn whole<A: DeepView>(v: &Vec<A>) -> (r: &[A])
    ensures
        r@ == v@,
        r.deep_view() == v.deep_view(),
{
    let r = v.as_slice();
    assert(r.deep_view() =~= v.deep_view());
    r
}

/// Elements that keep their number of occurrences stay without duplicates.
pub proof fn rearranged_stays_distinct<A>(s: Seq<A>, t: Seq<A>)
    requires
        s.no_duplicates(),
        t.to_multiset() == s.to_multiset(),
    ensures
        t.no_duplicates(),
{
    broadcast use vstd::seq_lib::group_to_multiset_ensures;

    s.lemma_multiset_has_no_duplicates();
    t.lemma_multiset_has_no_duplicates_conv();
}

/// What is kept is no more than there was.
pub proof fn filter_map_is_no_longer<A, B>(s: Seq<A>, f: spec_fn(A) -> Option<B>)
    ensures
        s.filter_map(f).len() <= s.len(),
    decreases s.len(),
{
    take_all(s);
    if s.len() == 0 {
        filter_map_start(s, f);
    } else {
        let n = s.len() - 1;
        filter_map_step(s, f, n);
        filter_map_is_no_longer(s.take(n), f);
    }
}

} // verus!
