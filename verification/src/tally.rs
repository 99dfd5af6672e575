//! Amounts summed per name, and lists ranked by amounts and names.

use vstd::prelude::*;
use vstd::string::*;

use crate::analytics::wrapped;
use crate::order::{text_before, text_lt};
use crate::seqs::{push_item, sum_of, take_all, uniques};
use crate::text::str_eq;

verus! {

/// What a row is ranked by: two amounts, of which more comes first, and a name.
pub struct Rank {
    pub first: u64,
    pub second: u64,
    pub name: String,
}

impl DeepView for Rank {
    type V = (u64, u64, Seq<char>);

    open spec fn deep_view(&self) -> (u64, u64, Seq<char>) {
        (self.first, self.second, self.name@)
    }
}

/// Whether a rank comes before another: the larger amounts first, then the
/// names in order.
pub open spec fn rank_lt(a: (u64, u64, Seq<char>), b: (u64, u64, Seq<char>)) -> bool {
    if a.0 != b.0 {
        a.0 > b.0
    } else if a.1 != b.1 {
        a.1 > b.1
    } else {
        text_lt(a.2, b.2)
    }
}

/// Puts `x` behind the last row that it does not come before.
pub open spec fn insert_ranked<A>(
    s: Seq<A>,
    rank: spec_fn(A) -> (u64, u64, Seq<char>),
    x: A,
) -> Seq<A>
    decreases s.len(),
{
    if s.len() == 0 || !rank_lt(rank(x), rank(s.last())) {
        s.push(x)
    } else {
        insert_ranked(s.drop_last(), rank, x).push(s.last())
    }
}

/// The rows in the order of their ranks; equal ranks keep their order.
pub open spec fn ranked<A>(s: Seq<A>, rank: spec_fn(A) -> (u64, u64, Seq<char>)) -> Seq<A>
    decreases s.len(),
{
    if s.len() == 0 {
        Seq::empty()
    } else {
        insert_ranked(ranked(s.drop_last(), rank), rank, s.last())
    }
}

/// Whether no row comes before an earlier one.
pub open spec fn in_rank_order<A>(s: Seq<A>, rank: spec_fn(A) -> (u64, u64, Seq<char>)) -> bool {
    forall|i: int, j: int|
        0 <= i < j < s.len() ==> !rank_lt(rank(#[trigger] s[j]), rank(#[trigger] s[i]))
}

/// A text that does not come before a second, which does not come before a
/// third, does not come before the third.
pub proof fn text_order_chains(a: Seq<char>, b: Seq<char>, c: Seq<char>)
    requires
        !text_lt(c, b),
        !text_lt(b, a),
    ensures
        !text_lt(c, a),
    decreases a.len(),
{
    if a.len() > 0 && c.len() > 0 {
        assert(b.len() > 0);
        if a[0] == b[0] && b[0] == c[0] {
            text_order_chains(a.skip(1), b.skip(1), c.skip(1));
        }
    }
}

/// Ranks chain like the names in them.
pub proof fn rank_order_chains(
    a: (u64, u64, Seq<char>),
    b: (u64, u64, Seq<char>),
    c: (u64, u64, Seq<char>),
)
    requires
        !rank_lt(c, b),
        !rank_lt(b, a),
    ensures
        !rank_lt(c, a),
{
    if a.0 == b.0 && b.0 == c.0 && a.1 == b.1 && b.1 == c.1 {
        text_order_chains(a.2, b.2, c.2);
    }
}

/// No text comes before one that comes before it.
pub proof fn text_order_is_strict(a: Seq<char>, b: Seq<char>)
    requires
        text_lt(a, b),
    ensures
        !text_lt(b, a),
    decreases a.len(),
{
    if a.len() > 0 && b.len() > 0 && a[0] == b[0] {
        text_order_is_strict(a.skip(1), b.skip(1));
    }
}

/// Insertion keeps the order and adds exactly the one row.
proof fn insert_ranked_keeps<A>(s: Seq<A>, rank: spec_fn(A) -> (u64, u64, Seq<char>), x: A)
    requires
        in_rank_order(s, rank),
    ensures
        in_rank_order(insert_ranked(s, rank, x), rank),
        insert_ranked(s, rank, x).len() == s.len() + 1,
        insert_ranked(s, rank, x).to_multiset() == s.to_multiset().insert(x),
    decreases s.len(),
{
    broadcast use vstd::seq_lib::group_to_multiset_ensures;

    let r = insert_ranked(s, rank, x);
    if s.len() == 0 || !rank_lt(rank(x), rank(s.last())) {
        assert forall|i: int, j: int| 0 <= i < j < r.len() implies !rank_lt(
            rank(#[trigger] r[j]),
            rank(#[trigger] r[i]),
        ) by {
            if j == s.len() {
                if i < s.len() - 1 {
                    assert(!rank_lt(rank(s[s.len() - 1]), rank(s[i])));
                    rank_order_chains(rank(s[i]), rank(s[s.len() - 1]), rank(x));
                }
            } else {
                assert(!rank_lt(rank(s[j]), rank(s[i])));
            }
        }
    } else {
        let t = s.drop_last();
        let l = s.last();
        assert(in_rank_order(t, rank)) by {
            assert forall|i: int, j: int| 0 <= i < j < t.len() implies !rank_lt(
                rank(#[trigger] t[j]),
                rank(#[trigger] t[i]),
            ) by {
                assert(!rank_lt(rank(s[j]), rank(s[i])));
            }
        }
        insert_ranked_keeps(t, rank, x);
        let u = insert_ranked(t, rank, x);
        assert(s =~= t.push(l));
        assert(r =~= u.push(l));
        assert forall|i: int| 0 <= i < u.len() implies !rank_lt(rank(l), rank(#[trigger] u[i])) by {
            assert(u.to_multiset().contains(u[i]));
            if u[i] == x {
                if rank(x).0 == rank(l).0 && rank(x).1 == rank(l).1 {
                    text_order_is_strict(rank(x).2, rank(l).2);
                }
            } else {
                assert(t.to_multiset().contains(u[i]));
                assert(t.contains(u[i]));
                let k = choose|k: int| 0 <= k < t.len() && t[k] == u[i];
                assert(!rank_lt(rank(s[s.len() - 1]), rank(s[k])));
            }
        }
        assert forall|i: int, j: int| 0 <= i < j < r.len() implies !rank_lt(
            rank(#[trigger] r[j]),
            rank(#[trigger] r[i]),
        ) by {
            if j < u.len() {
                assert(!rank_lt(rank(u[j]), rank(u[i])));
            } else {
                assert(r[i] == u[i]);
            }
        }
        assert(r.to_multiset() =~= s.to_multiset().insert(x));
    }
}

/// Ranking gives the same rows, and none before one that ranks ahead of it.
pub proof fn ranked_is_in_order<A>(s: Seq<A>, rank: spec_fn(A) -> (u64, u64, Seq<char>))
    ensures
        in_rank_order(ranked(s, rank), rank),
        ranked(s, rank).len() == s.len(),
        ranked(s, rank).to_multiset() == s.to_multiset(),
    decreases s.len(),
{
    broadcast use vstd::seq_lib::group_to_multiset_ensures;

    if s.len() > 0 {
        ranked_is_in_order(s.drop_last(), rank);
        insert_ranked_keeps(ranked(s.drop_last(), rank), rank, s.last());
        assert(s =~= s.drop_last().push(s.last()));
    } else {
        assert(s =~= Seq::empty());
    }
}

/// Where `x` comes before everything from `pos` on and not before what stands
/// ahead of it, insertion happens at `pos`.
proof fn insert_ranked_at<A>(
    s: Seq<A>,
    rank: spec_fn(A) -> (u64, u64, Seq<char>),
    x: A,
    pos: int,
)
    requires
        0 <= pos <= s.len(),
        pos > 0 ==> !rank_lt(rank(x), rank(s[pos - 1])),
        forall|i: int| pos <= i < s.len() ==> rank_lt(rank(x), rank(#[trigger] s[i])),
    ensures
        insert_ranked(s, rank, x) == s.insert(pos, x),
    decreases s.len(),
{
    if pos == s.len() {
        assert(s.insert(pos, x) =~= s.push(x));
    } else {
        assert(rank_lt(rank(x), rank(s[s.len() - 1])));
        let t = s.drop_last();
        assert forall|i: int| pos <= i < t.len() implies rank_lt(rank(x), rank(#[trigger] t[i])) by {
            assert(t[i] == s[i]);
        }
        insert_ranked_at(t, rank, x, pos);
        assert(s.insert(pos, x) =~= t.insert(pos, x).push(s.last()));
    }
}

/// Whether the ranks are those of the rows.
pub open spec fn ranks_of<A>(
    rows: Seq<A>,
    rank: spec_fn(A) -> (u64, u64, Seq<char>),
    ranks: Seq<(u64, u64, Seq<char>)>,
) -> bool {
    &&& ranks.len() == rows.len()
    &&& forall|i: int| 0 <= i < rows.len() ==> ranks[i] == rank(#[trigger] rows[i])
}

/// Whether a rank comes before another.
fn rank_before(a: &Rank, b: &Rank) -> (r: bool)
    ensures
        r == rank_lt(a.deep_view(), b.deep_view()),
{
    if a.first != b.first {
        a.first > b.first
    } else if a.second != b.second {
        a.second > b.second
    } else {
        text_before(a.name.as_str(), b.name.as_str())
    }
}

/// Inserts a row into ranked rows. `ranks` holds the rows' ranks.
pub(crate) fn insert_at_rank<T: DeepView>(
    rows: &mut Vec<T>,
    ranks: &mut Vec<Rank>,
    row: T,
    at: Rank,
    Ghost(rank): Ghost<spec_fn(T::V) -> (u64, u64, Seq<char>)>,
)
    requires
        ranks_of(old(rows).deep_view(), rank, old(ranks).deep_view()),
        at.deep_view() == rank(row.deep_view()),
    ensures
        ranks_of(final(rows).deep_view(), rank, final(ranks).deep_view()),
        final(rows).deep_view() == insert_ranked(old(rows).deep_view(), rank, row.deep_view()),
{
    let ghost before = rows.deep_view();
    let ghost known = ranks.deep_view();
    let ghost k = at.deep_view();
    let mut pos: usize = ranks.len();
    while pos > 0 && rank_before(&at, &ranks[pos - 1])
        invariant
            0 <= pos <= ranks@.len(),
            known == ranks.deep_view(),
            k == at.deep_view(),
            ranks_of(before, rank, known),
            forall|i: int| pos <= i < before.len() ==> rank_lt(k, rank(#[trigger] before[i])),
        decreases pos,
    {
        pos = pos - 1;
        assert(rank(before[pos as int]) == known[pos as int]);
    }
    let ghost x = row.deep_view();
    proof {
        if pos > 0 {
            assert(rank(before[pos - 1]) == known[pos - 1]);
        }
        insert_ranked_at(before, rank, x, pos as int);
    }
    rows.insert(pos, row);
    ranks.insert(pos, at);
    assert(rows.deep_view() =~= before.insert(pos as int, x));
    assert(ranks.deep_view() =~= known.insert(pos as int, k));
}

/// A count as 32 bits hold it.
pub open spec fn wrapped32(n: int) -> u32 {
    (n % 0x1_0000_0000) as u32
}

/// A count as 32 bits hold it.
pub(crate) fn low_32(n: u64) -> (r: u32)
    ensures
        r == wrapped32(n as int),
{
    #[verifier::truncate]
    let r: u32 = (n % 0x1_0000_0000) as u32;
    r
}

/// What an entry adds to the total of a key.
pub open spec fn amount_of<K>(k: K) -> spec_fn((K, u64)) -> int {
    |e: (K, u64)|
        if e.0 == k {
            e.1 as int
        } else {
            0
        }
}

/// The keys of the entries.
pub open spec fn keys_of<K>(entries: Seq<(K, u64)>) -> Seq<K> {
    entries.map_values(|e: (K, u64)| e.0)
}

/// Each key once, in order of first occurrence, with the sum of its amounts.
pub open spec fn totals<K>(entries: Seq<(K, u64)>) -> Seq<(K, u64)> {
    uniques(keys_of(entries)).map_values(|k: K| (k, wrapped(sum_of(entries, amount_of(k)))))
}

/// The rank of a name with an amount.
pub open spec fn by_amount() -> spec_fn((Seq<char>, u64)) -> (u64, u64, Seq<char>) {
    |e: (Seq<char>, u64)| (e.1, 0u64, e.0)
}

/// The rank of a name with an amount that does not matter.
pub open spec fn by_name() -> spec_fn((Seq<char>, u64)) -> (u64, u64, Seq<char>) {
    |e: (Seq<char>, u64)| (0u64, 0u64, e.0)
}

/// A sum that wraps may wrap on the way.
pub(crate) proof fn wrapped_step(a: int, b: int)
    ensures
        wrapped(wrapped(a) + b) == wrapped(a + b),
{
    vstd::arithmetic::div_mod::lemma_add_mod_noop_right(b, a, 0x1_0000_0000_0000_0000);
}

/// Whether two keys are one.
fn same_pair(a: &(String, String), b: &(String, String)) -> (r: bool)
    ensures
        r == (a.deep_view() == b.deep_view()),
{
    str_eq(a.0.as_str(), b.0.as_str()) && str_eq(a.1.as_str(), b.1.as_str())
}

/// The sum of the amounts of one name.
fn total_of_text(entries: &Vec<(String, u64)>, k: &str) -> (r: u64)
    ensures
        r == wrapped(sum_of(entries.deep_view(), amount_of(k@))),
{
    let ghost all = entries.deep_view();
    let ghost f = amount_of(k@);
    let mut sum: u64 = 0;
    let mut i: usize = 0;
    while i < entries.len()
        invariant
            all == entries.deep_view(),
            f == amount_of(k@),
            i <= entries@.len(),
            sum == wrapped(sum_of(all.take(i as int), f)),
        decreases entries@.len() - i,
    {
        assert(all.take(i + 1).drop_last() =~= all.take(i as int));
        assert(all[i as int] == entries@[i as int].deep_view());
        proof {
            wrapped_step(sum_of(all.take(i as int), f), f(all[i as int]));
        }
        if str_eq(entries[i].0.as_str(), k) {
            sum = sum.wrapping_add(entries[i].1);
        }
        i = i + 1;
    }
    proof {
        take_all(all);
    }
    sum
}

/// The sum of the amounts of one pair of names.
fn total_of_pair(entries: &Vec<((String, String), u64)>, k: &(String, String)) -> (r: u64)
    ensures
        r == wrapped(sum_of(entries.deep_view(), amount_of(k.deep_view()))),
{
    let ghost all = entries.deep_view();
    let ghost f = amount_of(k.deep_view());
    let mut sum: u64 = 0;
    let mut i: usize = 0;
    while i < entries.len()
        invariant
            all == entries.deep_view(),
            f == amount_of(k.deep_view()),
            i <= entries@.len(),
            sum == wrapped(sum_of(all.take(i as int), f)),
        decreases entries@.len() - i,
    {
        assert(all.take(i + 1).drop_last() =~= all.take(i as int));
        assert(all[i as int] == entries@[i as int].deep_view());
        proof {
            wrapped_step(sum_of(all.take(i as int), f), f(all[i as int]));
        }
        if same_pair(&entries[i].0, k) {
            sum = sum.wrapping_add(entries[i].1);
        }
        i = i + 1;
    }
    proof {
        take_all(all);
    }
    sum
}

/// Whether a list has a pair of names.
pub(crate) fn has_pair(v: &Vec<(String, String)>, x: &(String, String)) -> (r: bool)
    ensures
        r == v.deep_view().contains(x.deep_view()),
{
    let ghost all = v.deep_view();
    let mut i: usize = 0;
    while i < v.len()
        invariant
            all == v.deep_view(),
            i <= v@.len(),
            forall|k: int| 0 <= k < i ==> all[k] != x.deep_view(),
        decreases v@.len() - i,
    {
        assert(all[i as int] == v@[i as int].deep_view());
        if same_pair(&v[i], x) {
            return true;
        }
        i = i + 1;
    }
    false
}

/// A pair of names, each once more.
pub(crate) fn copy_pair(p: &(String, String)) -> (r: (String, String))
    ensures
        r.deep_view() == p.deep_view(),
{
    (p.0.clone(), p.1.clone())
}

/// Each pair of names once.
pub(crate) fn unique_pairs(v: &Vec<(String, String)>) -> (r: Vec<(String, String)>)
    ensures
        r.deep_view() == uniques(v.deep_view()),
{
    let ghost all = v.deep_view();
    let mut out: Vec<(String, String)> = Vec::new();
    let mut i: usize = 0;
    assert(out.deep_view() =~= uniques(all.take(0)));
    while i < v.len()
        invariant
            all == v.deep_view(),
            i <= v@.len(),
            out.deep_view() == uniques(all.take(i as int)),
        decreases v@.len() - i,
    {
        assert(all.take(i + 1).drop_last() =~= all.take(i as int));
        assert(all[i as int] == v@[i as int].deep_view());
        if !has_pair(&out, &v[i]) {
            push_item(&mut out, copy_pair(&v[i]));
        }
        i = i + 1;
    }
    proof {
        take_all(all);
    }
    out
}

/// Each name once, with the sum of its amounts.
pub(crate) fn tally_texts(entries: &Vec<(String, u64)>) -> (r: Vec<(String, u64)>)
    ensures
        r.deep_view() == totals(entries.deep_view()),
{
    let ghost all = entries.deep_view();
    let ghost names = keys_of(all);
    let mut keys: Vec<String> = Vec::new();
    let mut i: usize = 0;
    assert(keys.deep_view() =~= names.take(0));
    while i < entries.len()
        invariant
            all == entries.deep_view(),
            names == keys_of(all),
            i <= entries@.len(),
            keys.deep_view() == names.take(i as int),
        decreases entries@.len() - i,
    {
        assert(all[i as int] == entries@[i as int].deep_view());
        push_item(&mut keys, entries[i].0.clone());
        assert(names.take(i + 1) =~= names.take(i as int).push(names[i as int]));
        i = i + 1;
    }
    assert(names.take(names.len() as int) =~= names);
    let once: Vec<String> = crate::store_lineage::unique_texts(&keys);
    let ghost want = totals(all);
    let ghost u = uniques(names);
    let mut out: Vec<(String, u64)> = Vec::new();
    let mut j: usize = 0;
    assert(out.deep_view() =~= want.take(0));
    while j < once.len()
        invariant
            all == entries.deep_view(),
            u == uniques(keys_of(all)),
            once.deep_view() == u,
            want == totals(all),
            j <= once@.len(),
            out.deep_view() == want.take(j as int),
        decreases once@.len() - j,
    {
        let n: u64 = total_of_text(entries, once[j].as_str());
        assert(u[j as int] == once@[j as int]@);
        assert(want[j as int] == (u[j as int], n));
        push_item(&mut out, (once[j].clone(), n));
        assert(want.take(j + 1) =~= want.take(j as int).push(want[j as int]));
        j = j + 1;
    }
    assert(want.take(want.len() as int) =~= want);
    out
}

/// Each pair of names once, with the sum of its amounts.
pub(crate) fn tally_pairs(entries: &Vec<((String, String), u64)>) -> (r: Vec<
    ((String, String), u64),
>)
    ensures
        r.deep_view() == totals(entries.deep_view()),
{
    let ghost all = entries.deep_view();
    let once: Vec<(String, String)> = unique_pairs(&pair_keys(entries));
    let ghost want = totals(all);
    let ghost u = uniques(keys_of(all));
    let mut out: Vec<((String, String), u64)> = Vec::new();
    let mut j: usize = 0;
    assert(out.deep_view() =~= want.take(0));
    while j < once.len()
        invariant
            all == entries.deep_view(),
            u == uniques(keys_of(all)),
            once.deep_view() == u,
            want == totals(all),
            j <= once@.len(),
            out.deep_view() == want.take(j as int),
        decreases once@.len() - j,
    {
        let n: u64 = total_of_pair(entries, &once[j]);
        assert(u[j as int] == once@[j as int].deep_view());
        assert(want[j as int] == (u[j as int], n));
        push_item(&mut out, (copy_pair(&once[j]), n));
        assert(want.take(j + 1) =~= want.take(j as int).push(want[j as int]));
        j = j + 1;
    }
    assert(want.take(want.len() as int) =~= want);
    out
}

/// The keys of the entries.
pub(crate) fn pair_keys(entries: &Vec<((String, String), u64)>) -> (r: Vec<(String, String)>)
    ensures
        r.deep_view() == keys_of(entries.deep_view()),
{
    let ghost all = entries.deep_view();
    let ghost names = keys_of(all);
    let mut keys: Vec<(String, String)> = Vec::new();
    let mut i: usize = 0;
    assert(keys.deep_view() =~= names.take(0));
    while i < entries.len()
        invariant
            all == entries.deep_view(),
            names == keys_of(all),
            i <= entries@.len(),
            keys.deep_view() == names.take(i as int),
        decreases entries@.len() - i,
    {
        assert(all[i as int] == entries@[i as int].deep_view());
        push_item(&mut keys, copy_pair(&entries[i].0));
        assert(names.take(i + 1) =~= names.take(i as int).push(names[i as int]));
        i = i + 1;
    }
    assert(names.take(names.len() as int) =~= names);
    keys
}

/// The entries ranked by amount, the largest first, or by name alone.
pub(crate) fn rank_texts(v: &Vec<(String, u64)>, amounts: bool) -> (r: Vec<(String, u64)>)
    ensures
        r.deep_view() == ranked(
            v.deep_view(),
            if amounts {
                by_amount()
            } else {
                by_name()
            },
        ),
{
    let ghost all = v.deep_view();
    let ghost rank = if amounts {
        by_amount()
    } else {
        by_name()
    };
    let mut out: Vec<(String, u64)> = Vec::new();
    let mut ranks: Vec<Rank> = Vec::new();
    let mut i: usize = 0;
    assert(out.deep_view() =~= ranked(all.take(0), rank));
    while i < v.len()
        invariant
            all == v.deep_view(),
            rank == if amounts {
                by_amount()
            } else {
                by_name()
            },
            i <= v@.len(),
            out.deep_view() == ranked(all.take(i as int), rank),
            ranks_of(out.deep_view(), rank, ranks.deep_view()),
        decreases v@.len() - i,
    {
        assert(all.take(i + 1).drop_last() =~= all.take(i as int));
        assert(all[i as int] == v@[i as int].deep_view());
        let at = Rank {
            first: if amounts {
                v[i].1
            } else {
                0
            },
            second: 0,
            name: v[i].0.clone(),
        };
        insert_at_rank(&mut out, &mut ranks, (v[i].0.clone(), v[i].1), at, Ghost(rank));
        i = i + 1;
    }
    proof {
        take_all(all);
    }
    out
}

/// The totals have each key once.
pub proof fn totals_are_distinct<K>(entries: Seq<(K, u64)>)
    ensures
        keys_of(totals(entries)).no_duplicates(),
        keys_of(totals(entries)) == uniques(keys_of(entries)),
{
    crate::seqs::uniques_are_distinct(keys_of(entries));
    assert(keys_of(totals(entries)) =~= uniques(keys_of(entries)));
}

} // verus!
