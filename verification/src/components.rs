//! The components of a graph whose nodes are numbered: what can be reached from
//! its nodes, each in turn. In an undirected graph these are its connected
//! components.

use vstd::prelude::*;

use crate::seqs::push_item;

verus! {

/// Whether `b` can be reached from `a` in `k` steps over links.
pub open spec fn reach<A>(link: spec_fn(A, A) -> bool, a: A, b: A, k: nat) -> bool
    decreases k,
{
    if k == 0 {
        a == b
    } else {
        exists|m: A| #[trigger] link(a, m) && reach(link, m, b, (k - 1) as nat)
    }
}

/// Whether `b` can be reached from `a` over links.
pub open spec fn connected<A>(link: spec_fn(A, A) -> bool, a: A, b: A) -> bool {
    exists|k: nat| #[trigger] reach(link, a, b, k)
}

/// Whether links go both ways.
pub open spec fn symmetric<A>(link: spec_fn(A, A) -> bool) -> bool {
    forall|a: A, b: A| #[trigger] link(a, b) ==> link(b, a)
}

pub(crate) proof fn reach_joins<A>(
    link: spec_fn(A, A) -> bool,
    a: A,
    b: A,
    c: A,
    k: nat,
    l: nat,
)
    requires
        reach(link, a, b, k),
        reach(link, b, c, l),
    ensures
        reach(link, a, c, k + l),
    decreases k,
{
    if k > 0 {
        let m = choose|m: A| #[trigger] link(a, m) && reach(link, m, b, (k - 1) as nat);
        reach_joins(link, m, b, c, (k - 1) as nat, l);
        assert((k - 1) as nat + l == (k + l - 1) as nat);
        assert(link(a, m));
    }
}

pub(crate) proof fn reach_turns<A>(link: spec_fn(A, A) -> bool, a: A, b: A, k: nat)
    requires
        symmetric(link),
        reach(link, a, b, k),
    ensures
        reach(link, b, a, k),
    decreases k,
{
    if k > 0 {
        let m = choose|m: A| #[trigger] link(a, m) && reach(link, m, b, (k - 1) as nat);
        reach_turns(link, m, b, (k - 1) as nat);
        assert(link(m, a));
        assert(reach(link, a, a, 0));
        assert(reach(link, m, a, 1));
        reach_joins(link, b, m, a, (k - 1) as nat, 1);
        assert((k - 1) as nat + 1 == k);
    }
}

/// Being connected goes both ways, where links do.
pub proof fn connected_is_symmetric<A>(link: spec_fn(A, A) -> bool, a: A, b: A)
    requires
        symmetric(link),
    ensures
        connected(link, a, b) ==> connected(link, b, a),
{
    if connected(link, a, b) {
        let k = choose|k: nat| #[trigger] reach(link, a, b, k);
        reach_turns(link, a, b, k);
    }
}

/// What is connected to what is connected is connected.
pub proof fn connected_is_transitive<A>(link: spec_fn(A, A) -> bool, a: A, b: A, c: A)
    ensures
        connected(link, a, b) && connected(link, b, c) ==> connected(link, a, c),
{
    if connected(link, a, b) && connected(link, b, c) {
        let k = choose|k: nat| #[trigger] reach(link, a, b, k);
        let l = choose|l: nat| #[trigger] reach(link, b, c, l);
        reach_joins(link, a, b, c, k, l);
    }
}

/// The links of numbered nodes: `nbrs[i]` lists the neighbours of node `i`.
pub open spec fn links(nbrs: Seq<Seq<usize>>) -> spec_fn(int, int) -> bool {
    |i: int, j: int|
        0 <= i < nbrs.len() && 0 <= j < nbrs.len() && nbrs[i].contains(j as usize)
}

/// Whether every neighbour is a node.
pub open spec fn is_graph(nbrs: Seq<Seq<usize>>) -> bool {
    forall|i: int, k: int|
        0 <= i < nbrs.len() && 0 <= k < nbrs[i].len() ==> #[trigger] nbrs[i][k] < nbrs.len()
}

/// Whether every node stands in exactly one group, once, and no group is
/// empty.
pub open spec fn is_partition(n: int, groups: Seq<Seq<usize>>) -> bool {
    &&& forall|c: int|
        0 <= c < groups.len() ==> (#[trigger] groups[c]).len() > 0 && groups[c].no_duplicates()
    &&& forall|c: int, k: int|
        0 <= c < groups.len() && 0 <= k < groups[c].len() ==> #[trigger] groups[c][k] < n
    &&& forall|c: int, d: int, x: usize|
        0 <= c < groups.len() && 0 <= d < groups.len() && #[trigger] groups[c].contains(x)
            && #[trigger] groups[d].contains(x) ==> c == d
    &&& forall|i: int| 0 <= i < n ==> #[trigger] in_some_group(groups, i as usize)
}

/// Whether a node stands in a group.
pub open spec fn in_some_group(groups: Seq<Seq<usize>>, x: usize) -> bool {
    exists|c: int| 0 <= c < groups.len() && (#[trigger] groups[c]).contains(x)
}

/// Whether two nodes stand in the same group.
pub open spec fn together<T>(groups: Seq<Seq<T>>, a: T, b: T) -> bool {
    exists|c: int|
        0 <= c < groups.len() && (#[trigger] groups[c]).contains(a) && groups[c].contains(b)
}

/// Whether each group is what can be reached from its first node and stands in
/// no group before it.
pub open spec fn grouped_by_reach<T>(link: spec_fn(T, T) -> bool, groups: Seq<Seq<T>>) -> bool {
    forall|c: int, x: T|
        0 <= c < groups.len() ==> (#[trigger] groups[c].contains(x) <==> connected(
            link,
            groups[c][0],
            x,
        ) && !stands_before(groups, c, x))
}

/// Whether something stands in a group before another.
pub open spec fn stands_before<T>(groups: Seq<Seq<T>>, c: int, x: T) -> bool {
    exists|d: int| 0 <= d < c && (#[trigger] groups[d]).contains(x)
}

/// Where links go both ways, two things of which each stands in a group, and in
/// one only, stand in the same group exactly if one can be reached from the
/// other.
pub proof fn undirected_groups<T>(
    link: spec_fn(T, T) -> bool,
    groups: Seq<Seq<T>>,
    a: T,
    b: T,
    ca: int,
    cb: int,
)
    requires
        symmetric(link),
        grouped_by_reach(link, groups),
        0 <= ca < groups.len(),
        0 <= cb < groups.len(),
        groups[ca].contains(a),
        groups[cb].contains(b),
        forall|c: int| 0 <= c < groups.len() && #[trigger] groups[c].contains(a) ==> c == ca,
        forall|c: int| 0 <= c < groups.len() && #[trigger] groups[c].contains(b) ==> c == cb,
    ensures
        together(groups, a, b) <==> connected(link, a, b),
{
    let (ra, rb) = (groups[ca][0], groups[cb][0]);
    assert(connected(link, ra, a));
    assert(connected(link, rb, b));
    connected_is_symmetric(link, ra, a);
    connected_is_symmetric(link, rb, b);
    if together(groups, a, b) {
        assert(ca == cb);
        connected_is_transitive(link, a, ra, b);
    }
    if connected(link, a, b) {
        connected_is_symmetric(link, a, b);
        connected_is_transitive(link, ra, a, b);
        connected_is_transitive(link, rb, b, a);
        if ca < cb {
            assert(!groups[ca].contains(b));
            assert(!stands_before(groups, ca, b)) by {
                if stands_before(groups, ca, b) {
                    let d = choose|d: int| 0 <= d < ca && (#[trigger] groups[d]).contains(b);
                    assert(d == cb);
                }
            }
        } else if cb < ca {
            assert(!groups[cb].contains(a));
            assert(!stands_before(groups, cb, a)) by {
                if stands_before(groups, cb, a) {
                    let d = choose|d: int| 0 <= d < cb && (#[trigger] groups[d]).contains(a);
                    assert(d == ca);
                }
            }
        }
        assert(ca == cb);
    }
}

/// Different numbers below `n` are at most `n` many.
proof fn distinct_below(s: Seq<usize>, n: int)
    requires
        0 <= n,
        s.no_duplicates(),
        forall|i: int| 0 <= i < s.len() ==> #[trigger] s[i] < n,
    ensures
        s.len() <= n,
{
    let t = s.map_values(|x: usize| x as int);
    assert(t.no_duplicates());
    t.unique_seq_to_set();
    vstd::set_lib::lemma_int_range(0, n);
    let range = vstd::set_lib::set_int_range(0, n);
    assert(t.to_set().subset_of(range));
    vstd::set_lib::lemma_len_subset(t.to_set(), range);
}

/// Where links never lead to a later label, nothing reached over them has one.
proof fn label_is_below(
    nbrs: Seq<Seq<usize>>,
    label: Seq<usize>,
    a: int,
    b: int,
    k: nat,
)
    requires
        label.len() == nbrs.len(),
        forall|i: int, j: int| #[trigger] links(nbrs)(i, j) ==> label[j] <= label[i],
        0 <= a < nbrs.len(),
        reach(links(nbrs), a, b, k),
    ensures
        0 <= b < nbrs.len(),
        label[b] <= label[a],
    decreases k,
{
    if k > 0 {
        let m = choose|m: int|
            #[trigger] links(nbrs)(a, m) && reach(links(nbrs), m, b, (k - 1) as nat);
        label_is_below(nbrs, label, m, b, (k - 1) as nat);
    }
}

/// What holds of the labels and groups when the groups so far are complete:
/// `n` labels a node that is in none.
spec fn labelled(nbrs: Seq<Seq<usize>>, label: Seq<usize>, groups: Seq<Seq<usize>>) -> bool {
    &&& label.len() == nbrs.len()
    &&& forall|i: int|
        0 <= i < label.len() ==> #[trigger] label[i] == nbrs.len() || label[i] < groups.len()
    &&& forall|c: int|
        0 <= c < groups.len() ==> (#[trigger] groups[c]).len() > 0 && groups[c].no_duplicates()
    &&& forall|c: int, k: int|
        0 <= c < groups.len() && 0 <= k < groups[c].len() ==> (#[trigger] groups[c][k]) < nbrs.len()
            && label[groups[c][k] as int] == c
    &&& forall|i: int|
        0 <= i < label.len() && #[trigger] label[i] < groups.len()
            ==> groups[label[i] as int].contains(i as usize)
    &&& forall|i: int, j: int|
        #[trigger] links(nbrs)(i, j) && label[i] < groups.len() ==> label[j] <= label[i]
    &&& forall|c: int, k: int|
        0 <= c < groups.len() && 0 <= k < groups[c].len() ==> connected(
            links(nbrs),
            groups[c][0] as int,
            #[trigger] groups[c][k] as int,
        )
}

/// What holds of the group under way, of which the first `head` nodes have had
/// their neighbours visited.
spec fn growing(
    nbrs: Seq<Seq<usize>>,
    label: Seq<usize>,
    groups: Seq<Seq<usize>>,
    group: Seq<usize>,
    head: int,
) -> bool {
    let c = groups.len();
    &&& label.len() == nbrs.len()
    &&& c < nbrs.len()
    &&& forall|i: int|
        0 <= i < label.len() ==> #[trigger] label[i] == nbrs.len() || label[i] <= c
    &&& forall|d: int|
        0 <= d < c ==> (#[trigger] groups[d]).len() > 0 && groups[d].no_duplicates()
    &&& forall|d: int, k: int|
        0 <= d < c && 0 <= k < groups[d].len() ==> (#[trigger] groups[d][k]) < nbrs.len()
            && label[groups[d][k] as int] == d
    &&& forall|i: int|
        0 <= i < label.len() && #[trigger] label[i] < c ==> groups[label[i] as int].contains(
            i as usize,
        )
    &&& forall|i: int, j: int|
        #[trigger] links(nbrs)(i, j) && label[i] < c ==> label[j] <= label[i]
    &&& forall|d: int, k: int|
        0 <= d < c && 0 <= k < groups[d].len() ==> connected(
            links(nbrs),
            groups[d][0] as int,
            #[trigger] groups[d][k] as int,
        )
    &&& group.len() > 0
    &&& group.no_duplicates()
    &&& forall|k: int|
        0 <= k < group.len() ==> (#[trigger] group[k]) < nbrs.len() && label[group[k] as int] == c
    &&& forall|i: int|
        0 <= i < label.len() && #[trigger] label[i] == c ==> group.contains(i as usize)
    &&& forall|k: int|
        0 <= k < group.len() ==> connected(
            links(nbrs),
            group[0] as int,
            #[trigger] group[k] as int,
        )
    &&& forall|k: int, j: int|
        0 <= k < head && #[trigger] links(nbrs)(group[k] as int, j) ==> label[j] <= c
}

/// A neighbour of the group under way that has no label joins it.
proof fn grow_by_one(
    nbrs: Seq<Seq<usize>>,
    label: Seq<usize>,
    groups: Seq<Seq<usize>>,
    group: Seq<usize>,
    head: int,
    w: usize,
)
    requires
        growing(nbrs, label, groups, group, head),
        0 <= head < group.len(),
        w < nbrs.len(),
        label[w as int] == nbrs.len(),
        links(nbrs)(group[head] as int, w as int),
    ensures
        growing(
            nbrs,
            label.update(w as int, groups.len() as usize),
            groups,
            group.push(w),
            head,
        ),
{
    let c = groups.len();
    let l2 = label.update(w as int, c as usize);
    let g2 = group.push(w);
    let link = links(nbrs);
    assert(!group.contains(w)) by {
        if group.contains(w) {
            let k = choose|k: int| 0 <= k < group.len() && group[k] == w;
            assert(label[group[k] as int] == c);
        }
    }
    assert forall|d: int, k: int| 0 <= d < c && 0 <= k < groups[d].len() implies (
    #[trigger] groups[d][k]) < nbrs.len() && l2[groups[d][k] as int] == d by {
        assert(label[groups[d][k] as int] == d);
    }
    assert forall|i: int, j: int| #[trigger] link(i, j) && l2[i] < c implies l2[j] <= l2[i] by {
        assert(label[i] < c);
        assert(label[j] <= label[i]);
    }
    assert forall|k: int| 0 <= k < g2.len() implies (#[trigger] g2[k]) < nbrs.len()
        && l2[g2[k] as int] == c by {
        if k < group.len() {
            assert(label[group[k] as int] == c);
        }
    }
    assert forall|i: int| 0 <= i < l2.len() && #[trigger] l2[i] == c implies g2.contains(
        i as usize,
    ) by {
        if i == w {
            assert(g2[group.len() as int] == w);
        } else {
            assert(label[i] == c);
            assert(group.contains(i as usize));
            let k = choose|k: int| 0 <= k < group.len() && group[k] == i as usize;
            assert(g2[k] == i as usize);
        }
    }
    assert forall|k: int| 0 <= k < g2.len() implies connected(
        link,
        g2[0] as int,
        #[trigger] g2[k] as int,
    ) by {
        if k == group.len() {
            assert(connected(link, group[0] as int, group[head] as int));
            assert(link(group[head] as int, w as int));
            assert(reach(link, w as int, w as int, 0));
            assert(reach(link, group[head] as int, w as int, 1));
            connected_is_transitive(link, group[0] as int, group[head] as int, w as int);
        } else {
            assert(connected(link, group[0] as int, group[k] as int));
        }
    }
    assert forall|k: int, j: int| 0 <= k < head && #[trigger] link(g2[k] as int, j) implies l2[j]
        <= c by {
        assert(g2[k] == group[k]);
        assert(link(group[k] as int, j));
        assert(label[j] <= c);
    }
}

/// The links of numbered nodes, by their numbers.
pub open spec fn number_links(nbrs: Seq<Seq<usize>>) -> spec_fn(usize, usize) -> bool {
    |i: usize, j: usize| links(nbrs)(i as int, j as int)
}

/// Reaching by numbers is reaching by positions.
pub(crate) proof fn number_reach(nbrs: Seq<Seq<usize>>, a: usize, b: usize, k: nat)
    requires
        nbrs.len() <= usize::MAX,
    ensures
        reach(number_links(nbrs), a, b, k) <==> reach(links(nbrs), a as int, b as int, k),
    decreases k,
{
    if k > 0 {
        let l = (k - 1) as nat;
        if reach(number_links(nbrs), a, b, k) {
            let m = choose|m: usize| #[trigger]
                number_links(nbrs)(a, m) && reach(number_links(nbrs), m, b, l);
            number_reach(nbrs, m, b, l);
            assert(links(nbrs)(a as int, m as int));
        }
        if reach(links(nbrs), a as int, b as int, k) {
            let m = choose|m: int| #[trigger]
                links(nbrs)(a as int, m) && reach(links(nbrs), m, b as int, l);
            number_reach(nbrs, m as usize, b, l);
            assert(number_links(nbrs)(a, m as usize));
        }
    }
}

/// The components of the graph: its nodes in groups, each of what can be reached
/// from its first node and stands in no group before it.
pub fn components(nbrs: &Vec<Vec<usize>>) -> (r: Vec<Vec<usize>>)
    requires
        is_graph(nbrs.deep_view()),
    ensures
        is_partition(nbrs@.len() as int, r.deep_view()),
        grouped_by_reach(number_links(nbrs.deep_view()), r.deep_view()),
{
    let ghost nv = nbrs.deep_view();
    let ghost link = links(nv);
    let n: usize = nbrs.len();
    let mut label: Vec<usize> = Vec::new();
    let mut i: usize = 0;
    while i < n
        invariant
            i <= n,
            label@.len() == i,
            forall|k: int| 0 <= k < i ==> label@[k] == n,
        decreases n - i,
    {
        label.push(n);
        i = i + 1;
    }
    let mut groups: Vec<Vec<usize>> = Vec::new();
    assert(groups.deep_view() =~= Seq::<Seq<usize>>::empty());
    let mut s: usize = 0;
    while s < n
        invariant
            n == nbrs@.len(),
            nv == nbrs.deep_view(),
            link == links(nv),
            is_graph(nv),
            s <= n,
            groups@.len() <= s,
            labelled(nv, label@, groups.deep_view()),
            forall|k: int| 0 <= k < s ==> #[trigger] label@[k] != n,
        decreases n - s,
    {
        if label[s] == n {
            let c: usize = groups.len();
            let ghost gv = groups.deep_view();
            let ghost before = label@;
            let mut group: Vec<usize> = Vec::new();
            group.push(s);
            label[s] = c;
            let mut head: usize = 0;
            proof {
                assert(reach(link, s as int, s as int, 0));
                assert forall|i: int, j: int| #[trigger] link(i, j) && label@[i] < c implies label@[j]
                    <= label@[i] by {
                    assert(before[i] < c);
                    assert(before[j] <= before[i]);
                }
                assert forall|i: int| 0 <= i < label@.len() && #[trigger] label@[i] == c implies group@.contains(
                    i as usize,
                ) by {
                    assert(i == s);
                    assert(group@[0] == s);
                }
                assert forall|d: int, k: int| 0 <= d < c && 0 <= k < gv[d].len() implies (
                #[trigger] gv[d][k]) < n && label@[gv[d][k] as int] == d by {
                    assert(before[gv[d][k] as int] == d);
                }
                assert(growing(nv, label@, gv, group@, 0));
            }
            while head < group.len()
                invariant
                    n == nbrs@.len(),
                    nv == nbrs.deep_view(),
                    link == links(nv),
                    is_graph(nv),
                    c == gv.len(),
                    gv == groups.deep_view(),
                    s < n,
                    head <= group@.len(),
                    growing(nv, label@, gv, group@, head as int),
                    label@[s as int] == c,
                    forall|k: int| 0 <= k < s ==> #[trigger] label@[k] != n,
                decreases n - head,
            {
                proof {
                    distinct_below(group@, n as int);
                }
                let v: usize = group[head];
                let vs: &Vec<usize> = &nbrs[v];
                assert(nv[v as int] == vs@);
                let mut k: usize = 0;
                while k < vs.len()
                    invariant
                        n == nbrs@.len(),
                        nv == nbrs.deep_view(),
                        link == links(nv),
                        is_graph(nv),
                        c == gv.len(),
                        c < n,
                        v < n,
                        nv[v as int] == vs@,
                        s < n,
                        head < group@.len(),
                        group@[head as int] == v,
                        growing(nv, label@, gv, group@, head as int),
                        label@[s as int] == c,
                        forall|q: int| 0 <= q < s ==> #[trigger] label@[q] != n,
                        k <= vs@.len(),
                        forall|q: int| 0 <= q < k ==> label@[#[trigger] vs@[q] as int] <= c,
                    decreases vs@.len() - k,
                {
                    let w: usize = vs[k];
                    assert(nv[v as int][k as int] == w);
                    assert(w < n);
                    assert(nv[v as int].contains(w));
                    assert(link(v as int, w as int));
                    if label[w] == n {
                        proof {
                            grow_by_one(nv, label@, gv, group@, head as int, w);
                        }
                        label[w] = c;
                        group.push(w);
                    }
                    k = k + 1;
                }
                proof {
                    assert forall|q: int, j: int|
                        0 <= q < head + 1 && #[trigger] link(group@[q] as int, j) implies label@[j]
                        <= c by {
                        if q == head {
                            assert(nv[v as int].contains(j as usize));
                            let m = choose|m: int| 0 <= m < vs@.len() && vs@[m] == j as usize;
                            assert(label@[vs@[m] as int] <= c);
                        }
                    }
                }
                head = head + 1;
            }
            let ghost gr = group@;
            assert(group.deep_view() =~= gr);
            push_item(&mut groups, group);
            proof {
                let g2 = groups.deep_view();
                assert(g2 =~= gv.push(gr));
                assert(g2[c as int] == gr);
                assert forall|d: int, k: int|
                    0 <= d < g2.len() && 0 <= k < g2[d].len() implies (#[trigger] g2[d][k]) < n
                    && label@[g2[d][k] as int] == d by {
                    if d < c {
                        assert(g2[d] == gv[d]);
                        assert(label@[gv[d][k] as int] == d);
                    } else {
                        assert(label@[gr[k] as int] == c);
                    }
                }
                assert forall|d: int, k: int|
                    0 <= d < g2.len() && 0 <= k < g2[d].len() implies connected(
                    link,
                    g2[d][0] as int,
                    #[trigger] g2[d][k] as int,
                ) by {
                    if d < c {
                        assert(g2[d] == gv[d]);
                        assert(connected(link, gv[d][0] as int, gv[d][k] as int));
                    } else {
                        assert(connected(link, gr[0] as int, gr[k] as int));
                    }
                }
                assert forall|i: int, j: int|
                    #[trigger] link(i, j) && label@[i] < g2.len() implies label@[j] <= label@[i] by {
                    if label@[i] == c {
                        assert(gr.contains(i as usize));
                        let q = choose|q: int| 0 <= q < gr.len() && gr[q] == i as usize;
                        assert(link(gr[q] as int, j));
                    }
                }
                assert forall|i: int|
                    0 <= i < label@.len() && #[trigger] label@[i] < g2.len() implies g2[label@[i] as int].contains(
                    i as usize,
                ) by {
                    if label@[i] < c {
                        assert(gv[label@[i] as int].contains(i as usize));
                    } else {
                        assert(gr.contains(i as usize));
                    }
                }
                assert(labelled(nv, label@, g2));
            }
        }
        s = s + 1;
    }
    proof {
        let g = groups.deep_view();
        let l = label@;
        assert forall|i: int| 0 <= i < n implies #[trigger] in_some_group(g, i as usize) by {
            assert(l[i] != n);
            assert(g[l[i] as int].contains(i as usize));
        }
        assert forall|c: int, d: int, x: usize|
            0 <= c < g.len() && 0 <= d < g.len() && #[trigger] g[c].contains(x)
                && #[trigger] g[d].contains(x) implies c == d by {
            let p = choose|p: int| 0 <= p < g[c].len() && g[c][p] == x;
            let q = choose|q: int| 0 <= q < g[d].len() && g[d][q] == x;
            assert(l[g[c][p] as int] == c);
            assert(l[g[d][q] as int] == d);
        }
        assert(is_partition(n as int, g));
        assert forall|i: int, j: int| #[trigger] link(i, j) implies l[j] <= l[i] by {
            assert(l[i] != n);
        }
        let by_number = number_links(nv);
        assert forall|c: int, x: usize| 0 <= c < g.len() implies (#[trigger] g[c].contains(x)
            <==> connected(by_number, g[c][0], x) && !stands_before(g, c, x)) by {
            let root = g[c][0];
            assert(g[c].len() > 0);
            assert(l[g[c][0] as int] == c);
            if g[c].contains(x) {
                let p = choose|p: int| 0 <= p < g[c].len() && g[c][p] == x;
                assert(connected(link, g[c][0] as int, g[c][p] as int));
                let k = choose|k: nat| #[trigger] reach(link, root as int, x as int, k);
                number_reach(nv, root, x, k);
                if stands_before(g, c, x) {
                    let d = choose|d: int| 0 <= d < c && (#[trigger] g[d]).contains(x);
                    assert(d == c);
                }
            }
            if connected(by_number, root, x) && !stands_before(g, c, x) {
                let k = choose|k: nat| #[trigger] reach(by_number, root, x, k);
                number_reach(nv, root, x, k);
                label_is_below(nv, l, root as int, x as int, k);
                assert(l[x as int] != n);
                assert(g[l[x as int] as int].contains(x as int as usize));
                assert(l[x as int] == c);
            }
        }
    }
    groups
}

} // verus!
