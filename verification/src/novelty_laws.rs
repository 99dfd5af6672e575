//! What is new since a time: what has no sighting before it. The lists are
//! held to a number of entries; where one is full, what it leaves out is no
//! older than what it has.

use vstd::prelude::*;

use crate::order::{first_n, sort_by_key, sort_by_key_sorts};
use crate::seqs::{
    distinct_by, filter_map_keeps, filter_map_start, filter_map_step, rearranged_stays_distinct,
    take_all, uniques, uniques_are_distinct,
};
use crate::store::{NodeKind, NodeRowView};
use crate::store_admin::earliest;
use crate::store_history::{
    endpoint_age, first_sighting, is_endpoint, is_program, new_apps, new_domains, new_endpoint,
    new_endpoints, new_program, new_programs, program_age, see_app, see_domain, see_endpoint,
    see_program, sighting_age, NewEndpointView, NewProcessIdentityView, SightingView,
    NOVELTY_CAP_PER_KIND,
};
use crate::store_merge::node_key;

verus! {

/// Whether a row is a run of a program.
pub open spec fn is_run(comm: Option<Seq<char>>, exec_path: Option<Seq<char>>) -> spec_fn(
    NodeRowView,
) -> bool {
    |r: NodeRowView|
        r.kind == NodeKind::Process && r.attrs.str_at("comm"@) == comm && r.attrs.str_at(
            "exec_path"@,
        ) == exec_path
}

/// Whether a row is a connection to an endpoint.
pub open spec fn is_connection_to(addr: Seq<char>) -> spec_fn(NodeRowView) -> bool {
    |r: NodeRowView| r.kind == NodeKind::Socket && r.attrs.str_at("foreign_addr"@) == Some(addr)
}

/// Whether there are rows that satisfy a predicate, and a time is the earliest
/// at which one of them was first seen.
pub open spec fn earliest_is(nodes: Seq<NodeRowView>, p: spec_fn(NodeRowView) -> bool, t: i64) -> bool {
    &&& exists|i: int| 0 <= i < nodes.len() && p(#[trigger] nodes[i]) && nodes[i].first_seen == t
    &&& forall|i: int|
        0 <= i < nodes.len() && p(#[trigger] nodes[i]) ==> t <= nodes[i].first_seen
}

/// What is listed is one of what was sorted.
pub(crate) proof fn listed_is_from<A>(s: Seq<A>, age: spec_fn(A) -> int, n: int, i: int)
    requires
        0 <= n,
        0 <= i < first_n(sort_by_key(s, age), n).len(),
    ensures
        s.contains(first_n(sort_by_key(s, age), n)[i]),
{
    broadcast use vstd::seq_lib::group_to_multiset_ensures;

    let sorted = sort_by_key(s, age);
    sort_by_key_sorts(s, age);
    assert(sorted.contains(sorted[i]));
    assert(sorted.to_multiset().contains(sorted[i]));
    assert(s.to_multiset().contains(sorted[i]));
}

/// What was sorted is listed, or the list is full of what is no younger.
proof fn listed_or_full<A>(s: Seq<A>, age: spec_fn(A) -> int, n: int, x: A)
    requires
        0 <= n,
        s.contains(x),
    ensures
        first_n(sort_by_key(s, age), n).contains(x) || (first_n(sort_by_key(s, age), n).len() == n
            && forall|j: int|
            0 <= j < n ==> age(#[trigger] first_n(sort_by_key(s, age), n)[j]) <= age(x)),
{
    broadcast use vstd::seq_lib::group_to_multiset_ensures;

    let sorted = sort_by_key(s, age);
    let listed = first_n(sorted, n);
    sort_by_key_sorts(s, age);
    assert(s.to_multiset().contains(x));
    assert(sorted.to_multiset().contains(x));
    assert(sorted.contains(x));
    let i = choose|i: int| 0 <= i < sorted.len() && sorted[i] == x;
    if i < listed.len() {
        assert(listed[i] == x);
    } else {
        assert forall|j: int| 0 <= j < n implies age(#[trigger] listed[j]) <= age(x) by {
            assert(age(sorted[j]) <= age(sorted[i]));
        }
    }
}

/// The earliest sighting is one, and no sighting is earlier.
proof fn first_sighting_is_earliest(s: Seq<SightingView>, p: spec_fn(SightingView) -> bool)
    ensures
        match first_sighting(s, p) {
            Some(t) => {
                &&& exists|i: int| 0 <= i < s.len() && p(#[trigger] s[i]) && s[i].at == t
                &&& forall|i: int| 0 <= i < s.len() && p(#[trigger] s[i]) ==> t <= s[i].at
            },
            None => forall|i: int| 0 <= i < s.len() ==> !p(#[trigger] s[i]),
        },
    decreases s.len(),
{
    if s.len() > 0 {
        let t = s.drop_last();
        let n = s.len() - 1;
        first_sighting_is_earliest(t, p);
        assert forall|i: int| 0 <= i < n implies #[trigger] s[i] == t[i] by {}
        match first_sighting(t, p) {
            Some(at) => {
                let i = choose|i: int| 0 <= i < t.len() && p(#[trigger] t[i]) && t[i].at == at;
                assert(p(s[i]) && s[i].at == at);
                if p(s[n]) {
                    assert(s[n].at == s.last().at);
                }
                assert forall|j: int| 0 <= j < s.len() && p(#[trigger] s[j]) implies first_sighting(
                    s,
                    p,
                )->0 <= s[j].at by {
                    if j < n {
                        assert(p(t[j]));
                    }
                }
            },
            None => {
                assert forall|j: int| 0 <= j < n implies !p(#[trigger] s[j]) by {
                    assert(!p(t[j]));
                }
                if p(s[n]) {
                    assert(first_sighting(s, p) == Some(s[n].at));
                }
            },
        }
    }
}

/// The earliest of the sightings that rows give is the earliest of the rows.
proof fn sightings_are_rows(
    nodes: Seq<NodeRowView>,
    f: spec_fn(NodeRowView) -> Option<SightingView>,
    p: spec_fn(NodeRowView) -> bool,
    q: spec_fn(SightingView) -> bool,
)
    requires
        forall|r: NodeRowView| #[trigger] f(r) matches Some(s) ==> s.at == r.first_seen,
        forall|r: NodeRowView| (#[trigger] f(r) matches Some(s) && q(s)) <==> p(r),
    ensures
        match first_sighting(nodes.filter_map(f), q) {
            Some(t) => earliest_is(nodes, p, t),
            None => forall|i: int| 0 <= i < nodes.len() ==> !p(#[trigger] nodes[i]),
        },
{
    let s = nodes.filter_map(f);
    first_sighting_is_earliest(s, q);
    assert forall|i: int| 0 <= i < nodes.len() && p(#[trigger] nodes[i]) implies exists|k: int|
        0 <= k < s.len() && q(#[trigger] s[k]) && s[k].at == nodes[i].first_seen by {
        assert(f(nodes[i]) is Some);
        filter_map_keeps(nodes, f, i);
        let x = f(nodes[i])->0;
        let k = choose|k: int| 0 <= k < s.len() && s[k] == x;
        assert(q(s[k]) && s[k].at == nodes[i].first_seen);
    }
    match first_sighting(s, q) {
        Some(t) => {
            let k = choose|k: int| 0 <= k < s.len() && q(#[trigger] s[k]) && s[k].at == t;
            crate::seqs::filter_map_from(nodes, f, k);
            let i = choose|i: int| 0 <= i < nodes.len() && f(#[trigger] nodes[i]) == Some(s[k]);
            assert(p(nodes[i]) && nodes[i].first_seen == t);
            assert forall|i: int| 0 <= i < nodes.len() && p(#[trigger] nodes[i]) implies t
                <= nodes[i].first_seen by {
                let k = choose|k: int|
                    0 <= k < s.len() && q(#[trigger] s[k]) && s[k].at == nodes[i].first_seen;
                assert(q(s[k]));
            }
        },
        None => {
            assert forall|i: int| 0 <= i < nodes.len() implies !p(#[trigger] nodes[i]) by {
                if p(nodes[i]) {
                    let k = choose|k: int|
                        0 <= k < s.len() && q(#[trigger] s[k]) && s[k].at == nodes[i].first_seen;
                    assert(q(s[k]));
                }
            }
        },
    }
}

/// A program is listed as new since a time only if its earliest run, over all
/// of its runs, is at or after that time, and that is when it is said to be
/// first seen.
pub proof fn listed_program_is_new(nodes: Seq<NodeRowView>, from: i64, i: int)
    requires
        0 <= i < new_programs(nodes, from).len(),
    ensures
        ({
            let x = new_programs(nodes, from)[i];
            &&& x.first_seen_unix_ns >= from
            &&& x.comm is Some || x.exec_path is Some
            &&& earliest_is(nodes, is_run(x.comm, x.exec_path), x.first_seen_unix_ns)
        }),
{
    let s = nodes.filter_map(see_program());
    let keys = uniques(Seq::new(s.len(), |i: int| (s[i].key, s[i].other)));
    let f = new_program(s, from);
    let x = new_programs(nodes, from)[i];
    listed_is_from(keys.filter_map(f), program_age(), NOVELTY_CAP_PER_KIND as int, i);
    keys.lemma_filter_map_contains(f, x);
    let k = choose|k: (Option<Seq<char>>, Option<Seq<char>>)|
        keys.contains(k) && #[trigger] f(k) == Some(x);
    assert(f(k) == Some(x));
    sightings_are_rows(nodes, see_program(), is_run(k.0, k.1), is_program(k.0, k.1));
}

/// A program whose earliest run, over all of its runs, is at or after a time is
/// listed as new since then, or the list is full and nothing in it is younger.
pub proof fn new_program_is_listed(
    nodes: Seq<NodeRowView>,
    from: i64,
    comm: Option<Seq<char>>,
    exec_path: Option<Seq<char>>,
    t: i64,
)
    requires
        comm is Some || exec_path is Some,
        earliest_is(nodes, is_run(comm, exec_path), t),
        t >= from,
    ensures
        (exists|i: int|
            0 <= i < new_programs(nodes, from).len() && (#[trigger] new_programs(
                nodes,
                from,
            )[i]).comm == comm && new_programs(nodes, from)[i].exec_path == exec_path) || (
        new_programs(nodes, from).len() == NOVELTY_CAP_PER_KIND && forall|i: int|
            0 <= i < NOVELTY_CAP_PER_KIND ==> (#[trigger] new_programs(
                nodes,
                from,
            )[i]).first_seen_unix_ns <= t),
{
    let s = nodes.filter_map(see_program());
    let all = Seq::new(s.len(), |i: int| (s[i].key, s[i].other));
    let keys = uniques(all);
    let f = new_program(s, from);
    let p = is_run(comm, exec_path);
    let q = is_program(comm, exec_path);
    let key = (comm, exec_path);
    sightings_are_rows(nodes, see_program(), p, q);
    let i = choose|i: int|
        0 <= i < nodes.len() && p(#[trigger] nodes[i]) && nodes[i].first_seen == t;
    filter_map_keeps(nodes, see_program(), i);
    let k = choose|k: int| 0 <= k < s.len() && s[k] == see_program()(nodes[i])->0;
    assert(all[k] == key);
    assert(all.contains(key));
    uniques_are_distinct(all);
    assert(keys.contains(key));
    assert(first_sighting(s, q) is Some);
    let at = first_sighting(s, q)->0;
    assert(earliest_is(nodes, p, at));
    let j = choose|j: int|
        0 <= j < nodes.len() && p(#[trigger] nodes[j]) && nodes[j].first_seen == at;
    assert(at == t);
    let x = f(key)->0;
    assert(f(key) == Some(x));
    let m = choose|m: int| 0 <= m < keys.len() && keys[m] == key;
    filter_map_keeps(keys, f, m);
    listed_or_full(keys.filter_map(f), program_age(), NOVELTY_CAP_PER_KIND as int, x);
    let listed = new_programs(nodes, from);
    if listed.contains(x) {
        let n = choose|n: int| 0 <= n < listed.len() && listed[n] == x;
        assert(listed[n].comm == comm);
    } else {
        assert forall|n: int| 0 <= n < NOVELTY_CAP_PER_KIND implies (
        #[trigger] listed[n]).first_seen_unix_ns <= t by {
            assert(program_age()(listed[n]) <= program_age()(x));
        }
    }
}

/// An endpoint is listed as new since a time only if its earliest connection,
/// over all of its connections, is at or after that time, and that is when it
/// is said to be first seen.
pub proof fn listed_endpoint_is_new(nodes: Seq<NodeRowView>, from: i64, i: int)
    requires
        0 <= i < new_endpoints(nodes, from).len(),
    ensures
        ({
            let x = new_endpoints(nodes, from)[i];
            &&& x.first_seen_unix_ns >= from
            &&& earliest_is(nodes, is_connection_to(x.foreign_addr), x.first_seen_unix_ns)
        }),
{
    let s = nodes.filter_map(see_endpoint());
    let keys = uniques(Seq::new(s.len(), |i: int| s[i].key));
    let f = new_endpoint(s, from);
    let x = new_endpoints(nodes, from)[i];
    listed_is_from(keys.filter_map(f), endpoint_age(), NOVELTY_CAP_PER_KIND as int, i);
    keys.lemma_filter_map_contains(f, x);
    let k = choose|k: Option<Seq<char>>| keys.contains(k) && #[trigger] f(k) == Some(x);
    assert(f(k) == Some(x));
    sightings_are_rows(nodes, see_endpoint(), is_connection_to(k->0), is_endpoint(k));
}

/// An endpoint whose earliest connection, over all of its connections, is at or
/// after a time is listed as new since then, or the list is full and nothing in
/// it is younger.
pub proof fn new_endpoint_is_listed(nodes: Seq<NodeRowView>, from: i64, addr: Seq<char>, t: i64)
    requires
        earliest_is(nodes, is_connection_to(addr), t),
        t >= from,
    ensures
        (exists|i: int|
            0 <= i < new_endpoints(nodes, from).len() && (#[trigger] new_endpoints(
                nodes,
                from,
            )[i]).foreign_addr == addr) || (new_endpoints(nodes, from).len()
            == NOVELTY_CAP_PER_KIND && forall|i: int|
            0 <= i < NOVELTY_CAP_PER_KIND ==> (#[trigger] new_endpoints(
                nodes,
                from,
            )[i]).first_seen_unix_ns <= t),
{
    let s = nodes.filter_map(see_endpoint());
    let all = Seq::new(s.len(), |i: int| s[i].key);
    let keys = uniques(all);
    let f = new_endpoint(s, from);
    let p = is_connection_to(addr);
    let key = Some(addr);
    let q = is_endpoint(key);
    sightings_are_rows(nodes, see_endpoint(), p, q);
    let i = choose|i: int|
        0 <= i < nodes.len() && p(#[trigger] nodes[i]) && nodes[i].first_seen == t;
    filter_map_keeps(nodes, see_endpoint(), i);
    let k = choose|k: int| 0 <= k < s.len() && s[k] == see_endpoint()(nodes[i])->0;
    assert(all[k] == key);
    assert(all.contains(key));
    uniques_are_distinct(all);
    assert(keys.contains(key));
    let at = first_sighting(s, q)->0;
    assert(earliest_is(nodes, p, at));
    let j = choose|j: int|
        0 <= j < nodes.len() && p(#[trigger] nodes[j]) && nodes[j].first_seen == at;
    assert(at == t);
    let x = f(key)->0;
    assert(f(key) == Some(x));
    let m = choose|m: int| 0 <= m < keys.len() && keys[m] == key;
    filter_map_keeps(keys, f, m);
    listed_or_full(keys.filter_map(f), endpoint_age(), NOVELTY_CAP_PER_KIND as int, x);
    let listed = new_endpoints(nodes, from);
    if listed.contains(x) {
        let n = choose|n: int| 0 <= n < listed.len() && listed[n] == x;
        assert(listed[n].foreign_addr == addr);
    } else {
        assert forall|n: int| 0 <= n < NOVELTY_CAP_PER_KIND implies (
        #[trigger] listed[n]).first_seen_unix_ns <= t by {
            assert(endpoint_age()(listed[n]) <= endpoint_age()(x));
        }
    }
}

/// A name is listed as new since a time only if it was first seen at or after
/// that time and is not masked; an application only if it was first seen then.
pub proof fn listed_name_is_new(nodes: Seq<NodeRowView>, from: i64, i: int)
    requires
        distinct_by(nodes, node_key()),
    ensures
        0 <= i < new_domains(nodes, from).len() ==> forall|k: int|
            0 <= k < nodes.len() && (#[trigger] nodes[k]).kind == NodeKind::Domain && nodes[k].id
                == new_domains(nodes, from)[i] ==> nodes[k].first_seen >= from
                && nodes[k].attrs.bool_at("masked"@) != Some(true),
        0 <= i < new_apps(nodes, from).len() ==> forall|k: int|
            0 <= k < nodes.len() && (#[trigger] nodes[k]).kind == NodeKind::App && nodes[k].id
                == new_apps(nodes, from)[i].id ==> nodes[k].first_seen >= from,
{
    let key = node_key();
    if 0 <= i < new_domains(nodes, from).len() {
        let f = see_domain(from);
        let hits = nodes.filter_map(f);
        let x = first_n(sort_by_key(hits, sighting_age()), NOVELTY_CAP_PER_KIND as int)[i];
        listed_is_from(hits, sighting_age(), NOVELTY_CAP_PER_KIND as int, i);
        let h = choose|h: int| 0 <= h < hits.len() && hits[h] == x;
        crate::seqs::filter_map_from(nodes, f, h);
        let m = choose|m: int| 0 <= m < nodes.len() && f(#[trigger] nodes[m]) == Some(x);
        assert forall|k: int|
            0 <= k < nodes.len() && (#[trigger] nodes[k]).kind == NodeKind::Domain && nodes[k].id
                == new_domains(nodes, from)[i] implies nodes[k].first_seen >= from
            && nodes[k].attrs.bool_at("masked"@) != Some(true) by {
            if k < m {
                assert(key(nodes[k]) != key(nodes[m]));
            } else if m < k {
                assert(key(nodes[m]) != key(nodes[k]));
            }
        }
    }
    if 0 <= i < new_apps(nodes, from).len() {
        let f = see_app(from);
        let hits = nodes.filter_map(f);
        let x = first_n(sort_by_key(hits, sighting_age()), NOVELTY_CAP_PER_KIND as int)[i];
        listed_is_from(hits, sighting_age(), NOVELTY_CAP_PER_KIND as int, i);
        let h = choose|h: int| 0 <= h < hits.len() && hits[h] == x;
        crate::seqs::filter_map_from(nodes, f, h);
        let m = choose|m: int| 0 <= m < nodes.len() && f(#[trigger] nodes[m]) == Some(x);
        assert forall|k: int|
            0 <= k < nodes.len() && (#[trigger] nodes[k]).kind == NodeKind::App && nodes[k].id
                == new_apps(nodes, from)[i].id implies nodes[k].first_seen >= from by {
            if k < m {
                assert(key(nodes[k]) != key(nodes[m]));
            } else if m < k {
                assert(key(nodes[m]) != key(nodes[k]));
            }
        }
    }
}

/// A name that was first seen at or after a time and is not masked, and an
/// application that was first seen then, is listed as new since then, or the
/// list is full.
pub proof fn new_name_is_listed(nodes: Seq<NodeRowView>, from: i64, k: int)
    requires
        0 <= k < nodes.len(),
        nodes[k].first_seen >= from,
    ensures
        nodes[k].kind == NodeKind::Domain && nodes[k].attrs.bool_at("masked"@) != Some(true)
            ==> new_domains(nodes, from).contains(nodes[k].id) || new_domains(nodes, from).len()
            == NOVELTY_CAP_PER_KIND,
        nodes[k].kind == NodeKind::App ==> (exists|i: int|
            0 <= i < new_apps(nodes, from).len() && (#[trigger] new_apps(nodes, from)[i]).id
                == nodes[k].id) || new_apps(nodes, from).len() == NOVELTY_CAP_PER_KIND,
{
    let cap = NOVELTY_CAP_PER_KIND as int;
    if nodes[k].kind == NodeKind::Domain && nodes[k].attrs.bool_at("masked"@) != Some(true) {
        let f = see_domain(from);
        let x = f(nodes[k])->0;
        filter_map_keeps(nodes, f, k);
        listed_or_full(nodes.filter_map(f), sighting_age(), cap, x);
        let s = first_n(sort_by_key(nodes.filter_map(f), sighting_age()), cap);
        if s.contains(x) {
            let i = choose|i: int| 0 <= i < s.len() && s[i] == x;
            assert(new_domains(nodes, from)[i] == nodes[k].id);
        }
    }
    if nodes[k].kind == NodeKind::App {
        let f = see_app(from);
        let x = f(nodes[k])->0;
        filter_map_keeps(nodes, f, k);
        listed_or_full(nodes.filter_map(f), sighting_age(), cap, x);
        let s = first_n(sort_by_key(nodes.filter_map(f), sighting_age()), cap);
        if s.contains(x) {
            let i = choose|i: int| 0 <= i < s.len() && s[i] == x;
            assert(new_apps(nodes, from)[i].id == nodes[k].id);
        }
    }
}

// ---------- each once, oldest first -------------------------------------------------

/// What is kept has different keys, where all that could be kept has.
proof fn kept_keys_differ<A, B, K>(s: Seq<A>, f: spec_fn(A) -> Option<B>, key: spec_fn(B) -> K)
    requires
        forall|i: int, j: int|
            0 <= i < j < s.len() && f(#[trigger] s[i]) is Some && f(#[trigger] s[j]) is Some
                ==> key(f(s[i])->0) != key(f(s[j])->0),
    ensures
        distinct_by(s.filter_map(f), key),
    decreases s.len(),
{
    take_all(s);
    if s.len() == 0 {
        filter_map_start(s, f);
    } else {
        let n = s.len() - 1;
        let t = s.take(n);
        assert forall|i: int, j: int|
            0 <= i < j < t.len() && f(#[trigger] t[i]) is Some && f(
                #[trigger] t[j],
            ) is Some implies key(f(t[i])->0) != key(f(t[j])->0) by {
            assert(t[i] == s[i] && t[j] == s[j]);
        }
        kept_keys_differ(t, f, key);
        filter_map_step(s, f, n);
        let kept = t.filter_map(f);
        let all = s.filter_map(f);
        assert forall|i: int, j: int| 0 <= i < j < all.len() implies key(#[trigger] all[i]) != key(
            #[trigger] all[j],
        ) by {
            if j < kept.len() {
                assert(key(kept[i]) != key(kept[j]));
            } else {
                crate::seqs::filter_map_from(t, f, i);
                let a = choose|a: int| 0 <= a < t.len() && f(#[trigger] t[a]) == Some(kept[i]);
                assert(f(s[a]) is Some && f(s[n]) is Some);
                assert(key(f(s[a])->0) != key(f(s[n])->0));
            }
        }
    }
}

/// What is listed has different keys, where what was sorted has, and is in
/// order.
proof fn listed_once_in_order<A, K>(
    s: Seq<A>,
    age: spec_fn(A) -> int,
    key: spec_fn(A) -> K,
    n: int,
    i: int,
    j: int,
)
    requires
        0 <= n,
        distinct_by(s, key),
        0 <= i < j < first_n(sort_by_key(s, age), n).len(),
    ensures
        key(first_n(sort_by_key(s, age), n)[i]) != key(first_n(sort_by_key(s, age), n)[j]),
        age(first_n(sort_by_key(s, age), n)[i]) <= age(first_n(sort_by_key(s, age), n)[j]),
{
    let sorted = sort_by_key(s, age);
    sort_by_key_sorts(s, age);
    assert(s.no_duplicates()) by {
        assert forall|a: int, b: int| 0 <= a < s.len() && 0 <= b < s.len() && a != b implies s[a]
            != s[b] by {
            if a < b {
                assert(key(s[a]) != key(s[b]));
            } else {
                assert(key(s[b]) != key(s[a]));
            }
        }
    }
    rearranged_stays_distinct(s, sorted);
    assert(sorted[i] != sorted[j]);
    listed_is_from(s, age, n, i);
    listed_is_from(s, age, n, j);
    let a = choose|a: int| 0 <= a < s.len() && s[a] == sorted[i];
    let b = choose|b: int| 0 <= b < s.len() && s[b] == sorted[j];
    assert(a != b);
    if a < b {
        assert(key(s[a]) != key(s[b]));
    } else {
        assert(key(s[b]) != key(s[a]));
    }
    assert(age(sorted[i]) <= age(sorted[j]));
}

/// A program is listed once, and programs are listed oldest first.
pub proof fn programs_stand_once_in_order(nodes: Seq<NodeRowView>, from: i64, i: int, j: int)
    requires
        0 <= i < j < new_programs(nodes, from).len(),
    ensures
        ({
            let (a, b) = (new_programs(nodes, from)[i], new_programs(nodes, from)[j]);
            &&& (a.comm, a.exec_path) != (b.comm, b.exec_path)
            &&& a.first_seen_unix_ns <= b.first_seen_unix_ns
        }),
{
    let s = nodes.filter_map(see_program());
    let all = Seq::new(s.len(), |i: int| (s[i].key, s[i].other));
    let keys = uniques(all);
    let f = new_program(s, from);
    let key = |x: NewProcessIdentityView| (x.comm, x.exec_path);
    uniques_are_distinct(all);
    assert forall|a: int, b: int|
        0 <= a < b < keys.len() && f(#[trigger] keys[a]) is Some && f(
            #[trigger] keys[b],
        ) is Some implies key(f(keys[a])->0) != key(f(keys[b])->0) by {
        assert(keys[a] != keys[b]);
    }
    kept_keys_differ(keys, f, key);
    listed_once_in_order(
        keys.filter_map(f),
        program_age(),
        key,
        NOVELTY_CAP_PER_KIND as int,
        i,
        j,
    );
    let (a, b) = (new_programs(nodes, from)[i], new_programs(nodes, from)[j]);
    assert(key(a) != key(b));
    assert(program_age()(a) <= program_age()(b));
}

/// An endpoint is listed once, and endpoints are listed oldest first.
pub proof fn endpoints_stand_once_in_order(nodes: Seq<NodeRowView>, from: i64, i: int, j: int)
    requires
        0 <= i < j < new_endpoints(nodes, from).len(),
    ensures
        ({
            let (a, b) = (new_endpoints(nodes, from)[i], new_endpoints(nodes, from)[j]);
            &&& a.foreign_addr != b.foreign_addr
            &&& a.first_seen_unix_ns <= b.first_seen_unix_ns
        }),
{
    let s = nodes.filter_map(see_endpoint());
    let all = Seq::new(s.len(), |i: int| s[i].key);
    let keys = uniques(all);
    let f = new_endpoint(s, from);
    let key = |x: NewEndpointView| x.foreign_addr;
    uniques_are_distinct(all);
    assert forall|a: int, b: int|
        0 <= a < b < keys.len() && f(#[trigger] keys[a]) is Some && f(
            #[trigger] keys[b],
        ) is Some implies key(f(keys[a])->0) != key(f(keys[b])->0) by {
        assert(keys[a] != keys[b]);
    }
    kept_keys_differ(keys, f, key);
    listed_once_in_order(
        keys.filter_map(f),
        endpoint_age(),
        key,
        NOVELTY_CAP_PER_KIND as int,
        i,
        j,
    );
    let (a, b) = (new_endpoints(nodes, from)[i], new_endpoints(nodes, from)[j]);
    assert(key(a) != key(b));
    assert(endpoint_age()(a) <= endpoint_age()(b));
}

/// Whether a row is of a kind and an id and was first seen at a time.
pub open spec fn was_first_seen(
    nodes: Seq<NodeRowView>,
    kind: NodeKind,
    id: Seq<char>,
    at: i64,
) -> bool {
    exists|k: int|
        0 <= k < nodes.len() && (#[trigger] nodes[k]).kind == kind && nodes[k].id == id
            && nodes[k].first_seen == at
}

/// The sightings of one kind of node that has a row each: two that are listed
/// are of different ids, and the earlier comes first.
proof fn sightings_stand_once_in_order(
    nodes: Seq<NodeRowView>,
    f: spec_fn(NodeRowView) -> Option<SightingView>,
    kind: NodeKind,
    i: int,
    j: int,
)
    requires
        distinct_by(nodes, node_key()),
        forall|r: NodeRowView|
            #[trigger] f(r) matches Some(s) ==> r.kind == kind && s.key == Some(r.id) && s.at
                == r.first_seen,
        0 <= i < j < first_n(
            sort_by_key(nodes.filter_map(f), sighting_age()),
            NOVELTY_CAP_PER_KIND as int,
        ).len(),
    ensures
        ({
            let s = first_n(
                sort_by_key(nodes.filter_map(f), sighting_age()),
                NOVELTY_CAP_PER_KIND as int,
            );
            &&& s[i].key->0 != s[j].key->0
            &&& s[i].at <= s[j].at
            &&& was_first_seen(nodes, kind, s[i].key->0, s[i].at)
            &&& was_first_seen(nodes, kind, s[j].key->0, s[j].at)
        }),
{
    let cap = NOVELTY_CAP_PER_KIND as int;
    let hits = nodes.filter_map(f);
    let s = first_n(sort_by_key(hits, sighting_age()), cap);
    let key = |x: SightingView| x.key->0;
    let row_key = node_key();
    assert forall|a: int, b: int|
        0 <= a < b < nodes.len() && f(#[trigger] nodes[a]) is Some && f(
            #[trigger] nodes[b],
        ) is Some implies key(f(nodes[a])->0) != key(f(nodes[b])->0) by {
        assert(row_key(nodes[a]) != row_key(nodes[b]));
    }
    kept_keys_differ(nodes, f, key);
    listed_once_in_order(hits, sighting_age(), key, cap, i, j);
    assert(key(s[i]) != key(s[j]));
    assert(sighting_age()(s[i]) <= sighting_age()(s[j]));
    assert forall|m: int| m == i || m == j implies was_first_seen(
        nodes,
        kind,
        (#[trigger] s[m]).key->0,
        s[m].at,
    ) by {
        listed_is_from(hits, sighting_age(), cap, m);
        let h = choose|h: int| 0 <= h < hits.len() && hits[h] == s[m];
        crate::seqs::filter_map_from(nodes, f, h);
        let k = choose|k: int| 0 <= k < nodes.len() && f(#[trigger] nodes[k]) == Some(hits[h]);
        assert(nodes[k].kind == kind && nodes[k].id == s[m].key->0);
    }
}

/// A name is listed once, and names are listed oldest first.
pub proof fn names_stand_once_in_order(nodes: Seq<NodeRowView>, from: i64, i: int, j: int)
    requires
        distinct_by(nodes, node_key()),
        0 <= i < j < new_domains(nodes, from).len(),
    ensures
        new_domains(nodes, from)[i] != new_domains(nodes, from)[j],
        exists|a: i64, b: i64|
            a <= b && #[trigger] was_first_seen(
                nodes,
                NodeKind::Domain,
                new_domains(nodes, from)[i],
                a,
            ) && #[trigger] was_first_seen(
                nodes,
                NodeKind::Domain,
                new_domains(nodes, from)[j],
                b,
            ),
{
    let f = see_domain(from);
    sightings_stand_once_in_order(nodes, f, NodeKind::Domain, i, j);
    let s = first_n(
        sort_by_key(nodes.filter_map(f), sighting_age()),
        NOVELTY_CAP_PER_KIND as int,
    );
    assert(new_domains(nodes, from)[i] == s[i].key->0);
    assert(new_domains(nodes, from)[j] == s[j].key->0);
}

/// An application is listed once, and applications are listed oldest first.
pub proof fn apps_stand_once_in_order(nodes: Seq<NodeRowView>, from: i64, i: int, j: int)
    requires
        distinct_by(nodes, node_key()),
        0 <= i < j < new_apps(nodes, from).len(),
    ensures
        new_apps(nodes, from)[i].id != new_apps(nodes, from)[j].id,
        exists|a: i64, b: i64|
            a <= b && #[trigger] was_first_seen(
                nodes,
                NodeKind::App,
                new_apps(nodes, from)[i].id,
                a,
            ) && #[trigger] was_first_seen(nodes, NodeKind::App, new_apps(nodes, from)[j].id, b),
{
    let f = see_app(from);
    sightings_stand_once_in_order(nodes, f, NodeKind::App, i, j);
    let s = first_n(
        sort_by_key(nodes.filter_map(f), sighting_age()),
        NOVELTY_CAP_PER_KIND as int,
    );
    assert(new_apps(nodes, from)[i].id == s[i].key->0);
    assert(new_apps(nodes, from)[j].id == s[j].key->0);
}

/// The oldest sighting of all is the earliest at which a node was first seen;
/// there is none exactly if there are no nodes.
pub proof fn oldest_is_earliest(nodes: Seq<NodeRowView>)
    ensures
        match earliest(nodes) {
            Some(t) => earliest_is(nodes, |r: NodeRowView| true, t),
            None => nodes.len() == 0,
        },
    decreases nodes.len(),
{
    if nodes.len() > 0 {
        let t = nodes.drop_last();
        let n = nodes.len() - 1;
        let any = |r: NodeRowView| true;
        oldest_is_earliest(t);
        let at = earliest(nodes)->0;
        if at == nodes[n].first_seen {
            assert(any(nodes[n]));
        } else {
            let i = choose|i: int|
                0 <= i < t.len() && (|r: NodeRowView| true)(#[trigger] t[i]) && t[i].first_seen
                    == earliest(t)->0;
            assert(nodes[i] == t[i] && any(nodes[i]));
        }
        assert forall|i: int| 0 <= i < nodes.len() && any(#[trigger] nodes[i]) implies at
            <= nodes[i].first_seen by {
            if i < n {
                assert((|r: NodeRowView| true)(t[i]));
                assert(t[i] == nodes[i]);
            }
        }
    }
}

} // verus!
