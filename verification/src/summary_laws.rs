//! What holds of the facts that sum up a window of events: what is counted, what
//! is named and in which order.

use vstd::prelude::*;

use crate::analytics::wrapped;
use crate::events::{EventKind, EventView};
use crate::order::first_n;
use crate::seqs::{
    count_where, counted_is_there, filter_map_from, filter_map_keeps, filter_map_start,
    filter_map_step, sum_of, take_all, uniques, uniques_are_distinct,
};
use crate::tally::{
    amount_of, by_amount, keys_of, rank_lt, ranked, ranked_is_in_order, totals,
    totals_are_distinct,
};
use crate::timeline::{
    asked_by, bucket, busiest, by_lookups, changed, client_fact, clients, hash_asked_by, is_noisy,
    leading_clients, liveliest, looked_up, name_asked_by, spawned, top_texts, DirectoryFactView,
    DnsClientFactView, ProcessFactView,
};

verus! {

// ---------- tallies ----------------------------------------------------------------

/// The elements of a ranked sequence are those that were ranked.
pub proof fn ranked_has_the_same<A>(s: Seq<A>, rank: spec_fn(A) -> (u64, u64, Seq<char>), x: A)
    ensures
        ranked(s, rank).contains(x) <==> s.contains(x),
        ranked(s, rank).len() == s.len(),
{
    broadcast use vstd::seq_lib::group_to_multiset_ensures;

    ranked_is_in_order(s, rank);
    assert(ranked(s, rank).contains(x) <==> ranked(s, rank).to_multiset().count(x) > 0);
    assert(s.contains(x) <==> s.to_multiset().count(x) > 0);
}

/// What is kept with an amount of one each sums up to a count.
pub(crate) proof fn sum_is_count<A>(
    s: Seq<A>,
    f: spec_fn(A) -> Option<(Seq<char>, u64)>,
    k: Seq<char>,
    p: spec_fn(A) -> bool,
)
    requires
        forall|a: A| #[trigger] f(a) matches Some(x) ==> x.1 == 1,
        forall|a: A| #[trigger] p(a) <==> (f(a) matches Some(x) && x.0 == k),
    ensures
        sum_of(s.filter_map(f), amount_of(k)) == count_where(s, p),
        count_where(s, p) <= s.len(),
    decreases s.len(),
{
    if s.len() == 0 {
        filter_map_start(s, f);
        take_all(s);
    } else {
        let n = s.len() - 1;
        let t = s.take(n);
        assert(s.drop_last() =~= t);
        sum_is_count(t, f, k, p);
        filter_map_step(s, f, n);
        take_all(s);
        let before = t.filter_map(f);
        match f(s[n]) {
            Some(x) => {
                assert(s.filter_map(f) =~= before.push(x));
                assert(before.push(x).drop_last() =~= before);
            },
            None => {},
        }
        assert(p(s[n]) <==> (f(s[n]) matches Some(x) && x.0 == k));
    }
}

/// A total is the sum of the amounts of a key that is there, and every key that
/// is there has one.
pub(crate) proof fn totals_are_sums(entries: Seq<(Seq<char>, u64)>, e: (Seq<char>, u64))
    ensures
        totals(entries).contains(e) <==> keys_of(entries).contains(e.0) && e.1 == wrapped(
            sum_of(entries, amount_of(e.0)),
        ),
{
    let keys = uniques(keys_of(entries));
    let all = totals(entries);
    uniques_are_distinct(keys_of(entries));
    if all.contains(e) {
        let i = choose|i: int| 0 <= i < all.len() && all[i] == e;
        assert(keys[i] == e.0);
        assert(keys.contains(e.0));
    }
    if keys_of(entries).contains(e.0) && e.1 == wrapped(sum_of(entries, amount_of(e.0))) {
        assert(keys.contains(e.0));
        let i = choose|i: int| 0 <= i < keys.len() && keys[i] == e.0;
        assert(all[i] == e);
    }
}

/// A key is among what is kept exactly if some element has it.
pub(crate) proof fn key_is_kept<A>(
    s: Seq<A>,
    f: spec_fn(A) -> Option<(Seq<char>, u64)>,
    k: Seq<char>,
    p: spec_fn(A) -> bool,
)
    requires
        forall|a: A| #[trigger] p(a) <==> (f(a) matches Some(x) && x.0 == k),
    ensures
        keys_of(s.filter_map(f)).contains(k) <==> count_where(s, p) > 0,
{
    let kept = s.filter_map(f);
    if keys_of(kept).contains(k) {
        let m = choose|m: int| 0 <= m < keys_of(kept).len() && keys_of(kept)[m] == k;
        filter_map_from(s, f, m);
        let i = choose|i: int| 0 <= i < s.len() && f(#[trigger] s[i]) == Some(kept[m]);
        assert(p(s[i]));
        is_counted(s, p, i);
    }
    if count_where(s, p) > 0 {
        counted_is_there(s, p);
        let i = choose|i: int| 0 <= i < s.len() && p(#[trigger] s[i]);
        filter_map_keeps(s, f, i);
        let x = f(s[i])->0;
        let m = choose|m: int| 0 <= m < kept.len() && kept[m] == x;
        assert(keys_of(kept)[m] == k);
    }
}

/// What satisfies a predicate counts.
pub(crate) proof fn is_counted<A>(s: Seq<A>, p: spec_fn(A) -> bool, i: int)
    requires
        0 <= i < s.len(),
        p(s[i]),
    ensures
        count_where(s, p) > 0,
    decreases s.len(),
{
    if i < s.len() - 1 {
        assert(s.drop_last()[i] == s[i]);
        is_counted(s.drop_last(), p, i);
    }
}

/// Of some counts by name, those that are listed: at most `cap`, the largest
/// first, equal ones in the order of their names, each name once and with its
/// count. A name that is counted and not listed finds the list full of counts
/// that are no smaller.
pub open spec fn tells_largest(
    listed: Seq<(Seq<char>, u64)>,
    cap: int,
    count: spec_fn(Seq<char>) -> nat,
) -> bool {
    &&& listed.len() <= cap
    &&& forall|i: int|
        0 <= i < listed.len() ==> (#[trigger] listed[i]).1 == count(listed[i].0) && listed[i].1 > 0
    &&& forall|i: int, j: int|
        0 <= i < j < listed.len() ==> (#[trigger] listed[i]).1 >= (#[trigger] listed[j]).1
            && listed[i].0 != listed[j].0
    &&& forall|k: Seq<char>|
        #[trigger] count(k) > 0 ==> (exists|i: int| 0 <= i < listed.len() && (#[trigger] listed[i]).0
            == k) || (listed.len() == cap && forall|i: int|
            0 <= i < listed.len() ==> (#[trigger] listed[i]).1 >= count(k))
}

pub(crate) proof fn top_tells_largest(
    entries: Seq<(Seq<char>, u64)>,
    cap: int,
    count: spec_fn(Seq<char>) -> nat,
)
    requires
        cap >= 0,
        forall|k: Seq<char>| #[trigger] count(k) <= u64::MAX,
        forall|k: Seq<char>| #[trigger] count(k) == sum_of(entries, amount_of(k)),
        forall|k: Seq<char>| #[trigger] count(k) > 0 <==> keys_of(entries).contains(k),
    ensures
        tells_largest(top_texts(entries, cap), cap, count),
{
    let all = totals(entries);
    let order = ranked(all, by_amount());
    let listed = top_texts(entries, cap);
    ranked_is_in_order(all, by_amount());
    totals_are_distinct(entries);
    assert forall|i: int| 0 <= i < order.len() implies (#[trigger] order[i]).1 == count(order[i].0)
        && order[i].1 > 0 by {
        assert(order.contains(order[i]));
        ranked_has_the_same(all, by_amount(), order[i]);
        totals_are_sums(entries, order[i]);
        assert(count(order[i].0) > 0);
    }
    assert forall|i: int, j: int| 0 <= i < j < order.len() implies (#[trigger] order[i]).1 >= (
    #[trigger] order[j]).1 && order[i].0 != order[j].0 by {
        assert(!rank_lt(by_amount()(order[j]), by_amount()(order[i])));
        if order[i].0 == order[j].0 {
            assert(order[i] == order[j]);
            ranked_keeps_distinct(all, i, j);
        }
    }
    assert forall|k: Seq<char>| #[trigger] count(k) > 0 implies (exists|i: int|
        0 <= i < listed.len() && (#[trigger] listed[i]).0 == k) || (listed.len() == cap && forall|
        i: int,
    |
        0 <= i < listed.len() ==> (#[trigger] listed[i]).1 >= count(k)) by {
        let e = (k, wrapped(sum_of(entries, amount_of(k))));
        totals_are_sums(entries, e);
        ranked_has_the_same(all, by_amount(), e);
        let m = choose|m: int| 0 <= m < order.len() && order[m] == e;
        if m < listed.len() {
            assert(listed[m].0 == k);
        } else {
            assert forall|i: int| 0 <= i < listed.len() implies (#[trigger] listed[i]).1 >= count(
                k,
            ) by {
                assert(order[i].1 >= order[m].1);
            }
        }
    }
}

/// Ranking keeps the names apart.
proof fn ranked_keeps_distinct(all: Seq<(Seq<char>, u64)>, i: int, j: int)
    requires
        keys_of(all).no_duplicates(),
        0 <= i < j < ranked(all, by_amount()).len(),
    ensures
        ranked(all, by_amount())[i] != ranked(all, by_amount())[j],
{
    let order = ranked(all, by_amount());
    ranked_is_in_order(all, by_amount());
    assert(all.no_duplicates()) by {
        assert forall|a: int, b: int| 0 <= a < b < all.len() implies all[a] != all[b] by {
            assert(keys_of(all)[a] != keys_of(all)[b]);
        }
    }
    crate::seqs::rearranged_stays_distinct(all, order);
}

// ---------- programs ---------------------------------------------------------------

/// The programs that run in the background all the time.
pub open spec fn background() -> Seq<Seq<char>> {
    seq![
        "mdworker_shared"@,
        "mdworker"@,
        "mds_stores"@,
        "mds"@,
        "WindowServer"@,
        "loginwindow"@,
        "launchd"@,
        "syspolicyd"@,
        "notifyd"@,
        "distnoted"@,
    ]
}

/// Whether an event is a start of a program that does not always run.
pub open spec fn starts(comm: Seq<char>) -> spec_fn(EventView) -> bool {
    |e: EventView|
        e.kind == EventKind::ProcessBirth && e.payload.str_at("comm"@) == Some(comm)
            && !background().contains(comm)
}

pub(crate) proof fn background_is_noisy(c: Seq<char>)
    ensures
        background().contains(c) <==> is_noisy(c),
{
    let b = background();
    assert(b[0] == "mdworker_shared"@ && b[1] == "mdworker"@ && b[2] == "mds_stores"@);
    assert(b[3] == "mds"@ && b[4] == "WindowServer"@ && b[5] == "loginwindow"@);
    assert(b[6] == "launchd"@ && b[7] == "syspolicyd"@ && b[8] == "notifyd"@);
    assert(b[9] == "distnoted"@);
}

/// How often a program was started.
pub open spec fn start_count(events: Seq<EventView>) -> spec_fn(Seq<char>) -> nat {
    |c: Seq<char>| count_where(events, starts(c))
}

/// The programs that were started most often are named, up to eight, with the
/// number of their starts; those that always run are not.
pub proof fn programs_are_counted(events: Seq<EventView>)
    requires
        events.len() <= u32::MAX,
    ensures
        exists|listed: Seq<(Seq<char>, u64)>| #[trigger]
            tells_largest(listed, 8, start_count(events)) && busiest(
                events.filter_map(spawned()),
            ).len() == listed.len() && forall|i: int|
                0 <= i < listed.len() ==> busiest(events.filter_map(spawned()))[i] == (
                ProcessFactView { comm: (#[trigger] listed[i]).0, spawns: listed[i].1 as u32 })
                    && listed[i].1 <= u32::MAX,
{
    let f = spawned();
    let entries = events.filter_map(f);
    let count = start_count(events);
    assert forall|k: Seq<char>| #[trigger]
        count(k) == sum_of(entries, amount_of(k)) && count(k) <= events.len() && (count(k) > 0
            <==> keys_of(entries).contains(k)) by {
        assert forall|e: EventView| #[trigger] starts(k)(e) <==> (f(e) matches Some(x) && x.0
            == k) by {
            background_is_noisy(k);
        }
        sum_is_count(events, f, k, starts(k));
        key_is_kept(events, f, k, starts(k));
    }
    top_tells_largest(entries, 8, count);
    let listed = top_texts(entries, 8);
    assert forall|i: int| 0 <= i < listed.len() implies busiest(entries)[i] == (ProcessFactView {
        comm: (#[trigger] listed[i]).0,
        spawns: listed[i].1 as u32,
    }) && listed[i].1 <= u32::MAX by {
        assert(listed[i].1 == count(listed[i].0));
    }
    assert(tells_largest(listed, 8, count));
}

// ---------- directories ------------------------------------------------------------

/// Whether an event is a change of a file that counts for a directory.
pub open spec fn changes(dir: Seq<char>) -> spec_fn(EventView) -> bool {
    |e: EventView|
        e.kind == EventKind::FileChanged && (e.payload.str_at("path"@) matches Some(p) && bucket(p)
            == dir)
}

/// How often the files of a directory changed.
pub open spec fn change_count(events: Seq<EventView>) -> spec_fn(Seq<char>) -> nat {
    |d: Seq<char>| count_where(events, changes(d))
}

/// The directories with the most changes are named, up to six, with the number
/// of changes.
pub proof fn directories_are_counted(events: Seq<EventView>)
    requires
        events.len() <= u32::MAX,
    ensures
        exists|listed: Seq<(Seq<char>, u64)>| #[trigger]
            tells_largest(listed, 6, change_count(events)) && liveliest(
                events.filter_map(changed()),
            ).len() == listed.len() && forall|i: int|
                0 <= i < listed.len() ==> liveliest(events.filter_map(changed()))[i] == (
                DirectoryFactView {
                    directory: (#[trigger] listed[i]).0,
                    file_changes: listed[i].1 as u32,
                }) && listed[i].1 <= u32::MAX,
{
    let f = changed();
    let entries = events.filter_map(f);
    let count = change_count(events);
    assert forall|k: Seq<char>| #[trigger]
        count(k) == sum_of(entries, amount_of(k)) && count(k) <= events.len() && (count(k) > 0
            <==> keys_of(entries).contains(k)) by {
        assert forall|e: EventView| #[trigger] changes(k)(e) <==> (f(e) matches Some(x) && x.0
            == k) by {}
        sum_is_count(events, f, k, changes(k));
        key_is_kept(events, f, k, changes(k));
    }
    top_tells_largest(entries, 6, count);
    let listed = top_texts(entries, 6);
    assert forall|i: int| 0 <= i < listed.len() implies liveliest(entries)[i] == (
    DirectoryFactView {
        directory: (#[trigger] listed[i]).0,
        file_changes: listed[i].1 as u32,
    }) && listed[i].1 <= u32::MAX by {
        assert(listed[i].1 == count(listed[i].0));
    }
    assert(tells_largest(listed, 6, count));
}

// ---------- name lookups -----------------------------------------------------------

/// Whether an event is a lookup by a client; one without a client goes by a
/// question mark.
pub open spec fn asks(client: Seq<char>) -> spec_fn(EventView) -> bool {
    |e: EventView|
        e.kind == EventKind::DnsQuery && match e.payload.str_at("client_process_name"@) {
            Some(c) => c == client,
            None => client == "?"@,
        }
}

/// Whether a client looked up the name with a hash.
pub open spec fn asked_hash(events: Seq<EventView>, client: Seq<char>, hash: Seq<char>) -> bool {
    hash.len() > 0 && exists|i: int|
        0 <= i < events.len() && asks(client)(#[trigger] events[i]) && events[i].payload.str_at(
            "name_hash"@,
        ) == Some(hash)
}

/// Whether a name is another without the dots at its end.
pub open spec fn is_undotted(name: Seq<char>, q: Seq<char>) -> bool {
    &&& name.len() > 0
    &&& name.last() != '.'
    &&& name.len() <= q.len()
    &&& name == q.take(name.len() as int)
    &&& forall|i: int| name.len() <= i < q.len() ==> #[trigger] q[i] == '.'
}

/// Whether a client looked up a name that was not masked.
pub open spec fn asked_name(events: Seq<EventView>, client: Seq<char>, name: Seq<char>) -> bool {
    exists|i: int|
        0 <= i < events.len() && asks(client)(#[trigger] events[i])
            && events[i].payload.bool_at("masked"@) == Some(false) && (events[i].payload.str_at(
            "qname"@,
        ) matches Some(q) && is_undotted(name, q))
}

/// Whether texts are the hashes of the names that a client looked up, each once.
pub open spec fn are_hashes(texts: Seq<Seq<char>>, events: Seq<EventView>, client: Seq<char>) -> bool {
    texts.no_duplicates() && forall|t: Seq<char>|
        texts.contains(t) <==> #[trigger] asked_hash(events, client, t)
}

/// Whether a fact tells what a client looked up: how many different names, how
/// many lookups, and up to three names that were not masked.
pub open spec fn tells_lookups(f: DnsClientFactView, events: Seq<EventView>) -> bool {
    let c = f.process_name;
    &&& f.total_queries == count_where(events, asks(c))
    &&& f.total_queries > 0
    &&& exists|hashes: Seq<Seq<char>>| #[trigger]
        are_hashes(hashes, events, c) && f.unique_names == hashes.len()
    &&& f.example_names.no_duplicates()
    &&& f.example_names.len() <= 3
    &&& forall|t: Seq<char>|
        f.example_names.contains(t) ==> #[trigger] asked_name(events, c, t)
    &&& f.example_names.len() < 3 ==> forall|t: Seq<char>| #[trigger]
        asked_name(events, c, t) ==> f.example_names.contains(t)
}

proof fn undotted_is_prefix(q: Seq<char>)
    ensures
        ({
            let u = crate::timeline::undotted(q);
            &&& u.len() <= q.len()
            &&& u == q.take(u.len() as int)
            &&& u.len() > 0 ==> u.last() != '.'
            &&& forall|i: int| u.len() <= i < q.len() ==> #[trigger] q[i] == '.'
        }),
    decreases q.len(),
{
    let u = crate::timeline::undotted(q);
    if q.len() > 0 && q.last() == '.' {
        let t = q.drop_last();
        undotted_is_prefix(t);
        assert(u =~= q.take(u.len() as int));
        assert forall|i: int| u.len() <= i < q.len() implies #[trigger] q[i] == '.' by {
            if i < t.len() {
                assert(t[i] == '.');
            }
        }
    } else {
        assert(q.take(q.len() as int) =~= q);
    }
}

proof fn undotted_is_one(name: Seq<char>, q: Seq<char>)
    requires
        name.len() > 0,
    ensures
        is_undotted(name, q) <==> crate::timeline::undotted(q) == name,
{
    let u = crate::timeline::undotted(q);
    undotted_is_prefix(q);
    if is_undotted(name, q) {
        if u.len() < name.len() {
            assert(q[name.len() - 1] == '.');
            assert(name[name.len() - 1] == q[name.len() - 1]);
        } else if u.len() > name.len() {
            assert(q[u.len() - 1] == '.');
            assert(u[u.len() - 1] == q[u.len() - 1]);
        }
    }
}

proof fn lookups_are_of_events(events: Seq<EventView>, c: Seq<char>)
    ensures
        count_where(events.filter_map(looked_up()), asked_by(c)) == count_where(events, asks(c)),
        forall|h: Seq<char>|
            events.filter_map(looked_up()).filter_map(hash_asked_by(c)).contains(h) <==> #[trigger]
                asked_hash(events, c, h),
        forall|t: Seq<char>|
            events.filter_map(looked_up()).filter_map(name_asked_by(c)).contains(t) <==> #[trigger]
                asked_name(events, c, t),
        clients(events.filter_map(looked_up())).contains(c) <==> count_where(events, asks(c)) > 0,
{
    let f = looked_up();
    let ls = events.filter_map(f);
    crate::seqs::count_kept(events, f, asked_by(c));
    assert forall|e: EventView| #[trigger]
        crate::seqs::keeps_where(f, asked_by(c))(e) == asks(c)(e) by {}
    same_count(events, crate::seqs::keeps_where(f, asked_by(c)), asks(c));
    assert forall|h: Seq<char>|
        ls.filter_map(hash_asked_by(c)).contains(h) <==> #[trigger] asked_hash(events, c, h) by {
        kept_twice(events, f, hash_asked_by(c), h);
        if ls.filter_map(hash_asked_by(c)).contains(h) {
            let i = choose|i: int|
                0 <= i < events.len() && (f(#[trigger] events[i]) matches Some(l)
                    && hash_asked_by(c)(l) == Some(h));
            assert(asks(c)(events[i]));
        }
        if asked_hash(events, c, h) {
            let i = choose|i: int|
                0 <= i < events.len() && asks(c)(#[trigger] events[i])
                    && events[i].payload.str_at("name_hash"@) == Some(h);
            assert(f(events[i]) matches Some(l) && hash_asked_by(c)(l) == Some(h));
        }
    }
    assert forall|t: Seq<char>|
        ls.filter_map(name_asked_by(c)).contains(t) <==> #[trigger] asked_name(events, c, t) by {
        kept_twice(events, f, name_asked_by(c), t);
        if ls.filter_map(name_asked_by(c)).contains(t) {
            let i = choose|i: int|
                0 <= i < events.len() && (f(#[trigger] events[i]) matches Some(l)
                    && name_asked_by(c)(l) == Some(t));
            assert(asks(c)(events[i]));
            undotted_is_one(t, events[i].payload.str_at("qname"@)->0);
        }
        if asked_name(events, c, t) {
            let i = choose|i: int|
                0 <= i < events.len() && asks(c)(#[trigger] events[i])
                    && events[i].payload.bool_at("masked"@) == Some(false) && (
                events[i].payload.str_at("qname"@) matches Some(q) && is_undotted(t, q));
            undotted_is_one(t, events[i].payload.str_at("qname"@)->0);
            assert(f(events[i]) matches Some(l) && name_asked_by(c)(l) == Some(t));
        }
    }
    if clients(ls).contains(c) {
        let m = choose|m: int| 0 <= m < clients(ls).len() && clients(ls)[m] == c;
        assert(asked_by(c)(ls[m]));
        is_counted(ls, asked_by(c), m);
    }
    if count_where(events, asks(c)) > 0 {
        counted_is_there(ls, asked_by(c));
        let m = choose|m: int| 0 <= m < ls.len() && asked_by(c)(#[trigger] ls[m]);
        assert(clients(ls)[m] == c);
    }
}

/// Two predicates that agree count the same.
pub(crate) proof fn same_count<A>(s: Seq<A>, p: spec_fn(A) -> bool, q: spec_fn(A) -> bool)
    requires
        forall|a: A| #[trigger] p(a) == q(a),
    ensures
        count_where(s, p) == count_where(s, q),
        count_where(s, p) <= s.len(),
    decreases s.len(),
{
    if s.len() > 0 {
        same_count(s.drop_last(), p, q);
        assert(p(s.last()) == q(s.last()));
    }
}

/// What two functions keep one after the other is what both keep of some
/// element.
pub(crate) proof fn kept_twice<A, B, C>(
    s: Seq<A>,
    f: spec_fn(A) -> Option<B>,
    g: spec_fn(B) -> Option<C>,
    x: C,
)
    ensures
        s.filter_map(f).filter_map(g).contains(x) <==> exists|i: int|
            0 <= i < s.len() && (f(#[trigger] s[i]) matches Some(b) && g(b) == Some(x)),
{
    let t = s.filter_map(f);
    let u = t.filter_map(g);
    if u.contains(x) {
        let k = choose|k: int| 0 <= k < u.len() && u[k] == x;
        filter_map_from(t, g, k);
        let j = choose|j: int| 0 <= j < t.len() && g(#[trigger] t[j]) == Some(u[k]);
        filter_map_from(s, f, j);
        let i = choose|i: int| 0 <= i < s.len() && f(#[trigger] s[i]) == Some(t[j]);
        assert(f(s[i]) matches Some(b) && g(b) == Some(x));
    }
    if exists|i: int| 0 <= i < s.len() && (f(#[trigger] s[i]) matches Some(b) && g(b) == Some(x)) {
        let i = choose|i: int|
            0 <= i < s.len() && (f(#[trigger] s[i]) matches Some(b) && g(b) == Some(x));
        filter_map_keeps(s, f, i);
        let b = f(s[i])->0;
        let j = choose|j: int| 0 <= j < t.len() && t[j] == b;
        filter_map_keeps(t, g, j);
    }
}

proof fn fact_tells_lookups(events: Seq<EventView>, c: Seq<char>)
    requires
        events.len() <= u32::MAX,
        count_where(events, asks(c)) > 0,
    ensures
        tells_lookups(client_fact(events.filter_map(looked_up()))(c), events),
        client_fact(events.filter_map(looked_up()))(c).process_name == c,
{
    let ls = events.filter_map(looked_up());
    let f = client_fact(ls)(c);
    lookups_are_of_events(events, c);
    same_count(events, asks(c), asks(c));
    let hashes = uniques(ls.filter_map(hash_asked_by(c)));
    uniques_are_distinct(ls.filter_map(hash_asked_by(c)));
    crate::seqs::filter_map_is_no_longer(events, looked_up());
    crate::seqs::filter_map_is_no_longer(ls, hash_asked_by(c));
    assert(hashes.len() <= events.len());
    assert forall|t: Seq<char>| hashes.contains(t) <==> #[trigger] asked_hash(events, c, t) by {
        assert(ls.filter_map(hash_asked_by(c)).contains(t) <==> asked_hash(events, c, t));
    }
    assert(are_hashes(hashes, events, c));
    assert(f.unique_names == hashes.len());
    let names = uniques(ls.filter_map(name_asked_by(c)));
    uniques_are_distinct(ls.filter_map(name_asked_by(c)));
    assert(f.example_names =~= first_n(names, 3));
    assert forall|t: Seq<char>| f.example_names.contains(t) implies #[trigger] asked_name(
        events,
        c,
        t,
    ) by {
        let i = choose|i: int| 0 <= i < f.example_names.len() && f.example_names[i] == t;
        assert(names[i] == t);
        assert(names.contains(t));
        assert(ls.filter_map(name_asked_by(c)).contains(t));
    }
    if f.example_names.len() < 3 {
        assert(f.example_names == names);
        assert forall|t: Seq<char>| #[trigger] asked_name(
            events,
            c,
            t,
        ) implies f.example_names.contains(t) by {
            assert(ls.filter_map(name_asked_by(c)).contains(t));
            assert(names.contains(t));
        }
    }
    assert(f.process_name == c);
    assert(f.total_queries == count_where(events, asks(c)));
    assert(f.example_names.len() <= 3);
    assert(f.example_names.no_duplicates()) by {
        assert forall|i: int, j: int|
            0 <= i < f.example_names.len() && 0 <= j < f.example_names.len() && i
                != j implies f.example_names[i] != f.example_names[j] by {
            assert(names[i] != names[j]);
        }
    }
    assert(are_hashes(hashes, events, f.process_name) && f.unique_names == hashes.len());
}

/// The clients that looked up the most different names are named, up to six,
/// each once, with what they looked up; of two with as many names, the one with
/// more lookups comes first. A client that is not named finds the list full of
/// clients with no fewer names.
pub proof fn clients_are_counted(events: Seq<EventView>, i: int, j: int, c: Seq<char>)
    requires
        events.len() <= u32::MAX,
    ensures
        ({
            let listed = leading_clients(events.filter_map(looked_up()));
            &&& listed.len() <= 6
            &&& 0 <= i < listed.len() ==> tells_lookups(listed[i], events)
            &&& 0 <= i < j < listed.len() ==> {
                &&& listed[i].process_name != listed[j].process_name
                &&& listed[i].unique_names >= listed[j].unique_names
                &&& listed[i].unique_names == listed[j].unique_names ==> listed[i].total_queries
                    >= listed[j].total_queries
            }
            &&& count_where(events, asks(c)) > 0 ==> (exists|k: int|
                0 <= k < listed.len() && (#[trigger] listed[k]).process_name == c) || (
            listed.len() == 6 && (0 <= i < listed.len() ==> exists|f: DnsClientFactView| #[trigger]
                tells_lookups(f, events) && f.process_name == c && f.unique_names
                    <= listed[i].unique_names))
        }),
{
    let ls = events.filter_map(looked_up());
    let once = uniques(clients(ls));
    let facts = once.map_values(client_fact(ls));
    let order = ranked(facts, by_lookups());
    let listed = leading_clients(ls);
    ranked_is_in_order(facts, by_lookups());
    uniques_are_distinct(clients(ls));
    if 0 <= i < listed.len() {
        clients_are_counted_one(events, i);
    }
    if 0 <= i < j < listed.len() {
        assert(!rank_lt(by_lookups()(order[j]), by_lookups()(order[i])));
        assert(facts.no_duplicates()) by {
            assert forall|a: int, b: int| 0 <= a < b < facts.len() implies facts[a] != facts[b] by {
                assert(once[a] != once[b]);
                assert(facts[a].process_name == once[a]);
                assert(facts[b].process_name == once[b]);
            }
        }
        crate::seqs::rearranged_stays_distinct(facts, order);
        clients_are_counted_one(events, j);
        if listed[i].process_name == listed[j].process_name {
            assert(order[i] == order[j]);
        }
    }
    if count_where(events, asks(c)) > 0 {
        lookups_are_of_events(events, c);
        fact_tells_lookups(events, c);
        let f = client_fact(ls)(c);
        assert(once.contains(c));
        let k = choose|k: int| 0 <= k < once.len() && once[k] == c;
        assert(facts[k] == f);
        ranked_has_the_same(facts, by_lookups(), f);
        let m = choose|m: int| 0 <= m < order.len() && order[m] == f;
        if m < listed.len() {
            assert(listed[m].process_name == c);
        } else if 0 <= i < listed.len() {
            assert(!rank_lt(by_lookups()(order[m]), by_lookups()(order[i])));
        }
    }
}

/// A client that is named is one of those that looked something up, with its
/// fact.
pub(crate) proof fn clients_are_counted_one(events: Seq<EventView>, i: int)
    requires
        events.len() <= u32::MAX,
        0 <= i < leading_clients(events.filter_map(looked_up())).len(),
    ensures
        ({
            let ls = events.filter_map(looked_up());
            let f = leading_clients(ls)[i];
            tells_lookups(f, events) && f == client_fact(ls)(f.process_name)
        }),
{
    let ls = events.filter_map(looked_up());
    let once = uniques(clients(ls));
    let facts = once.map_values(client_fact(ls));
    let order = ranked(facts, by_lookups());
    let f = order[i];
    ranked_is_in_order(facts, by_lookups());
    uniques_are_distinct(clients(ls));
    assert(order.contains(f));
    ranked_has_the_same(facts, by_lookups(), f);
    let k = choose|k: int| 0 <= k < facts.len() && facts[k] == f;
    assert(f.process_name == once[k]);
    assert(once.contains(once[k]));
    lookups_are_of_events(events, once[k]);
    fact_tells_lookups(events, once[k]);
}

} // verus!
