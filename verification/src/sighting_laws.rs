//! What holds of what is told of something new: how often it was seen, by whom,
//! and under which name.

use vstd::prelude::*;

use crate::capture::{new_app_text, new_endpoint_text, new_process_text};
use crate::daemon::store_novelty;
use crate::history_laws::sorted_list_is_complete;
use crate::novelty_laws::{is_connection_to, is_run, listed_is_from, oldest_is_earliest};
use crate::order::{first_n, sort_by_key, text_lt, text_lt_irreflexive};
use crate::seqs::{
    count_kept, count_where, filter_map_from, filter_map_keeps, keeps_where, uniques,
};
use crate::store::{NodeKind, NodeRowView, StoreView};
use crate::store_admin::earliest;
use crate::store_history::{
    endpoint_age, is_endpoint, is_program, last_example, new_apps, new_domains, new_endpoint,
    new_endpoints, new_program, new_programs, program_age, see_app, see_endpoint, see_program,
    sighting_age, NewAppView, NewEndpointView, NewProcessIdentityView, SightingView, NOVELTY_CAP_PER_KIND,
};
use crate::summary_laws::same_count;
use crate::tally::{text_order_chains, text_order_is_strict};
use crate::text::{decimal, flat};

verus! {

/// A new program is told with the number of its runs.
pub proof fn runs_are_counted(nodes: Seq<NodeRowView>, from: i64, i: int)
    requires
        0 <= i < new_programs(nodes, from).len(),
        nodes.len() <= u32::MAX,
    ensures
        ({
            let x = new_programs(nodes, from)[i];
            x.instances == count_where(nodes, is_run(x.comm, x.exec_path))
        }),
{
    let s = nodes.filter_map(see_program());
    let keys = uniques(Seq::new(s.len(), |i: int| (s[i].key, s[i].other)));
    let f = new_program(s, from);
    let x = new_programs(nodes, from)[i];
    listed_is_from(keys.filter_map(f), program_age(), NOVELTY_CAP_PER_KIND as int, i);
    keys.lemma_filter_map_contains(f, x);
    let k = choose|k: (Option<Seq<char>>, Option<Seq<char>>)|
        keys.contains(k) && #[trigger] f(k) == Some(x);
    let q = is_program(k.0, k.1);
    let p = is_run(k.0, k.1);
    count_kept(nodes, see_program(), q);
    assert forall|r: NodeRowView| #[trigger] p(r) == keeps_where(see_program(), q)(r) by {}
    same_count(nodes, p, keeps_where(see_program(), q));
}

proof fn example_is_last(s: Seq<SightingView>, key: Option<Seq<char>>)
    ensures
        match last_example(s, key) {
            Some(e) => (exists|i: int|
                0 <= i < s.len() && (#[trigger] s[i]).key == key && s[i].other == Some(e)) && forall|
                i: int,
            |
                0 <= i < s.len() && (#[trigger] s[i]).key == key && s[i].other is Some ==> !text_lt(
                    e,
                    s[i].other->0,
                ),
            None => forall|i: int|
                0 <= i < s.len() && (#[trigger] s[i]).key == key ==> s[i].other is None,
        },
    decreases s.len(),
{
    if s.len() > 0 {
        let t = s.drop_last();
        let n = s.len() - 1;
        example_is_last(t, key);
        let l = s[n];
        let rest = last_example(t, key);
        assert forall|i: int| 0 <= i < n implies #[trigger] s[i] == t[i] by {}
        if rest is Some {
            let i = choose|i: int|
                0 <= i < t.len() && (#[trigger] t[i]).key == key && t[i].other == rest;
            assert(s[i].key == key && s[i].other == rest);
        }
        if l.key == key && l.other is Some {
            let x = l.other->0;
            assert(s[n].key == key && s[n].other == Some(x));
            text_lt_irreflexive(x);
            if rest is Some {
                let y = rest->0;
                assert forall|i: int|
                    0 <= i < s.len() && (#[trigger] s[i]).key == key && s[i].other is Some implies !text_lt(
                    last_example(s, key)->0,
                    s[i].other->0,
                ) by {
                    if i < n {
                        assert(!text_lt(y, t[i].other->0));
                        if text_lt(y, x) {
                            text_order_is_strict(y, x);
                            text_order_chains(s[i].other->0, y, x);
                        }
                    }
                }
            } else {
                assert forall|i: int|
                    0 <= i < s.len() && (#[trigger] s[i]).key == key && s[i].other is Some implies !text_lt(
                    x,
                    s[i].other->0,
                ) by {
                    if i < n {
                        assert(t[i].other is None);
                    }
                }
            }
        } else {
            assert(last_example(s, key) == rest);
            if rest is Some {
                assert forall|i: int|
                    0 <= i < s.len() && (#[trigger] s[i]).key == key && s[i].other is Some implies !text_lt(
                    rest->0,
                    s[i].other->0,
                ) by {
                    if i < n {
                        assert(t[i].other is Some);
                    }
                }
            } else {
                assert forall|i: int| 0 <= i < s.len() && (#[trigger] s[i]).key == key implies s[i].other is None by {
                    if i < n {
                        assert(t[i].other is None);
                    }
                }
            }
        }
    }
}

/// A new endpoint is told with the number of its connections, and with the last
/// of the programs that made them, in the order of their names.
pub proof fn connections_are_counted(nodes: Seq<NodeRowView>, from: i64, i: int, j: int)
    requires
        0 <= i < new_endpoints(nodes, from).len(),
        nodes.len() <= u32::MAX,
    ensures
        ({
            let x = new_endpoints(nodes, from)[i];
            let p = is_connection_to(x.foreign_addr);
            &&& x.socket_count == count_where(nodes, p)
            &&& x.example_process is Some ==> exists|k: int|
                0 <= k < nodes.len() && p(#[trigger] nodes[k]) && nodes[k].attrs.str_at(
                    "process_name"@,
                ) == x.example_process
            &&& 0 <= j < nodes.len() && p(nodes[j]) && nodes[j].attrs.str_at("process_name"@) is Some
                ==> x.example_process is Some && !text_lt(
                x.example_process->0,
                nodes[j].attrs.str_at("process_name"@)->0,
            )
        }),
{
    let f = see_endpoint();
    let s = nodes.filter_map(f);
    let keys = uniques(Seq::new(s.len(), |i: int| s[i].key));
    let g = new_endpoint(s, from);
    let x = new_endpoints(nodes, from)[i];
    listed_is_from(keys.filter_map(g), endpoint_age(), NOVELTY_CAP_PER_KIND as int, i);
    keys.lemma_filter_map_contains(g, x);
    let key = choose|k: Option<Seq<char>>| keys.contains(k) && #[trigger] g(k) == Some(x);
    assert(g(key) == Some(x));
    assert(key == Some(x.foreign_addr));
    let q = is_endpoint(key);
    let p = is_connection_to(x.foreign_addr);
    count_kept(nodes, f, q);
    assert forall|r: NodeRowView| #[trigger] p(r) == keeps_where(f, q)(r) by {}
    same_count(nodes, p, keeps_where(f, q));
    example_is_last(s, key);
    if x.example_process is Some {
        let e = x.example_process->0;
        let m = choose|m: int|
            0 <= m < s.len() && (#[trigger] s[m]).key == key && s[m].other == Some(e);
        filter_map_from(nodes, f, m);
        let k = choose|k: int| 0 <= k < nodes.len() && f(#[trigger] nodes[k]) == Some(s[m]);
        assert(p(nodes[k]));
    }
    if 0 <= j < nodes.len() && p(nodes[j]) && nodes[j].attrs.str_at("process_name"@) is Some {
        filter_map_keeps(nodes, f, j);
        let m = choose|m: int| 0 <= m < s.len() && s[m] == f(nodes[j])->0;
        assert(s[m].key == key && s[m].other is Some);
    }
}

/// An application is listed as new with its name if it was first seen at or after
/// a time; one that is not listed finds the list full of none that is younger.
pub proof fn new_apps_are_listed(nodes: Seq<NodeRowView>, from: i64, i: int, k: int)
    ensures
        ({
            let listed = new_apps(nodes, from);
            &&& listed.len() <= NOVELTY_CAP_PER_KIND
            &&& 0 <= i < listed.len() ==> exists|n: int|
                0 <= n < nodes.len() && (#[trigger] nodes[n]).kind == NodeKind::App && nodes[n].id
                    == listed[i].id && nodes[n].attrs.str_at("name"@) == listed[i].name
                    && nodes[n].first_seen >= from
            &&& 0 <= k < nodes.len() && nodes[k].kind == NodeKind::App && nodes[k].first_seen
                >= from ==> listed.len() == NOVELTY_CAP_PER_KIND || exists|m: int|
                0 <= m < listed.len() && (#[trigger] listed[m]).id == nodes[k].id && listed[m].name
                    == nodes[k].attrs.str_at("name"@)
        }),
{
    let f = see_app(from);
    let order = sort_by_key(nodes.filter_map(f), sighting_age());
    let listed = new_apps(nodes, from);
    let s = first_n(order, NOVELTY_CAP_PER_KIND as int);
    if 0 <= i < listed.len() {
        assert(order[i] == s[i]);
        assert(order.contains(s[i]));
        sorted_list_is_complete(nodes, f, sighting_age(), s[i]);
        let n = choose|n: int| 0 <= n < nodes.len() && f(#[trigger] nodes[n]) == Some(s[i]);
        assert(nodes[n].id == listed[i].id);
    }
    if 0 <= k < nodes.len() && nodes[k].kind == NodeKind::App && nodes[k].first_seen >= from {
        let x = f(nodes[k])->0;
        sorted_list_is_complete(nodes, f, sighting_age(), x);
        assert(order.contains(x));
        let m = choose|m: int| 0 <= m < order.len() && order[m] == x;
        if m < listed.len() {
            assert(listed[m].id == nodes[k].id);
        }
    }
}

/// A new program is written with its name and where it lies, and with the number
/// of its runs if it has more than one.
pub proof fn new_programs_are_written(p: NewProcessIdentityView)
    ensures
        ({
            let t = new_process_text()(p);
            let who = match (p.comm, p.exec_path) {
                (Some(c), Some(e)) => c + " ("@ + e + ")"@,
                (Some(c), None) => c,
                (None, Some(e)) => e,
                (None, None) => "?"@,
            };
            &&& p.instances <= 1 ==> t == who
            &&& p.instances > 1 ==> t == who + " — "@ + decimal(p.instances as nat) + " runs"@
        }),
{
    let who = match (p.comm, p.exec_path) {
        (Some(c), Some(e)) => seq![c, " ("@, e, ")"@],
        (Some(c), None) => seq![c],
        (None, Some(e)) => seq![e],
        (None, None) => seq!["?"@],
    };
    let text = match (p.comm, p.exec_path) {
        (Some(c), Some(e)) => c + " ("@ + e + ")"@,
        (Some(c), None) => c,
        (None, Some(e)) => e,
        (None, None) => "?"@,
    };
    assert(flat(who) =~= text) by {
        reveal_with_fuel(flat, 5);
        if who.len() == 4 {
            let one = who.drop_last().drop_last().drop_last();
            assert(one.drop_last() =~= Seq::<Seq<char>>::empty());
            assert(flat(one) =~= who[0]);
        } else {
            assert(who.drop_last() =~= Seq::<Seq<char>>::empty());
        }
    }
    if p.instances > 1 {
        let tail = seq![" — "@, decimal(p.instances as nat), " runs"@];
        let all = who + tail;
        let n = who.len() as int;
        let a = all.drop_last();
        let b = a.drop_last();
        let c = b.drop_last();
        assert(c =~= who);
        assert(all.last() == " runs"@ && a.last() == decimal(p.instances as nat) && b.last()
            == " — "@);
        assert(flat(all) == flat(a) + " runs"@);
        assert(flat(a) == flat(b) + decimal(p.instances as nat));
        assert(flat(b) == flat(c) + " — "@);
    }
}

/// A new endpoint is written with the program that it was seen with, a new
/// application with its name and its identifier.
pub proof fn new_ends_and_apps_are_written(e: NewEndpointView, a: NewAppView)
    ensures
        e.example_process is Some ==> new_endpoint_text()(e) == e.foreign_addr + " (via "@
            + e.example_process->0 + ")"@,
        e.example_process is None ==> new_endpoint_text()(e) == e.foreign_addr,
        a.name is Some ==> new_app_text()(a) == a.name->0 + " ["@ + a.id + "]"@,
        a.name is None ==> new_app_text()(a) == a.id,
{
    reveal_with_fuel(flat, 5);
    if e.example_process is Some {
        let s = seq![e.foreign_addr, " (via "@, e.example_process->0, ")"@];
        let one = s.drop_last().drop_last().drop_last();
        assert(one.drop_last() =~= Seq::<Seq<char>>::empty());
        assert(flat(one) =~= s[0]);
    }
    if a.name is Some {
        let s = seq![a.name->0, " ["@, a.id, "]"@];
        let one = s.drop_last().drop_last().drop_last();
        assert(one.drop_last() =~= Seq::<Seq<char>>::empty());
        assert(flat(one) =~= s[0]);
    }
}

/// Whether a store has something that was seen half an hour before a time.
pub open spec fn has_history(nodes: Seq<NodeRowView>, from: i64) -> bool {
    exists|k: int|
        0 <= k < nodes.len() && (#[trigger] nodes[k]).first_seen <= from - 1_800_000_000_000
}

/// What a store has that is new is told, each thing of each kind; of a store
/// without a history of half an hour nothing is.
pub proof fn novelty_is_told(s: StoreView, from: i64, i: int)
    ensures
        ({
            let n = store_novelty(s, from);
            let short = !has_history(s.nodes, from);
            &&& n.baseline_cold == short
            &&& short ==> n.new_processes.len() == 0 && n.new_domains.len() == 0
                && n.new_endpoints.len() == 0 && n.new_apps.len() == 0
            &&& !short ==> {
                &&& n.new_processes.len() == new_programs(s.nodes, from).len()
                &&& 0 <= i < n.new_processes.len() ==> n.new_processes[i] == new_process_text()(
                    new_programs(s.nodes, from)[i],
                )
                &&& n.new_domains == new_domains(s.nodes, from)
                &&& n.new_endpoints.len() == new_endpoints(s.nodes, from).len()
                &&& 0 <= i < n.new_endpoints.len() ==> n.new_endpoints[i] == new_endpoint_text()(
                    new_endpoints(s.nodes, from)[i],
                )
                &&& n.new_apps.len() == new_apps(s.nodes, from).len()
                &&& 0 <= i < n.new_apps.len() ==> n.new_apps[i] == new_app_text()(
                    new_apps(s.nodes, from)[i],
                )
            }
        }),
{
    oldest_is_earliest(s.nodes);
    let any = |r: NodeRowView| true;
    match earliest(s.nodes) {
        Some(t) => {
            let k = choose|k: int|
                0 <= k < s.nodes.len() && any(#[trigger] s.nodes[k]) && s.nodes[k].first_seen == t;
            assert(s.nodes[k].first_seen == t);
            if has_history(s.nodes, from) {
                let m = choose|m: int|
                    0 <= m < s.nodes.len() && (#[trigger] s.nodes[m]).first_seen <= from
                        - 1_800_000_000_000;
                assert(any(s.nodes[m]));
            }
        },
        None => {},
    }
}

} // verus!
