//! What holds of the sums that are handed to a review: every lookup and every
//! conversation of the window is in one of them.

use vstd::prelude::*;

use crate::dns_reviewer;
use crate::events::{EventKind, EventView};
use crate::json::JsonView;
use crate::network_reviewer;
use crate::order::sort_by_key_sorts;
use crate::seqs::{
    count_kept, count_where, counted_is_there, filter_map_from, filter_map_keeps, keeps_where, sum_of,
    uniques, uniques_are_distinct,
};
use crate::summary_laws::{is_counted, kept_twice, same_count};

verus! {

// ---------- name lookups -----------------------------------------------------------

/// Whether a payload names a domain: by the name without one dot at its end or,
/// where it is masked, empty or missing, by its hash.
pub open spec fn names_domain(p: JsonView, d: Seq<char>) -> bool {
    match p.str_at("qname"@) {
        Some(q) if q.len() > 0 && p.bool_at("masked"@) != Some(true) => d == if q.last() == '.' {
            q.drop_last()
        } else {
            q
        },
        _ => p.str_at("name_hash"@) matches Some(h) && h.len() > 0 && d == "hash:"@ + h,
    }
}

/// Whether a payload names a client: by the program that its process is known to
/// run or, without one, as the resolver named it.
pub open spec fn names_client(p: JsonView, c: Seq<char>) -> bool {
    match p.get("process"@) {
        Some(v) if v.str_at("comm"@) is Some => v.str_at("comm"@) == Some(c),
        _ => match p.str_at("client_process_name"@) {
            Some(n) => n == c,
            None => c == "?"@,
        },
    }
}

/// Whether an event is a lookup of a domain by a client.
pub open spec fn asks_for(d: Seq<char>, c: Seq<char>) -> spec_fn(EventView) -> bool {
    |e: EventView|
        e.kind == EventKind::DnsQuery && names_domain(e.payload, d) && names_client(e.payload, c)
}

/// Whether a sum tells the lookups of a domain by a client: their number, whether
/// all were masked, and their types, each once.
pub open spec fn tells_lookups(a: dns_reviewer::AggregateView, events: Seq<EventView>) -> bool {
    let p = asks_for(a.domain, a.client_process);
    &&& a.queries == count_where(events, p)
    &&& a.queries > 0
    &&& a.masked <==> forall|i: int|
        0 <= i < events.len() && p(#[trigger] events[i]) ==> events[i].payload.bool_at("masked"@)
            == Some(true)
    &&& a.qtypes.no_duplicates()
    &&& forall|t: Seq<char>| #[trigger]
        a.qtypes.contains(t) <==> exists|i: int|
            0 <= i < events.len() && p(#[trigger] events[i]) && events[i].payload.str_at("qtype"@)
                == Some(t)
}

proof fn lookup_is_that(e: EventView, k: (Seq<char>, Seq<char>))
    ensures
        asks_for(k.0, k.1)(e) <==> (dns_reviewer::query()(e) matches Some(q) && q.key == k),
        dns_reviewer::query()(e) matches Some(q) ==> q.qtype == e.payload.str_at("qtype"@) && q.masked
            == (e.payload.bool_at("masked"@) == Some(true)),
{
}

proof fn lookups_are_summed(events: Seq<EventView>, k: (Seq<char>, Seq<char>))
    requires
        events.len() <= u32::MAX,
        count_where(events, asks_for(k.0, k.1)) > 0,
    ensures
        tells_lookups(dns_reviewer::summed(events.filter_map(dns_reviewer::query()))(k), events),
{
    let f = dns_reviewer::query();
    let qs = events.filter_map(f);
    let p = asks_for(k.0, k.1);
    let a = dns_reviewer::summed(qs)(k);
    assert forall|e: EventView| #[trigger] keeps_where(f, dns_reviewer::has_key(k))(e) == p(e) by {
        lookup_is_that(e, k);
    }
    count_kept(events, f, dns_reviewer::has_key(k));
    same_count(events, keeps_where(f, dns_reviewer::has_key(k)), p);
    let plain = dns_reviewer::plain_with(k);
    count_kept(events, f, plain);
    if a.masked {
        assert forall|i: int| 0 <= i < events.len() && p(
            #[trigger] events[i],
        ) implies events[i].payload.bool_at("masked"@) == Some(true) by {
            lookup_is_that(events[i], k);
            if events[i].payload.bool_at("masked"@) != Some(true) {
                assert(keeps_where(f, plain)(events[i]));
                is_counted(events, keeps_where(f, plain), i);
            }
        }
    } else {
        counted_is_there(events, keeps_where(f, plain));
        let i = choose|i: int| 0 <= i < events.len() && keeps_where(f, plain)(#[trigger] events[i]);
        lookup_is_that(events[i], k);
        assert(p(events[i]));
    }
    let g = dns_reviewer::qtype_with(k);
    uniques_are_distinct(qs.filter_map(g));
    assert forall|t: Seq<char>| #[trigger]
        a.qtypes.contains(t) <==> exists|i: int|
            0 <= i < events.len() && p(#[trigger] events[i]) && events[i].payload.str_at("qtype"@)
                == Some(t) by {
        kept_twice(events, f, g, t);
        if a.qtypes.contains(t) {
            let i = choose|i: int|
                0 <= i < events.len() && (f(#[trigger] events[i]) matches Some(q) && g(q) == Some(
                    t,
                ));
            lookup_is_that(events[i], k);
            assert(p(events[i]));
        }
        if exists|i: int|
            0 <= i < events.len() && p(#[trigger] events[i]) && events[i].payload.str_at("qtype"@)
                == Some(t) {
            let i = choose|i: int|
                0 <= i < events.len() && p(#[trigger] events[i]) && events[i].payload.str_at(
                    "qtype"@,
                ) == Some(t);
            lookup_is_that(events[i], k);
            assert(f(events[i]) matches Some(q) && g(q) == Some(t));
        }
    }
}

/// The lookups of a window are summed up by domain and client, the most first: a
/// sum is there exactly if it tells some lookups, and every lookup that names a
/// domain is in one.
pub proof fn every_lookup_is_summed(
    events: Seq<EventView>,
    a: dns_reviewer::AggregateView,
    d: Seq<char>,
    c: Seq<char>,
    i: int,
    j: int,
)
    requires
        events.len() <= u32::MAX,
    ensures
        dns_reviewer::aggregates(events).contains(a) ==> tells_lookups(a, events),
        count_where(events, asks_for(d, c)) > 0 ==> exists|k: int|
            0 <= k < dns_reviewer::aggregates(events).len() && (#[trigger] dns_reviewer::aggregates(
                events,
            )[k]).domain == d && dns_reviewer::aggregates(events)[k].client_process == c,
        0 <= i < j < dns_reviewer::aggregates(events).len() ==> dns_reviewer::aggregates(
            events,
        )[i].queries >= dns_reviewer::aggregates(events)[j].queries,
{
    broadcast use vstd::seq_lib::group_to_multiset_ensures;

    let f = dns_reviewer::query();
    let qs = events.filter_map(f);
    let keys = uniques(dns_reviewer::query_keys(qs));
    let rows = keys.map_values(dns_reviewer::summed(qs));
    let all = dns_reviewer::aggregates(events);
    uniques_are_distinct(dns_reviewer::query_keys(qs));
    sort_by_key_sorts(rows, dns_reviewer::busiest_first());
    if all.contains(a) {
        assert(all.to_multiset().count(a) > 0);
        assert(rows.contains(a));
        let k = choose|k: int| 0 <= k < rows.len() && rows[k] == a;
        let key = keys[k];
        assert(keys.contains(key));
        assert(dns_reviewer::query_keys(qs).contains(key));
        let m = choose|m: int|
            0 <= m < dns_reviewer::query_keys(qs).len() && dns_reviewer::query_keys(qs)[m] == key;
        filter_map_from(events, f, m);
        let n = choose|n: int| 0 <= n < events.len() && f(#[trigger] events[n]) == Some(qs[m]);
        lookup_is_that(events[n], key);
        is_counted(events, asks_for(key.0, key.1), n);
        lookups_are_summed(events, key);
    }
    if count_where(events, asks_for(d, c)) > 0 {
        counted_is_there(events, asks_for(d, c));
        let n = choose|n: int| 0 <= n < events.len() && asks_for(d, c)(#[trigger] events[n]);
        lookup_is_that(events[n], (d, c));
        filter_map_keeps(events, f, n);
        let q = f(events[n])->0;
        let m = choose|m: int| 0 <= m < qs.len() && qs[m] == q;
        assert(dns_reviewer::query_keys(qs)[m] == (d, c));
        assert(dns_reviewer::query_keys(qs).contains((d, c)));
        assert(keys.contains((d, c)));
        let r = choose|r: int| 0 <= r < keys.len() && keys[r] == (d, c);
        assert(rows.contains(rows[r]));
        assert(all.to_multiset().count(rows[r]) > 0);
        assert(all.contains(rows[r]));
        let k = choose|k: int| 0 <= k < all.len() && all[k] == rows[r];
        assert(all[k].domain == d && all[k].client_process == c);
    }
    if 0 <= i < j < all.len() {
        assert(dns_reviewer::busiest_first()(all[i]) <= dns_reviewer::busiest_first()(all[j]));
    }
}

// ---------- conversations ----------------------------------------------------------

/// Whether an address is a host and a port: what stands before and behind its
/// last dot. Without a dot the port is a question mark.
pub open spec fn is_host_port(addr: Seq<char>, host: Seq<char>, port: Seq<char>) -> bool {
    ||| addr == host + seq!['.'] + port && !port.contains('.')
    ||| !addr.contains('.') && addr == host && port == "?"@
}

proof fn host_port_is_that(addr: Seq<char>, host: Seq<char>, port: Seq<char>)
    ensures
        network_reviewer::host_port(addr) == (host, port) <==> is_host_port(addr, host, port),
{
    let dot = seq!['.'];
    crate::text::rfind_is_last(addr, dot, addr.len() - 1);
    match crate::text::rfind(addr, dot) {
        Some(i) => {
            assert(addr.subrange(i, i + 1)[0] == '.');
            assert(addr.contains(addr[i]));
            let (h, p) = (addr.take(i), addr.skip(i + 1));
            assert(addr =~= h + dot + p);
            assert(!p.contains('.')) by {
                if p.contains('.') {
                    let k = choose|k: int| 0 <= k < p.len() && p[k] == '.';
                    assert(addr[i + 1 + k] == '.');
                    assert(addr.subrange(i + 1 + k, i + 2 + k) =~= dot);
                    assert(crate::text::occurs_at(addr, dot, i + 1 + k));
                }
            }
            if is_host_port(addr, host, port) {
                let n = host.len() as int;
                assert(addr[n] == '.');
                if n < i {
                    assert(port[i - n - 1] == addr[i]);
                    assert(port.contains('.'));
                }
                if i < n {
                    assert(p[n - i - 1] == addr[n]);
                    assert(p.contains('.'));
                }
                assert(h =~= host);
                assert(p =~= port);
            }
        },
        None => {
            assert(!addr.contains('.')) by {
                if addr.contains('.') {
                    let k = choose|k: int| 0 <= k < addr.len() && addr[k] == '.';
                    assert(addr.subrange(k, k + 1) =~= dot);
                    assert(crate::text::occurs_at(addr, dot, k));
                }
            }
            if addr == host + seq!['.'] + port {
                assert(addr[host.len() as int] == '.');
                assert(addr.contains('.'));
            }
        },
    }
}

/// Whether an event is the end of a conversation of a program with a host, on a
/// port.
pub open spec fn talks(host: Seq<char>, port: Seq<char>, name: Seq<char>) -> spec_fn(EventView) -> bool {
    |e: EventView|
        e.kind == EventKind::ConnectionCompleted && is_host_port(
            match e.payload.str_at("foreign_addr"@) {
                Some(a) => a,
                None => "?"@,
            },
            host,
            port,
        ) && (match e.payload.str_at("process_name"@) {
            Some(n) => n == name,
            None => name == "?"@,
        })
}

/// What an event of a conversation tells under a key, in whole units.
pub open spec fn told(
    host: Seq<char>,
    port: Seq<char>,
    name: Seq<char>,
    key: Seq<char>,
    unit: int,
) -> spec_fn(EventView) -> int {
    |e: EventView|
        if talks(host, port, name)(e) {
            match e.payload.u64_at(key) {
                Some(n) => n as int / unit,
                None => 0,
            }
        } else {
            0
        }
}

/// Whether a sum tells the conversations of a program with a host, on a port:
/// their number, their bytes both ways, and their milliseconds, as far as a
/// counter reaches.
pub open spec fn tells_talk(a: network_reviewer::AggregateView, events: Seq<EventView>) -> bool {
    let (h, p, n) = (a.foreign_host, a.foreign_port, a.process_name);
    let m = 0x1_0000_0000_0000_0000int;
    &&& a.connections == count_where(events, talks(h, p, n))
    &&& a.connections > 0
    &&& a.bytes_rx == sum_of(events, told(h, p, n, "bytes_rx"@, 1)) % m
    &&& a.bytes_tx == sum_of(events, told(h, p, n, "bytes_tx"@, 1)) % m
    &&& a.total_duration_ms == sum_of(events, told(h, p, n, "duration_ns"@, 1_000_000)) % m
}

proof fn talk_is_that(e: EventView, k: (Seq<char>, Seq<char>, Seq<char>))
    ensures
        talks(k.0, k.1, k.2)(e) <==> (network_reviewer::conversation()(e) matches Some(c) && c.key
            == k),
{
    let addr = match e.payload.str_at("foreign_addr"@) {
        Some(a) => a,
        None => "?"@,
    };
    host_port_is_that(addr, k.0, k.1);
}

proof fn sum_of_kept<A, B>(s: Seq<A>, f: spec_fn(A) -> Option<B>, g: spec_fn(B) -> int, h: spec_fn(A) -> int)
    requires
        forall|a: A| #[trigger] h(a) == match f(a) {
            Some(b) => g(b),
            None => 0,
        },
    ensures
        sum_of(s.filter_map(f), g) == sum_of(s, h),
    decreases s.len(),
{
    if s.len() == 0 {
        crate::seqs::filter_map_start(s, f);
        crate::seqs::take_all(s);
    } else {
        let n = s.len() - 1;
        let t = s.take(n);
        assert(s.drop_last() =~= t);
        sum_of_kept(t, f, g, h);
        crate::seqs::filter_map_step(s, f, n);
        crate::seqs::take_all(s);
        match f(s[n]) {
            Some(b) => {
                assert(s.filter_map(f).drop_last() =~= t.filter_map(f));
            },
            None => {},
        }
        assert(h(s[n]) == match f(s[n]) {
            Some(b) => g(b),
            None => 0,
        });
    }
}

proof fn talks_are_summed(events: Seq<EventView>, k: (Seq<char>, Seq<char>, Seq<char>))
    requires
        events.len() <= u32::MAX,
        count_where(events, talks(k.0, k.1, k.2)) > 0,
    ensures
        tells_talk(
            network_reviewer::summed(events.filter_map(network_reviewer::conversation()))(k),
            events,
        ),
{
    let f = network_reviewer::conversation();
    let p = talks(k.0, k.1, k.2);
    let q = network_reviewer::has_key(k);
    assert forall|e: EventView| #[trigger] keeps_where(f, q)(e) == p(e) by {
        talk_is_that(e, k);
    }
    count_kept(events, f, q);
    same_count(events, keeps_where(f, q), p);
    let rx = told(k.0, k.1, k.2, "bytes_rx"@, 1);
    let tx = told(k.0, k.1, k.2, "bytes_tx"@, 1);
    let ms = told(k.0, k.1, k.2, "duration_ns"@, 1_000_000);
    assert forall|e: EventView| #[trigger] rx(e) == match f(e) {
        Some(c) => network_reviewer::rx_of(k)(c),
        None => 0,
    } by {
        talk_is_that(e, k);
    }
    assert forall|e: EventView| #[trigger] tx(e) == match f(e) {
        Some(c) => network_reviewer::tx_of(k)(c),
        None => 0,
    } by {
        talk_is_that(e, k);
    }
    assert forall|e: EventView| #[trigger] ms(e) == match f(e) {
        Some(c) => network_reviewer::ms_of(k)(c),
        None => 0,
    } by {
        talk_is_that(e, k);
    }
    sum_of_kept(events, f, network_reviewer::rx_of(k), rx);
    sum_of_kept(events, f, network_reviewer::tx_of(k), tx);
    sum_of_kept(events, f, network_reviewer::ms_of(k), ms);
}

/// The conversations of a window are summed up by host, port and program: a sum
/// is there only if it tells some conversations, and every conversation is in
/// one. Those with the most bytes come first.
pub proof fn every_conversation_is_summed(
    events: Seq<EventView>,
    a: network_reviewer::AggregateView,
    host: Seq<char>,
    port: Seq<char>,
    name: Seq<char>,
    i: int,
    j: int,
)
    requires
        events.len() <= u32::MAX,
    ensures
        network_reviewer::aggregates(events).contains(a) ==> tells_talk(a, events),
        count_where(events, talks(host, port, name)) > 0 ==> exists|k: int|
            0 <= k < network_reviewer::aggregates(events).len() && (
            #[trigger] network_reviewer::aggregates(events)[k]).foreign_host == host
                && network_reviewer::aggregates(events)[k].foreign_port == port
                && network_reviewer::aggregates(events)[k].process_name == name,
        0 <= i < j < network_reviewer::aggregates(events).len() ==> ({
            let (x, y) = (
                network_reviewer::aggregates(events)[i],
                network_reviewer::aggregates(events)[j],
            );
            x.bytes_rx + x.bytes_tx <= u64::MAX && y.bytes_rx + y.bytes_tx <= u64::MAX ==> x.bytes_rx
                + x.bytes_tx >= y.bytes_rx + y.bytes_tx
        }),
{
    broadcast use vstd::seq_lib::group_to_multiset_ensures;

    let f = network_reviewer::conversation();
    let cs = events.filter_map(f);
    let keys = uniques(network_reviewer::conversation_keys(cs));
    let rows = keys.map_values(network_reviewer::summed(cs));
    let all = network_reviewer::aggregates(events);
    uniques_are_distinct(network_reviewer::conversation_keys(cs));
    sort_by_key_sorts(rows, network_reviewer::most_traffic());
    if all.contains(a) {
        assert(all.to_multiset().count(a) > 0);
        assert(rows.contains(a));
        let k = choose|k: int| 0 <= k < rows.len() && rows[k] == a;
        let key = keys[k];
        assert(keys.contains(key));
        assert(network_reviewer::conversation_keys(cs).contains(key));
        let m = choose|m: int|
            0 <= m < network_reviewer::conversation_keys(cs).len()
                && network_reviewer::conversation_keys(cs)[m] == key;
        filter_map_from(events, f, m);
        let n = choose|n: int| 0 <= n < events.len() && f(#[trigger] events[n]) == Some(cs[m]);
        talk_is_that(events[n], key);
        is_counted(events, talks(key.0, key.1, key.2), n);
        talks_are_summed(events, key);
    }
    if count_where(events, talks(host, port, name)) > 0 {
        let key = (host, port, name);
        counted_is_there(events, talks(host, port, name));
        let n = choose|n: int| 0 <= n < events.len() && talks(host, port, name)(#[trigger] events[n]);
        talk_is_that(events[n], key);
        filter_map_keeps(events, f, n);
        let q = f(events[n])->0;
        let m = choose|m: int| 0 <= m < cs.len() && cs[m] == q;
        assert(network_reviewer::conversation_keys(cs)[m] == key);
        assert(network_reviewer::conversation_keys(cs).contains(key));
        assert(keys.contains(key));
        let r = choose|r: int| 0 <= r < keys.len() && keys[r] == key;
        assert(rows.contains(rows[r]));
        assert(all.to_multiset().count(rows[r]) > 0);
        assert(all.contains(rows[r]));
        let k = choose|k: int| 0 <= k < all.len() && all[k] == rows[r];
        assert(all[k].foreign_host == host && all[k].foreign_port == port && all[k].process_name
            == name);
    }
    if 0 <= i < j < all.len() {
        assert(network_reviewer::most_traffic()(all[i]) <= network_reviewer::most_traffic()(all[j]));
    }
}

} // verus!
