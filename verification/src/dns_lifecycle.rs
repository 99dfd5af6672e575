//! Name lookups: each observation of a query becomes one event.

use vstd::prelude::*;
use vstd::string::*;

use crate::events::{Event, EventKind, EventView, SCHEMA_VERSION};
use crate::json::{opt_int, opt_str, put, Json, JsonView};
use crate::observation::{Observation, ObservationView};
use crate::seqs::push_item;
use crate::text::str_eq;
use crate::window_lifecycle::at_most_one;

verus! {

/// The stage. It holds nothing.
#[derive(Debug)]
pub struct DnsLifecycle;

/// Whether an observation is of a query.
pub open spec fn is_query(obs: ObservationView) -> bool {
    obs.payload.str_at("kind"@) == Some("dns_query"@)
}

/// The `i64` under a key, as an optional integer.
pub open spec fn opt_i64_at(p: JsonView, key: Seq<char>) -> Option<int> {
    match p.get(key) {
        Some(v) => match v.as_i64() {
            Some(n) => Some(n as int),
            None => None,
        },
        None => None,
    }
}

/// The event of a query.
pub open spec fn query_event(obs: ObservationView) -> Option<EventView> {
    let p = obs.payload;
    if is_query(obs) {
        Some(
            EventView {
                schema_version: SCHEMA_VERSION,
                timestamp: obs.timestamp,
                kind: EventKind::DnsQuery,
                pid: obs.pid,
                payload: JsonView::Object(
                    seq![
                        ("qname"@, opt_str(p.str_at("qname"@))),
                        ("qtype"@, opt_str(p.str_at("qtype"@))),
                        ("name_hash"@, opt_str(p.str_at("name_hash"@))),
                        ("masked"@, JsonView::Bool(p.bool_at("masked"@) == Some(true))),
                        ("interface_index"@, opt_int(opt_i64_at(p, "interface_index"@))),
                        ("client_process_name"@, opt_str(p.str_at("client_process_name"@))),
                    ],
                ),
            },
        )
    } else {
        None
    }
}

impl DnsLifecycle {
    /// The stage.
    pub fn new() -> Self {
        DnsLifecycle
    }

    /// Turns an observation of a query into one event; any other brings none.
    pub fn on_observation(&self, obs: &Observation) -> (r: Vec<Event>)
        ensures
            r.deep_view() == at_most_one(query_event(obs.deep_view())),
    {
        let mut out: Vec<Event> = Vec::new();
        assert(out.deep_view() =~= Seq::<EventView>::empty());
        if !is_dns_query_observation(obs) {
            return out;
        }
        let p: &Json = &obs.payload;
        let interface: Json = match p.get("interface_index") {
            Some(v) => match v.as_i64() {
                Some(n) => Json::I64(n),
                None => Json::Null,
            },
            None => Json::Null,
        };
        let masked: bool = match p.bool_at("masked") {
            Some(b) => b,
            None => false,
        };
        let mut f: Vec<(String, Json)> = Vec::new();
        put(&mut f, "qname", Json::opt_text(&p.string_at("qname")));
        put(&mut f, "qtype", Json::opt_text(&p.string_at("qtype")));
        put(&mut f, "name_hash", Json::opt_text(&p.string_at("name_hash")));
        put(&mut f, "masked", Json::Bool(masked));
        put(&mut f, "interface_index", interface);
        put(
            &mut f,
            "client_process_name",
            Json::opt_text(&p.string_at("client_process_name")),
        );
        assert(f.deep_view() =~= query_event(obs.deep_view())->0.payload->Object_0);
        push_item(
            &mut out,
            Event {
                schema_version: SCHEMA_VERSION,
                timestamp: obs.timestamp,
                kind: EventKind::DnsQuery,
                pid: obs.pid,
                payload: Json::object(f),
            },
        );
        assert(out.deep_view() =~= at_most_one(query_event(obs.deep_view())));
        out
    }
}

impl Default for DnsLifecycle {
    fn default() -> Self {
        DnsLifecycle
    }
}

/// Whether an observation is of a query; others of the network are of
/// connections.
pub fn is_dns_query_observation(obs: &Observation) -> (r: bool)
    ensures
        r == is_query(obs.deep_view()),
{
    match obs.payload.str_at("kind") {
        Some(s) => str_eq(s, "dns_query"),
        None => false,
    }
}

} // verus!
