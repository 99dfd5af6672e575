//! Focus: a change of the frontmost application becomes one event.

use vstd::prelude::*;
use vstd::string::*;

use crate::events::{Event, EventKind, EventView, SCHEMA_VERSION};
use crate::json::{opt_str, put, Json, JsonView};
use crate::observation::{Observation, ObservationView};
use crate::seqs::push_item;
use crate::store_query::opt_text_eq;

verus! {

/// The stage. It holds nothing.
#[derive(Debug)]
pub struct WindowLifecycle;

/// A value that is there and not null.
pub open spec fn present(j: Option<JsonView>) -> Option<JsonView> {
    match j {
        Some(JsonView::Null) => None,
        other => other,
    }
}

/// The text under a key of a value that is there.
pub open spec fn text_in(j: Option<JsonView>, key: Seq<char>) -> Option<Seq<char>> {
    match j {
        Some(v) => v.str_at(key),
        None => None,
    }
}

/// The focus event of an observation: none where nothing comes to the front,
/// or where the application in front stays the same.
pub open spec fn focus_event(obs: ObservationView) -> Option<EventView> {
    let to = present(obs.payload.get("to"@));
    let from = present(obs.payload.get("from"@));
    let to_bundle = text_in(to, "bundle_id"@);
    let from_bundle = text_in(from, "bundle_id"@);
    match to {
        Some(t) if !(from_bundle is Some && from_bundle == to_bundle) => Some(
            EventView {
                schema_version: SCHEMA_VERSION,
                timestamp: obs.timestamp,
                kind: EventKind::AppFocus,
                pid: match t.u32_at("pid"@) {
                    Some(p) => Some(p),
                    None => obs.pid,
                },
                payload: JsonView::Object(
                    seq![
                        ("from_bundle_id"@, opt_str(from_bundle)),
                        ("from_name"@, opt_str(text_in(from, "name"@))),
                        ("to_bundle_id"@, opt_str(to_bundle)),
                        ("to_name"@, opt_str(t.str_at("name"@))),
                        ("to_exec_path"@, opt_str(t.str_at("exec_path"@))),
                    ],
                ),
            },
        ),
        _ => None,
    }
}

/// At most one event, as a sequence.
pub open spec fn at_most_one(e: Option<EventView>) -> Seq<EventView> {
    match e {
        Some(v) => seq![v],
        None => Seq::empty(),
    }
}

fn read_present<'a>(p: &'a Json, key: &str) -> (r: Option<&'a Json>)
    ensures
        r.deep_view() == present(p@.get(key@)),
{
    match p.get(key) {
        Some(v) => if v.is_null() {
            None
        } else {
            Some(v)
        },
        None => None,
    }
}

fn read_text_in(j: Option<&Json>, key: &str) -> (r: Option<String>)
    ensures
        r.deep_view() == text_in(j.deep_view(), key@),
{
    match j {
        Some(v) => v.string_at(key),
        None => None,
    }
}

impl WindowLifecycle {
    /// The stage.
    pub fn new() -> Self {
        WindowLifecycle
    }

    /// Turns an observation of the frontmost application into at most one
    /// event.
    pub fn on_observation(&self, obs: &Observation) -> (r: Vec<Event>)
        ensures
            r.deep_view() == at_most_one(focus_event(obs.deep_view())),
    {
        let mut out: Vec<Event> = Vec::new();
        assert(out.deep_view() =~= Seq::<EventView>::empty());
        let to: &Json = match read_present(&obs.payload, "to") {
            Some(t) => t,
            None => return out,
        };
        let from = read_present(&obs.payload, "from");
        let to_bundle: Option<String> = to.string_at("bundle_id");
        let from_bundle: Option<String> = read_text_in(from, "bundle_id");
        if from_bundle.is_some() && opt_text_eq(&from_bundle, &to_bundle) {
            return out;
        }
        let pid: Option<u32> = match to.u32_at("pid") {
            Some(p) => Some(p),
            None => obs.pid,
        };
        let mut f: Vec<(String, Json)> = Vec::new();
        put(&mut f, "from_bundle_id", Json::opt_text(&from_bundle));
        put(&mut f, "from_name", Json::opt_text(&read_text_in(from, "name")));
        put(&mut f, "to_bundle_id", Json::opt_text(&to_bundle));
        put(&mut f, "to_name", Json::opt_text(&to.string_at("name")));
        put(&mut f, "to_exec_path", Json::opt_text(&to.string_at("exec_path")));
        assert(f.deep_view() =~= focus_event(obs.deep_view())->0.payload->Object_0);
        push_item(
            &mut out,
            Event {
                schema_version: SCHEMA_VERSION,
                timestamp: obs.timestamp,
                kind: EventKind::AppFocus,
                pid,
                payload: Json::object(f),
            },
        );
        assert(out.deep_view() =~= at_most_one(focus_event(obs.deep_view())));
        out
    }
}

impl Default for WindowLifecycle {
    fn default() -> Self {
        WindowLifecycle
    }
}

} // verus!
