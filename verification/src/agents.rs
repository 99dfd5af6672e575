//! What the agents that ask a language model share.

use vstd::prelude::*;
use vstd::string::*;

use crate::graph::Graph;
use crate::json::{Json, JsonView};
use crate::json_parse::json_document;
use crate::json_members::{item_names_twice, item_repeats, names_twice, repeats};
use crate::json_record::{record, record_of};
use crate::llm::{Format, GenerateRequest, GenerateRequestView, Options, OptionsView};
use crate::seqs::{all_of, convert_all, whole};
use crate::store::{Store, StoreError};
use crate::store_load::loaded;

verus! {

/// How an agent asks. The temperature is a decimal number.
#[derive(Debug)]
pub struct AgentConfig {
    pub model: String,
    /// How many items a prompt lists at most.
    pub max_input_items: usize,
    pub temperature: String,
}

/// What an `AgentConfig` holds.
pub struct AgentConfigView {
    pub model: Seq<char>,
    pub max_input_items: usize,
    pub temperature: Seq<char>,
}

impl DeepView for AgentConfig {
    type V = AgentConfigView;

    open spec fn deep_view(&self) -> AgentConfigView {
        AgentConfigView {
            model: self.model@,
            max_input_items: self.max_input_items,
            temperature: self.temperature@,
        }
    }
}

impl Clone for AgentConfig {
    fn clone(&self) -> (r: Self)
        ensures
            r.deep_view() == self.deep_view(),
    {
        AgentConfig {
            model: self.model.clone(),
            max_input_items: self.max_input_items,
            temperature: self.temperature.clone(),
        }
    }
}

impl Default for AgentConfig {
    fn default() -> (r: Self)
        ensures
            r.model@ == "gemma3:4b"@,
            r.max_input_items == 200,
            r.temperature@ == "0.2"@,
    {
        AgentConfig {
            model: "gemma3:4b".to_string(),
            max_input_items: 200,
            temperature: "0.2".to_string(),
        }
    }
}

/// What an agent found.
#[derive(Debug)]
pub struct Report {
    /// A few sentences.
    pub summary: String,
    /// What the agent has to say beyond that.
    pub details: Json,
    /// The model that was asked.
    pub model: String,
}

/// What a `Report` holds.
pub struct ReportView {
    pub summary: Seq<char>,
    pub details: JsonView,
    pub model: Seq<char>,
}

impl DeepView for Report {
    type V = ReportView;

    open spec fn deep_view(&self) -> ReportView {
        ReportView { summary: self.summary@, details: self.details@, model: self.model@ }
    }
}

impl Clone for Report {
    fn clone(&self) -> (r: Self)
        ensures
            r.deep_view() == self.deep_view(),
    {
        Report {
            summary: self.summary.clone(),
            details: self.details.clone(),
            model: self.model.clone(),
        }
    }
}

/// A request with the limits of the agents.
pub open spec fn request_of(
    config: AgentConfigView,
    prompt: Seq<char>,
    system: Seq<char>,
    num_predict: i32,
    format: Option<Format>,
) -> GenerateRequestView {
    GenerateRequestView {
        model: config.model,
        prompt,
        system: Some(system),
        options: Some(
            OptionsView {
                temperature: Some(config.temperature),
                num_predict: Some(num_predict),
                num_ctx: Some(8192i32),
            },
        ),
        format,
        stream: false,
    }
}

/// A request with the limits of the agents.
pub(crate) fn build_request(
    config: &AgentConfig,
    prompt: String,
    system: &str,
    num_predict: i32,
    format: Option<Format>,
) -> (r: GenerateRequest)
    ensures
        r.deep_view() == request_of(config.deep_view(), prompt@, system@, num_predict, format),
{
    GenerateRequest {
        model: config.model.clone(),
        prompt,
        system: Some(system.to_string()),
        options: Some(
            Options {
                temperature: Some(config.temperature.clone()),
                num_predict: Some(num_predict),
                num_ctx: Some(8192),
            },
        ),
        format,
        stream: false,
    }
}

/// The fields of a verdict.
pub open spec fn verdict_names() -> Seq<Seq<char>> {
    seq!["summary"@, "findings"@]
}

/// The summary and the findings of a reply that is a document with both, as an
/// object or as a list.
pub open spec fn verdict_of(j: JsonView) -> Option<(Seq<char>, Seq<JsonView>)> {
    let j = record(j, verdict_names(), 2);
    match (j.str_at("summary"@), j.get("findings"@)) {
        (Some(s), Some(JsonView::Array(v))) => Some((s, v)),
        _ => None,
    }
}

/// The summary and the findings of a document, where every finding is one.
pub open spec fn verdict_with<F>(j: JsonView, finding: spec_fn(JsonView) -> Option<F>) -> Option<
    (Seq<char>, Seq<F>),
> {
    match verdict_of(j) {
        Some((summary, v)) => match all_of(v, finding) {
            Some(fs) => Some((summary, fs)),
            None => None,
        },
        None => None,
    }
}

/// Whether a text names a field of a verdict, or of one of its findings, twice.
pub open spec fn verdict_repeats(s: Seq<char>, fields: Seq<Seq<char>>) -> bool {
    repeats(s, verdict_names()) || item_repeats(s, "findings"@, 1, fields)
}

/// The summary and the findings that a reply writes; none where it names a field
/// twice or is anything else.
pub open spec fn parsed_reply<F>(
    raw: Seq<char>,
    fields: Seq<Seq<char>>,
    finding: spec_fn(JsonView) -> Option<F>,
) -> Option<(Seq<char>, Seq<F>)> {
    match json_document(raw) {
        Some(j) => if verdict_repeats(raw, fields) {
            None
        } else {
            verdict_with(j, finding)
        },
        None => None,
    }
}

/// Whether a text names a field of a verdict, or of one of its findings, twice.
pub(crate) fn names_verdict_field_twice(s: &str, fields: &[&str]) -> (r: bool)
    ensures
        r == verdict_repeats(s@, fields.deep_view()),
{
    let list = ["summary", "findings"];
    let names: &[&str] = &list;
    assert(names.deep_view() =~= verdict_names());
    names_twice(s, names) || item_names_twice(s, "findings", 1, fields)
}

/// The summary and the findings of a reply; a reply that is no such document
/// is itself the summary.
pub open spec fn or_text<F>(verdict: Option<(Seq<char>, Seq<F>)>, raw: Seq<char>) -> (
    Seq<char>,
    Seq<F>,
) {
    match verdict {
        Some(p) => p,
        None => (raw, Seq::empty()),
    }
}

/// Reads the summary and the findings of a document.
pub(crate) fn read_verdict<B: DeepView, F: Fn(&Json) -> Option<B>>(
    j: &Json,
    f: F,
    Ghost(g): Ghost<spec_fn(JsonView) -> Option<B::V>>,
) -> (r: Option<(String, Vec<B>)>)
    requires
        forall|a: &Json| f.requires((a,)),
        forall|a: &Json, b: Option<B>| f.ensures((a,), b) ==> b.deep_view() == g(a.deep_view()),
    ensures
        r.deep_view() == verdict_with(j@, g),
{
    match j {
        Json::Array(v) => {
            let list = ["summary", "findings"];
            let names: &[&str] = &list;
            assert(names.deep_view() =~= verdict_names());
            assert(j@->Array_0 =~= v.deep_view());
            let o: Json = record_of(v, names, 2);
            assert(verdict_with(j@, g) == verdict_with(o@, g));
            read_verdict_fields(&o, f, Ghost(g))
        },
        _ => read_verdict_fields(j, f, Ghost(g)),
    }
}

fn read_verdict_fields<B: DeepView, F: Fn(&Json) -> Option<B>>(
    j: &Json,
    f: F,
    Ghost(g): Ghost<spec_fn(JsonView) -> Option<B::V>>,
) -> (r: Option<(String, Vec<B>)>)
    requires
        !(j@ is Array),
        forall|a: &Json| f.requires((a,)),
        forall|a: &Json, b: Option<B>| f.ensures((a,), b) ==> b.deep_view() == g(a.deep_view()),
    ensures
        r.deep_view() == verdict_with(j@, g),
{
    match (j.string_at("summary"), j.get("findings")) {
        (Some(summary), Some(list)) => match list.as_array() {
            Some(v) => match convert_all(whole(v), f, Ghost(g)) {
                Some(fs) => Some((summary, fs)),
                None => None,
            },
            None => None,
        },
        _ => None,
    }
}

/// A text that may be missing or null; nothing for anything else.
pub open spec fn opt_text_of(v: Option<JsonView>) -> Option<Option<Seq<char>>> {
    match v {
        None | Some(JsonView::Null) => Some(None),
        Some(j) => match j.as_str() {
            Some(s) => Some(Some(s)),
            None => None,
        },
    }
}

/// A text of a document that may be missing or null; nothing for anything
/// else.
pub(crate) fn opt_text_at(j: &Json, key: &str) -> (r: Option<Option<String>>)
    ensures
        r.deep_view() == opt_text_of(j@.get(key@)),
{
    match j.get(key) {
        None => Some(None),
        Some(v) => if v.is_null() {
            Some(None)
        } else {
            match v.as_str() {
                Some(s) => Some(Some(s.to_string())),
                None => None,
            }
        },
    }
}

/// The graph that a store holds.
pub fn read_graph_from_store(store: &Store) -> (r: Result<Graph, StoreError>)
    ensures
        r is Ok,
        r->Ok_0.deep_view() == loaded(store@),
{
    store.load_graph()
}

} // verus!
