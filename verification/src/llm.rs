//! Requests to a language model and its replies.
//!
//! The model is asked over HTTP; what is asked and what a reply says is
//! decided here.

use vstd::prelude::*;
use vstd::string::*;

use crate::json::{copy_opt, field, put, Json, JsonView};
use crate::json_parse::{json_document, parse_json};
use crate::json_members::{names_twice, repeats};
use crate::json_record::{record, record_of};
use crate::seqs::push_item;

verus! {

/// What can go wrong with a request.
#[derive(Debug)]
pub enum LlmError {
    /// The request was not answered, or not as expected.
    Http(String),
    /// The server refused.
    BadStatus { status: u16, body: String },
    /// Something could not be written as JSON.
    Json(String),
}

/// What an `LlmError` holds.
pub enum LlmErrorView {
    Http(Seq<char>),
    BadStatus { status: u16, body: Seq<char> },
    Json(Seq<char>),
}

impl DeepView for LlmError {
    type V = LlmErrorView;

    open spec fn deep_view(&self) -> LlmErrorView {
        match self {
            LlmError::Http(s) => LlmErrorView::Http(s@),
            LlmError::BadStatus { status, body } => LlmErrorView::BadStatus {
                status: *status,
                body: body@,
            },
            LlmError::Json(s) => LlmErrorView::Json(s@),
        }
    }
}

/// How a reply is written.
#[derive(Debug, Clone, Copy, PartialEq, Eq, Structural)]
pub enum Format {
    Json,
}

impl DeepView for Format {
    type V = Format;

    open spec fn deep_view(&self) -> Format {
        *self
    }
}

/// Limits of a reply. The temperature is a decimal number.
#[derive(Debug)]
pub struct Options {
    pub temperature: Option<String>,
    pub num_predict: Option<i32>,
    pub num_ctx: Option<i32>,
}

/// What `Options` hold.
pub struct OptionsView {
    pub temperature: Option<Seq<char>>,
    pub num_predict: Option<i32>,
    pub num_ctx: Option<i32>,
}

impl DeepView for Options {
    type V = OptionsView;

    open spec fn deep_view(&self) -> OptionsView {
        OptionsView {
            temperature: self.temperature.deep_view(),
            num_predict: self.num_predict,
            num_ctx: self.num_ctx,
        }
    }
}

impl Default for Options {
    fn default() -> (r: Self)
        ensures
            r.deep_view() == (OptionsView { temperature: None, num_predict: None, num_ctx: None }),
    {
        Options { temperature: None, num_predict: None, num_ctx: None }
    }
}

impl Clone for Options {
    fn clone(&self) -> (r: Self)
        ensures
            r.deep_view() == self.deep_view(),
    {
        Options {
            temperature: copy_opt(&self.temperature),
            num_predict: self.num_predict,
            num_ctx: self.num_ctx,
        }
    }
}

/// One request.
#[derive(Debug)]
pub struct GenerateRequest {
    pub model: String,
    pub prompt: String,
    pub system: Option<String>,
    pub options: Option<Options>,
    pub format: Option<Format>,
    pub stream: bool,
}

/// What a `GenerateRequest` holds.
pub struct GenerateRequestView {
    pub model: Seq<char>,
    pub prompt: Seq<char>,
    pub system: Option<Seq<char>>,
    pub options: Option<OptionsView>,
    pub format: Option<Format>,
    pub stream: bool,
}

impl DeepView for GenerateRequest {
    type V = GenerateRequestView;

    open spec fn deep_view(&self) -> GenerateRequestView {
        GenerateRequestView {
            model: self.model@,
            prompt: self.prompt@,
            system: self.system.deep_view(),
            options: self.options.deep_view(),
            format: self.format,
            stream: self.stream,
        }
    }
}

impl Clone for GenerateRequest {
    fn clone(&self) -> (r: Self)
        ensures
            r.deep_view() == self.deep_view(),
    {
        let options: Option<Options> = match &self.options {
            Some(o) => Some(o.clone()),
            None => None,
        };
        GenerateRequest {
            model: self.model.clone(),
            prompt: self.prompt.clone(),
            system: copy_opt(&self.system),
            options,
            format: self.format,
            stream: self.stream,
        }
    }
}

/// A number as it is sent.
pub open spec fn number(n: Option<i32>) -> Option<JsonView> {
    match n {
        Some(k) => Some(JsonView::Int(k as int)),
        None => None,
    }
}

/// The limits as they are sent, without those that are not set.
pub open spec fn options_json(o: OptionsView) -> JsonView {
    JsonView::Object(
        field(
            "temperature"@,
            match o.temperature {
                Some(t) => Some(JsonView::Real(t)),
                None => None,
            },
        ) + field("num_predict"@, number(o.num_predict)) + field("num_ctx"@, number(o.num_ctx)),
    )
}

/// A request as it is sent, without what is not set.
pub open spec fn request_json(q: GenerateRequestView) -> JsonView {
    JsonView::Object(
        seq![("model"@, JsonView::Str(q.model)), ("prompt"@, JsonView::Str(q.prompt))] + field(
            "system"@,
            match q.system {
                Some(s) => Some(JsonView::Str(s)),
                None => None,
            },
        ) + field(
            "options"@,
            match q.options {
                Some(o) => Some(options_json(o)),
                None => None,
            },
        ) + field(
            "format"@,
            match q.format {
                Some(Format::Json) => Some(JsonView::Str("json"@)),
                None => None,
            },
        ) + seq![("stream"@, JsonView::Bool(q.stream))],
    )
}

impl Options {
    /// The limits as they are sent.
    pub fn to_json(&self) -> (r: Json)
        ensures
            r@ == options_json(self.deep_view()),
    {
        let mut f: Vec<(String, Json)> = Vec::new();
        match &self.temperature {
            Some(t) => {
                put(&mut f, "temperature", Json::Real(t.clone()));
            },
            None => {},
        }
        match self.num_predict {
            Some(n) => {
                put(&mut f, "num_predict", Json::I64(n as i64));
            },
            None => {},
        }
        match self.num_ctx {
            Some(n) => {
                put(&mut f, "num_ctx", Json::I64(n as i64));
            },
            None => {},
        }
        assert(f.deep_view() =~= options_json(self.deep_view())->Object_0);
        Json::object(f)
    }
}

impl GenerateRequest {
    /// The request as it is sent.
    pub fn to_json(&self) -> (r: Json)
        ensures
            r@ == request_json(self.deep_view()),
    {
        let mut f: Vec<(String, Json)> = Vec::new();
        put(&mut f, "model", Json::text(self.model.as_str()));
        put(&mut f, "prompt", Json::text(self.prompt.as_str()));
        match &self.system {
            Some(s) => {
                put(&mut f, "system", Json::text(s.as_str()));
            },
            None => {},
        }
        match &self.options {
            Some(o) => {
                put(&mut f, "options", o.to_json());
            },
            None => {},
        }
        match self.format {
            Some(Format::Json) => {
                put(&mut f, "format", Json::text("json"));
            },
            None => {},
        }
        put(&mut f, "stream", Json::Bool(self.stream));
        assert(f.deep_view() =~= request_json(self.deep_view())->Object_0);
        Json::object(f)
    }
}

/// One reply.
#[derive(Debug)]
pub struct GenerateResponse {
    pub response: String,
    pub model: String,
    pub total_duration: Option<u64>,
    pub eval_count: Option<i64>,
}

/// What a `GenerateResponse` holds.
pub struct GenerateResponseView {
    pub response: Seq<char>,
    pub model: Seq<char>,
    pub total_duration: Option<u64>,
    pub eval_count: Option<i64>,
}

impl DeepView for GenerateResponse {
    type V = GenerateResponseView;

    open spec fn deep_view(&self) -> GenerateResponseView {
        GenerateResponseView {
            response: self.response@,
            model: self.model@,
            total_duration: self.total_duration,
            eval_count: self.eval_count,
        }
    }
}

impl Clone for GenerateResponse {
    fn clone(&self) -> (r: Self)
        ensures
            r.deep_view() == self.deep_view(),
    {
        GenerateResponse {
            response: self.response.clone(),
            model: self.model.clone(),
            total_duration: self.total_duration,
            eval_count: self.eval_count,
        }
    }
}

/// A count that may be missing or null; nothing for anything else.
pub open spec fn opt_u64_of(v: Option<JsonView>) -> Option<Option<u64>> {
    match v {
        None | Some(JsonView::Null) => Some(None),
        Some(j) => match j.as_u64() {
            Some(n) => Some(Some(n)),
            None => None,
        },
    }
}

/// A signed count that may be missing or null; nothing for anything else.
pub open spec fn opt_i64_of(v: Option<JsonView>) -> Option<Option<i64>> {
    match v {
        None | Some(JsonView::Null) => Some(None),
        Some(j) => match j.as_i64() {
            Some(n) => Some(Some(n)),
            None => None,
        },
    }
}

/// The fields of a reply.
pub open spec fn reply_names() -> Seq<Seq<char>> {
    seq!["response"@, "model"@, "total_duration"@, "eval_count"@]
}

/// The reply that a document writes, as an object or as a list, which may leave
/// out the counts at its end.
pub open spec fn reply_of(j: JsonView) -> Option<GenerateResponseView> {
    reply_in(record(j, reply_names(), 2))
}

/// The reply that an object writes.
pub open spec fn reply_in(j: JsonView) -> Option<GenerateResponseView> {
    match (
        j.str_at("response"@),
        j.str_at("model"@),
        opt_u64_of(j.get("total_duration"@)),
        opt_i64_of(j.get("eval_count"@)),
    ) {
        (Some(response), Some(model), Some(total_duration), Some(eval_count)) => Some(
            GenerateResponseView { response, model, total_duration, eval_count },
        ),
        _ => None,
    }
}

/// What an answer of the server says: a status outside 200 to 299 is a
/// refusal, and anything but a reply is an error, as is one that names a field
/// twice.
pub open spec fn answer_of(status: u16, body: Seq<char>) -> Result<
    GenerateResponseView,
    LlmErrorView,
> {
    if status < 200 || status > 299 {
        Err(LlmErrorView::BadStatus { status, body })
    } else {
        match json_document(body) {
            Some(j) => match reply_of(j) {
                Some(r) if !repeats(body, reply_names()) => Ok(r),
                _ => Err(LlmErrorView::Http("the reply is incomplete"@)),
            },
            None => Err(LlmErrorView::Http("the reply is not JSON"@)),
        }
    }
}

/// The reply that a document writes, as an object or as a list.
pub fn read_reply(j: &Json) -> (r: Option<GenerateResponse>)
    ensures
        r.deep_view() == reply_of(j@),
{
    match j {
        Json::Array(v) => {
            let list = ["response", "model", "total_duration", "eval_count"];
            let names: &[&str] = &list;
            assert(names.deep_view() =~= reply_names());
            assert(j@->Array_0 =~= v.deep_view());
            read_reply_fields(&record_of(v, names, 2))
        },
        _ => read_reply_fields(j),
    }
}

fn read_reply_fields(j: &Json) -> (r: Option<GenerateResponse>)
    ensures
        r.deep_view() == reply_in(j@),
{
    let total_duration: Option<u64> = match j.get("total_duration") {
        None => None,
        Some(v) => if v.is_null() {
            None
        } else {
            match v.as_u64() {
                Some(n) => Some(n),
                None => {
                    return None;
                },
            }
        },
    };
    let eval_count: Option<i64> = match j.get("eval_count") {
        None => None,
        Some(v) => if v.is_null() {
            None
        } else {
            match v.as_i64() {
                Some(n) => Some(n),
                None => {
                    return None;
                },
            }
        },
    };
    match (j.string_at("response"), j.string_at("model")) {
        (Some(response), Some(model)) => Some(
            GenerateResponse { response, model, total_duration, eval_count },
        ),
        _ => None,
    }
}

/// What an answer of the server says.
pub fn read_answer(status: u16, body: &str) -> (r: Result<GenerateResponse, LlmError>)
    ensures
        r is Ok == answer_of(status, body@) is Ok,
        r is Ok ==> r->Ok_0.deep_view() == answer_of(status, body@)->Ok_0,
        r is Err ==> r->Err_0.deep_view() == answer_of(status, body@)->Err_0,
{
    if status < 200 || status > 299 {
        return Err(LlmError::BadStatus { status, body: body.to_string() });
    }
    match parse_json(body) {
        Some(j) => {
            let list = ["response", "model", "total_duration", "eval_count"];
            let names: &[&str] = &list;
            assert(names.deep_view() =~= reply_names());
            let twice: bool = names_twice(body, names);
            match read_reply(&j) {
                Some(r) => if twice {
                    Err(LlmError::Http("the reply is incomplete".to_string()))
                } else {
                    Ok(r)
                },
                None => Err(LlmError::Http("the reply is incomplete".to_string())),
            }
        },
        None => Err(LlmError::Http("the reply is not JSON".to_string())),
    }
}

/// A model that gives prepared replies, and remembers what it was asked.
pub struct MockClient {
    replies: Vec<String>,
    next: usize,
    asked: Vec<GenerateRequest>,
}

impl MockClient {
    /// The replies that are left.
    pub closed spec fn queued(&self) -> Seq<Seq<char>> {
        self.replies.deep_view().skip(self.next as int)
    }

    /// What it was asked.
    pub closed spec fn asked(&self) -> Seq<GenerateRequestView> {
        self.asked.deep_view()
    }

    /// Whether the model is in order.
    pub closed spec fn wf(&self) -> bool {
        self.next <= self.replies@.len()
    }

    /// A model with prepared replies.
    pub fn new(replies: Vec<&str>) -> (r: Self)
        ensures
            r.wf(),
            r.queued() == replies.deep_view(),
            r.asked() == Seq::<GenerateRequestView>::empty(),
    {
        let ghost all = replies.deep_view();
        let mut list: Vec<String> = Vec::new();
        let mut i: usize = 0;
        assert(list.deep_view() =~= all.take(0));
        while i < replies.len()
            invariant
                all == replies.deep_view(),
                i <= replies@.len(),
                list.deep_view() == all.take(i as int),
            decreases replies@.len() - i,
        {
            assert(all[i as int] == replies@[i as int]@);
            push_item(&mut list, replies[i].to_string());
            assert(all.take(i + 1) =~= all.take(i as int).push(all[i as int]));
            i = i + 1;
        }
        assert(list.deep_view().skip(0) =~= all);
        let r = MockClient { replies: list, next: 0, asked: Vec::new() };
        assert(r.asked.deep_view() =~= Seq::<GenerateRequestView>::empty());
        r
    }

    /// What it was asked, in order.
    pub fn calls(&self) -> (r: &Vec<GenerateRequest>)
        ensures
            r.deep_view() == self.asked(),
    {
        &self.asked
    }

    /// Gives the next reply, or a placeholder once they have run out.
    pub fn generate(&mut self, req: GenerateRequest) -> (r: GenerateResponse)
        requires
            old(self).wf(),
        ensures
            final(self).wf(),
            final(self).asked() == old(self).asked().push(req.deep_view()),
            old(self).queued().len() > 0 ==> final(self).queued() == old(self).queued().skip(1)
                && r.response@ == old(self).queued()[0],
            old(self).queued().len() == 0 ==> final(self).queued() == old(self).queued()
                && r.response@ == "(no reply queued)"@,
            r.model@ == req.model@,
            r.total_duration == Some(0u64),
            r.eval_count == Some(0i64),
    {
        let ghost all = self.replies.deep_view();
        let response: String = if self.next < self.replies.len() {
            let s: String = self.replies[self.next].clone();
            assert(all[self.next as int] == s@);
            assert(all.skip(self.next as int).skip(1) =~= all.skip(self.next + 1));
            self.next = self.next + 1;
            s
        } else {
            "(no reply queued)".to_string()
        };
        let model: String = req.model.clone();
        push_item(&mut self.asked, req);
        GenerateResponse { response, model, total_duration: Some(0), eval_count: Some(0) }
    }
}

} // verus!
