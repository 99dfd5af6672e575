//! Asks a language model which name lookups are notable.
//!
//! Lookups are summed up by name and program, the busiest first. A name that
//! the system masks goes by its hash, and is marked.

use vstd::prelude::*;
use vstd::string::*;

use crate::agents::{
    build_request, names_verdict_field_twice, opt_text_at, opt_text_of, or_text, parsed_reply,
    read_verdict, request_of, verdict_with, AgentConfig, Report, ReportView,
};
use crate::events::{Event, EventKind, EventView};
use crate::json::{copy_opt, opt_str, put, Json, JsonView};
use crate::json_parse::parse_json;
use crate::json_record::{record, record_of};
use crate::llm::{Format, GenerateRequest, GenerateResponse};
use crate::order::{first_n, insert_row, keyed, sort_by_key};
use crate::seqs::{
    collect, convert, count_where, count_where_step, filter_map_start,
    filter_map_step, push_item, take_all, uniques, whole,
};
use crate::store_lineage::unique_texts;
use crate::tally::{copy_pair, low_32, unique_pairs, wrapped32};
use crate::text::{
    chars_of, decimal, flat, join_texts, joined, str_eq, string_of, trim, trim_text, Parts,
};
use crate::timeline::or_unknown;

verus! {

/// A lookup that is notable.
#[derive(Debug)]
pub struct DnsFinding {
    pub domain: String,
    pub client_process: Option<String>,
    pub reason: String,
    pub severity: String,
}

/// What a `DnsFinding` holds.
pub struct DnsFindingView {
    pub domain: Seq<char>,
    pub client_process: Option<Seq<char>>,
    pub reason: Seq<char>,
    pub severity: Seq<char>,
}

impl DeepView for DnsFinding {
    type V = DnsFindingView;

    open spec fn deep_view(&self) -> DnsFindingView {
        DnsFindingView {
            domain: self.domain@,
            client_process: self.client_process.deep_view(),
            reason: self.reason@,
            severity: self.severity@,
        }
    }
}

impl Clone for DnsFinding {
    fn clone(&self) -> (r: Self)
        ensures
            r.deep_view() == self.deep_view(),
    {
        DnsFinding {
            domain: self.domain.clone(),
            client_process: copy_opt(&self.client_process),
            reason: self.reason.clone(),
            severity: self.severity.clone(),
        }
    }
}

/// The fields of a finding.
pub open spec fn finding_names() -> Seq<Seq<char>> {
    seq!["domain"@, "client_process"@, "reason"@, "severity"@]
}

/// The finding that a document writes, as an object or as a list.
pub open spec fn finding_of() -> spec_fn(JsonView) -> Option<DnsFindingView> {
    |j: JsonView| finding_in()(record(j, finding_names(), 4))
}

/// The finding that an object writes.
pub open spec fn finding_in() -> spec_fn(JsonView) -> Option<DnsFindingView> {
    |j: JsonView|
        match (
            j.str_at("domain"@),
            opt_text_of(j.get("client_process"@)),
            j.str_at("reason"@),
            j.str_at("severity"@),
        ) {
            (Some(domain), Some(client_process), Some(reason), Some(severity)) => Some(
                DnsFindingView { domain, client_process, reason, severity },
            ),
            _ => None,
        }
}

fn read_finding(j: &Json) -> (r: Option<DnsFinding>)
    ensures
        r.deep_view() == finding_of()(j.deep_view()),
{
    match j {
        Json::Array(v) => {
            let list = ["domain", "client_process", "reason", "severity"];
            let names: &[&str] = &list;
            assert(names.deep_view() =~= finding_names());
            assert(j@->Array_0 =~= v.deep_view());
            read_finding_fields(&record_of(v, names, 4))
        },
        _ => read_finding_fields(j),
    }
}

fn read_finding_fields(j: &Json) -> (r: Option<DnsFinding>)
    ensures
        r.deep_view() == finding_in()(j.deep_view()),
{
    match (
        j.string_at("domain"),
        opt_text_at(j, "client_process"),
        j.string_at("reason"),
        j.string_at("severity"),
    ) {
        (Some(domain), Some(client_process), Some(reason), Some(severity)) => Some(
            DnsFinding { domain, client_process, reason, severity },
        ),
        _ => None,
    }
}

/// A finding as JSON.
pub open spec fn finding_json() -> spec_fn(DnsFindingView) -> JsonView {
    |f: DnsFindingView|
        JsonView::Object(
            seq![
                ("domain"@, JsonView::Str(f.domain)),
                ("client_process"@, opt_str(f.client_process)),
                ("reason"@, JsonView::Str(f.reason)),
                ("severity"@, JsonView::Str(f.severity)),
            ],
        )
}

fn finding_to_json(f: &DnsFinding) -> (r: Json)
    ensures
        r.deep_view() == finding_json()(f.deep_view()),
{
    let mut o: Vec<(String, Json)> = Vec::new();
    put(&mut o, "domain", Json::text(f.domain.as_str()));
    put(&mut o, "client_process", Json::opt_text(&f.client_process));
    put(&mut o, "reason", Json::text(f.reason.as_str()));
    put(&mut o, "severity", Json::text(f.severity.as_str()));
    assert(o.deep_view() =~= finding_json()(f.deep_view())->Object_0);
    Json::object(o)
}

/// All lookups of a name by a program.
#[derive(Debug)]
pub struct Aggregate {
    pub domain: String,
    pub client_process: String,
    pub queries: u32,
    pub qtypes: Vec<String>,
    /// Whether every lookup was masked.
    pub masked: bool,
}

/// What an `Aggregate` holds.
pub struct AggregateView {
    pub domain: Seq<char>,
    pub client_process: Seq<char>,
    pub queries: u32,
    pub qtypes: Seq<Seq<char>>,
    pub masked: bool,
}

impl DeepView for Aggregate {
    type V = AggregateView;

    open spec fn deep_view(&self) -> AggregateView {
        AggregateView {
            domain: self.domain@,
            client_process: self.client_process@,
            queries: self.queries,
            qtypes: self.qtypes.deep_view(),
            masked: self.masked,
        }
    }
}

/// Whether a lookup is masked; it is not unless it says so.
pub open spec fn is_masked(p: JsonView) -> bool {
    p.bool_at("masked"@) == Some(true)
}

/// A name without one dot at its end.
pub open spec fn without_dot(s: Seq<char>) -> Seq<char> {
    if s.len() > 0 && s.last() == '.' {
        s.drop_last()
    } else {
        s
    }
}

/// The id of a name: the name itself without a dot at its end, or its hash
/// where the name is masked, empty or missing; none without either.
pub open spec fn id_of_domain(p: JsonView) -> Option<Seq<char>> {
    let by_hash = match p.str_at("name_hash"@) {
        Some(h) => if h.len() > 0 {
            Some("hash:"@ + h)
        } else {
            None
        },
        None => None,
    };
    match p.str_at("qname"@) {
        Some(q) => if q.len() > 0 && !is_masked(p) {
            Some(without_dot(q))
        } else {
            by_hash
        },
        None => by_hash,
    }
}

/// The program that asked: the one that its process is known to run, or else
/// the one that the resolver named.
pub open spec fn client_of(p: JsonView) -> Seq<char> {
    let known = match p.get("process"@) {
        Some(v) => v.str_at("comm"@),
        None => None,
    };
    match known {
        Some(c) => c,
        None => or_unknown(p.str_at("client_process_name"@)),
    }
}

/// A name without one dot at its end.
fn undot(s: &str) -> (r: String)
    ensures
        r@ == without_dot(s@),
{
    let cs: Vec<char> = chars_of(s);
    let n: usize = cs.len();
    if n > 0 && cs[n - 1] == '.' {
        let r = string_of(cs.as_slice(), 0, n - 1);
        assert(r@ =~= s@.drop_last());
        r
    } else {
        s.to_string()
    }
}

fn masked_of(p: &Json) -> (r: bool)
    ensures
        r == is_masked(p@),
{
    match p.bool_at("masked") {
        Some(b) => b,
        None => false,
    }
}

/// The id of the name that a payload asks for.
pub fn domain_id(p: &Json) -> (r: Option<String>)
    ensures
        r.deep_view() == id_of_domain(p@),
{
    match p.str_at("qname") {
        Some(q) => if !q.is_empty() && !masked_of(p) {
            return Some(undot(q));
        },
        None => {},
    }
    match p.str_at("name_hash") {
        Some(h) => if h.is_empty() {
            None
        } else {
            let mut s = "hash:".to_string();
            s.append(h);
            Some(s)
        },
        None => None,
    }
}

/// The program that a payload says asked.
pub fn client_name(p: &Json) -> (r: String)
    ensures
        r@ == client_of(p@),
{
    match p.get("process") {
        Some(v) => match v.string_at("comm") {
            Some(c) => {
                return c;
            },
            None => {},
        },
        None => {},
    }
    match p.string_at("client_process_name") {
        Some(c) => c,
        None => "?".to_string(),
    }
}

/// One lookup: the name's id and the program, the type of record, and whether
/// it was masked.
pub struct Query {
    pub key: (String, String),
    pub qtype: Option<String>,
    pub masked: bool,
}

/// What a `Query` holds.
pub struct QueryView {
    pub key: (Seq<char>, Seq<char>),
    pub qtype: Option<Seq<char>>,
    pub masked: bool,
}

impl DeepView for Query {
    type V = QueryView;

    open spec fn deep_view(&self) -> QueryView {
        QueryView {
            key: self.key.deep_view(),
            qtype: self.qtype.deep_view(),
            masked: self.masked,
        }
    }
}

/// The lookup that an event is.
pub open spec fn query() -> spec_fn(EventView) -> Option<QueryView> {
    |e: EventView|
        match id_of_domain(e.payload) {
            Some(d) => if e.kind == EventKind::DnsQuery {
                Some(
                    QueryView {
                        key: (d, client_of(e.payload)),
                        qtype: e.payload.str_at("qtype"@),
                        masked: is_masked(e.payload),
                    },
                )
            } else {
                None
            },
            None => None,
        }
}

/// Whether a lookup has a key.
pub open spec fn has_key(k: (Seq<char>, Seq<char>)) -> spec_fn(QueryView) -> bool {
    |q: QueryView| q.key == k
}

/// Whether a lookup has a key and is not masked.
pub open spec fn plain_with(k: (Seq<char>, Seq<char>)) -> spec_fn(QueryView) -> bool {
    |q: QueryView| q.key == k && !q.masked
}

/// The type of record of a lookup with a key.
pub open spec fn qtype_with(k: (Seq<char>, Seq<char>)) -> spec_fn(QueryView) -> Option<Seq<char>> {
    |q: QueryView|
        if q.key == k {
            q.qtype
        } else {
            None
        }
}

/// The sums over the lookups with a key.
pub open spec fn summed(qs: Seq<QueryView>) -> spec_fn((Seq<char>, Seq<char>)) -> AggregateView {
    |k: (Seq<char>, Seq<char>)|
        AggregateView {
            domain: k.0,
            client_process: k.1,
            queries: wrapped32(count_where(qs, has_key(k)) as int),
            qtypes: uniques(qs.filter_map(qtype_with(k))),
            masked: count_where(qs, plain_with(k)) == 0,
        }
}

/// The keys of lookups.
pub open spec fn query_keys(qs: Seq<QueryView>) -> Seq<(Seq<char>, Seq<char>)> {
    qs.map_values(|q: QueryView| q.key)
}

/// Sums are ordered by their lookups, most first.
pub open spec fn busiest_first() -> spec_fn(AggregateView) -> int {
    |a: AggregateView| -(a.queries as int)
}

/// The lookups of a window, summed up by key, the busiest first.
pub open spec fn aggregates(events: Seq<EventView>) -> Seq<AggregateView> {
    let qs = events.filter_map(query());
    sort_by_key(uniques(query_keys(qs)).map_values(summed(qs)), busiest_first())
}

fn query_of(e: &Event) -> (r: Option<Query>)
    ensures
        r.deep_view() == query()(e.deep_view()),
{
    if e.kind != EventKind::DnsQuery {
        return None;
    }
    let p: &Json = &e.payload;
    match domain_id(p) {
        Some(d) => Some(
            Query {
                key: (d, client_name(p)),
                qtype: p.string_at("qtype"),
                masked: masked_of(p),
            },
        ),
        None => None,
    }
}

fn key_of(q: &Query) -> (r: (String, String))
    ensures
        r.deep_view() == (|q: QueryView| q.key)(q.deep_view()),
{
    copy_pair(&q.key)
}

fn sum_up(qs: &Vec<Query>, k: &(String, String)) -> (r: Aggregate)
    ensures
        r.deep_view() == summed(qs.deep_view())(k.deep_view()),
{
    let ghost all = qs.deep_view();
    let ghost key = k.deep_view();
    let ghost g = qtype_with(key);
    let mut n: u64 = 0;
    let mut plain: u64 = 0;
    let mut types: Vec<String> = Vec::new();
    let mut i: usize = 0;
    proof {
        filter_map_start(all, g);
        assert(types.deep_view() =~= Seq::<Seq<char>>::empty());
    }
    while i < qs.len()
        invariant
            all == qs.deep_view(),
            key == k.deep_view(),
            g == qtype_with(key),
            i <= qs@.len(),
            n <= i,
            n == count_where(all.take(i as int), has_key(key)),
            plain <= i,
            plain == count_where(all.take(i as int), plain_with(key)),
            types.deep_view() == all.take(i as int).filter_map(g),
        decreases qs@.len() - i,
    {
        assert(all[i as int] == qs@[i as int].deep_view());
        proof {
            count_where_step(all, has_key(key), i as int);
            count_where_step(all, plain_with(key), i as int);
            filter_map_step(all, g, i as int);
        }
        let q: &Query = &qs[i];
        if str_eq(q.key.0.as_str(), k.0.as_str()) && str_eq(q.key.1.as_str(), k.1.as_str()) {
            n = n + 1;
            if !q.masked {
                plain = plain + 1;
            }
            match copy_opt(&q.qtype) {
                Some(t) => {
                    push_item(&mut types, t);
                },
                None => {},
            }
        }
        i = i + 1;
    }
    proof {
        take_all(all);
    }
    Aggregate {
        domain: k.0.clone(),
        client_process: k.1.clone(),
        queries: low_32(n),
        qtypes: unique_texts(&types),
        masked: plain == 0,
    }
}

/// The lookups of a window, summed up by name and program, the busiest first.
pub fn aggregate(events: &[Event]) -> (r: Vec<Aggregate>)
    ensures
        r.deep_view() == aggregates(events.deep_view()),
{
    let qs: Vec<Query> = collect(events, query_of, Ghost(query()));
    let ghost all = qs.deep_view();
    let keys: Vec<(String, String)> = convert(whole(&qs), key_of, Ghost(|q: QueryView| q.key));
    let once: Vec<(String, String)> = unique_pairs(&keys);
    let ghost u = uniques(query_keys(all));
    let ghost rows = u.map_values(summed(all));
    let mut out: Vec<Aggregate> = Vec::new();
    let mut order: Vec<i128> = Vec::new();
    let mut i: usize = 0;
    assert(out.deep_view() =~= sort_by_key(rows.take(0), busiest_first()));
    while i < once.len()
        invariant
            all == qs.deep_view(),
            u == once.deep_view(),
            rows == u.map_values(summed(all)),
            i <= once@.len(),
            out.deep_view() == sort_by_key(rows.take(i as int), busiest_first()),
            keyed(out.deep_view(), busiest_first(), order@),
        decreases once@.len() - i,
    {
        assert(rows.take(i + 1).drop_last() =~= rows.take(i as int));
        assert(u[i as int] == once@[i as int].deep_view());
        let row: Aggregate = sum_up(&qs, &once[i]);
        let k: i128 = -(row.queries as i128);
        insert_row(&mut out, &mut order, row, k, Ghost(busiest_first()));
        i = i + 1;
    }
    proof {
        take_all(rows);
    }
    out
}

/// The word for a truth value.
pub open spec fn bool_text(b: bool) -> Seq<char> {
    if b {
        "true"@
    } else {
        "false"@
    }
}

/// A sum as a line.
pub open spec fn row_text() -> spec_fn(AggregateView) -> Seq<char> {
    |a: AggregateView|
        flat(
            seq![
                "domain="@,
                a.domain,
                " process="@,
                a.client_process,
                " queries="@,
                decimal(a.queries as nat),
                " qtypes="@,
                if a.qtypes.len() == 0 {
                    "?"@
                } else {
                    joined(a.qtypes, ","@)
                },
                " masked="@,
                bool_text(a.masked),
            ],
        )
}

fn row_to_text(a: &Aggregate) -> (r: String)
    ensures
        r.deep_view() == row_text()(a.deep_view()),
{
    let mut p = Parts::new();
    p.add("domain=");
    p.add(a.domain.as_str());
    p.add(" process=");
    p.add(a.client_process.as_str());
    p.add(" queries=");
    p.add_number(a.queries as u64);
    p.add(" qtypes=");
    if a.qtypes.len() == 0 {
        p.add("?");
    } else {
        p.add(join_texts(&a.qtypes, ",").as_str());
    }
    p.add(" masked=");
    if a.masked {
        p.add("true");
    } else {
        p.add("false");
    }
    p.finish()
}

/// The sums, one to a line.
pub fn render_table(rows: &[Aggregate]) -> (r: String)
    ensures
        r@ == joined(rows.deep_view().map_values(row_text()), "\n"@),
{
    let lines: Vec<String> = convert(rows, row_to_text, Ghost(row_text()));
    join_texts(&lines, "\n")
}

/// What the model is asked, between the numbers and the table.
pub const REVIEW_TASK: &'static str = " (domain, client process) pairs observed as DNS queries during a macOS capture. Identify any that look notable: algorithmically-generated names, raw IPs or punycode, unusual TLDs, processes that should not normally resolve names, or query volume high enough to suggest DNS tunneling. Lines marked masked=true are privacy-redacted by macOS — do not guess what they are; only flag them if their volume alone is anomalous. Do not flag well-known services. Return ONLY valid JSON of this shape:\n{\n  \"summary\": \"<one or two sentences>\",\n  \"findings\": [\n    { \"domain\": \"<string>\", \"client_process\": \"<string or null>\", \"reason\": \"<concise English>\", \"severity\": \"low\"|\"medium\"|\"high\" }\n  ]\n}\n\nQUERIES:\n";

/// How the model is to judge.
pub const REVIEW_SYSTEM: &'static str = "You are a DNS security analyst reviewing name-resolution activity. Be conservative: flag only what is genuinely unusual. Output strictly valid JSON; no prose outside the JSON object.";

/// The prompt about the first sums.
pub open spec fn review_prompt(all: Seq<AggregateView>, max: usize) -> Seq<char> {
    let shown = first_n(all, max as int);
    flat(
        seq![
            "Below is a summary of "@,
            decimal(shown.len()),
            " of "@,
            decimal(all.len()),
            REVIEW_TASK@,
            joined(shown.map_values(row_text()), "\n"@),
        ],
    )
}

/// The report about lookups: what the reply says, or the reply itself where it
/// is not in the form asked for.
pub open spec fn review_report(
    all: Seq<AggregateView>,
    max: usize,
    verdict: Option<(Seq<char>, Seq<DnsFindingView>)>,
    raw: Seq<char>,
    model: Seq<char>,
) -> ReportView {
    let (summary, findings) = or_text(verdict, raw);
    ReportView {
        summary,
        details: JsonView::Object(
            seq![
                ("domains_unique"@, JsonView::Int(all.len() as int)),
                ("domains_sampled"@, JsonView::Int(first_n(all, max as int).len() as int)),
                ("findings"@, JsonView::Array(findings.map_values(finding_json()))),
            ],
        ),
        model,
    }
}

/// The summary and the findings of a reply that is a document with both, each
/// finding complete.
pub fn read_findings(j: &Json) -> (r: Option<(String, Vec<DnsFinding>)>)
    ensures
        r.deep_view() == verdict_with(j@, finding_of()),
{
    read_verdict(j, read_finding, Ghost(finding_of()))
}

/// Reviews name lookups.
pub struct DnsReviewer {
    pub config: AgentConfig,
}

impl DnsReviewer {
    /// Reviews with a configuration.
    pub fn new(config: AgentConfig) -> (r: Self)
        ensures
            r.config == config,
    {
        DnsReviewer { config }
    }

    /// What is asked about lookups: about as many sums as the configuration
    /// allows, the busiest first.
    pub fn request(&self, all: &Vec<Aggregate>) -> (r: GenerateRequest)
        ensures
            r.deep_view() == request_of(
                self.config.deep_view(),
                review_prompt(all.deep_view(), self.config.max_input_items),
                REVIEW_SYSTEM@,
                1024,
                Some(Format::Json),
            ),
    {
        let cap: usize = if self.config.max_input_items < all.len() {
            self.config.max_input_items
        } else {
            all.len()
        };
        let shown: &[Aggregate] = vstd::slice::slice_subrange(all.as_slice(), 0, cap);
        assert(shown.deep_view() =~= first_n(
            all.deep_view(),
            self.config.max_input_items as int,
        ));
        let mut p = Parts::new();
        p.add("Below is a summary of ");
        p.add_number(cap as u64);
        p.add(" of ");
        p.add_number(all.len() as u64);
        p.add(REVIEW_TASK);
        p.add(render_table(shown).as_str());
        build_request(&self.config, p.finish(), REVIEW_SYSTEM, 1024, Some(Format::Json))
    }

    /// The report about lookups, for what a reply was read as.
    pub fn report_of(
        &self,
        all: &Vec<Aggregate>,
        verdict: Option<(String, Vec<DnsFinding>)>,
        raw: &str,
        model: &str,
    ) -> (r: Report)
        ensures
            r.deep_view() == review_report(
                all.deep_view(),
                self.config.max_input_items,
                verdict.deep_view(),
                raw@,
                model@,
            ),
    {
        let ghost v = verdict.deep_view();
        let (summary, findings): (String, Vec<DnsFinding>) = match verdict {
            Some(p) => p,
            None => {
                let none: Vec<DnsFinding> = Vec::new();
                assert(none.deep_view() =~= Seq::<DnsFindingView>::empty());
                (raw.to_string(), none)
            },
        };
        let cap: usize = if self.config.max_input_items < all.len() {
            self.config.max_input_items
        } else {
            all.len()
        };
        let mut o: Vec<(String, Json)> = Vec::new();
        put(&mut o, "domains_unique", Json::U64(all.len() as u64));
        put(&mut o, "domains_sampled", Json::U64(cap as u64));
        put(
            &mut o,
            "findings",
            Json::array(convert(whole(&findings), finding_to_json, Ghost(finding_json()))),
        );
        assert(o.deep_view() =~= review_report(
            all.deep_view(),
            self.config.max_input_items,
            v,
            raw@,
            model@,
        ).details->Object_0);
        Report { summary, details: Json::object(o), model: model.to_string() }
    }

    /// The report that a reply about lookups makes.
    pub fn report(&self, all: &Vec<Aggregate>, reply: &GenerateResponse) -> (r: Report)
        ensures
            r.deep_view() == review_report(
                all.deep_view(),
                self.config.max_input_items,
                parsed_reply(trim(reply.response@), finding_names(), finding_of()),
                trim(reply.response@),
                reply.model@,
            ),
    {
        let raw: String = trim_text(reply.response.as_str());
        let list = ["domain", "client_process", "reason", "severity"];
        let fields: &[&str] = &list;
        assert(fields.deep_view() =~= finding_names());
        let twice: bool = names_verdict_field_twice(raw.as_str(), fields);
        let verdict: Option<(String, Vec<DnsFinding>)> = match parse_json(raw.as_str()) {
            Some(j) => if twice {
                None
            } else {
                read_findings(&j)
            },
            None => None,
        };
        self.report_of(all, verdict, raw.as_str(), reply.model.as_str())
    }
}

/// A masked lookup goes by the hash of its name, never by the name.
pub proof fn masked_lookups_go_by_hash(e: EventView)
    requires
        is_masked(e.payload),
        query()(e) is Some,
    ensures
        query()(e)->0.masked,
        e.payload.str_at("name_hash"@) is Some,
        (query()(e)->0).key.0 == "hash:"@ + e.payload.str_at("name_hash"@)->0,
{
}

} // verus!
