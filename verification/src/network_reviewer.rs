//! Asks a language model which network conversations are notable.
//!
//! Completed connections are summed up by host, port and program, the largest
//! conversations first. The port is told apart because a host means something
//! else on another port.

use vstd::prelude::*;
use vstd::string::*;

use crate::agents::{
    build_request, names_verdict_field_twice, opt_text_at, opt_text_of, or_text, parsed_reply,
    read_verdict, request_of, verdict_with, AgentConfig, Report, ReportView,
};
use crate::analytics::wrapped;
use crate::events::{Event, EventKind, EventView};
use crate::json::{copy_opt, opt_str, put, Json, JsonView};
use crate::json_parse::parse_json;
use crate::json_record::{record, record_of};
use crate::llm::{Format, GenerateRequest, GenerateResponse};
use crate::order::{first_n, insert_row, keyed, sort_by_key, sort_by_key_sorts};
use crate::seqs::{
    collect, convert, count_where, count_where_step, distinct, distinct_by, rearranged_stays_distinct,
    sum_of, take_all, uniques, uniques_are_distinct, whole,
};
use crate::tally::{low_32, wrapped32, wrapped_step};
use crate::text::{
    decimal, flat, join_texts, joined, split_at_last, split_last, str_eq, trim, trim_text, Parts,
};
use crate::timeline::{number_or_zero, or_unknown, or_zero, text_or_unknown};

verus! {

/// A conversation that is notable.
#[derive(Debug)]
pub struct NetworkFinding {
    pub foreign_host: String,
    pub process_name: Option<String>,
    pub reason: String,
    pub severity: String,
}

/// What a `NetworkFinding` holds.
pub struct NetworkFindingView {
    pub foreign_host: Seq<char>,
    pub process_name: Option<Seq<char>>,
    pub reason: Seq<char>,
    pub severity: Seq<char>,
}

impl DeepView for NetworkFinding {
    type V = NetworkFindingView;

    open spec fn deep_view(&self) -> NetworkFindingView {
        NetworkFindingView {
            foreign_host: self.foreign_host@,
            process_name: self.process_name.deep_view(),
            reason: self.reason@,
            severity: self.severity@,
        }
    }
}

impl Clone for NetworkFinding {
    fn clone(&self) -> (r: Self)
        ensures
            r.deep_view() == self.deep_view(),
    {
        NetworkFinding {
            foreign_host: self.foreign_host.clone(),
            process_name: copy_opt(&self.process_name),
            reason: self.reason.clone(),
            severity: self.severity.clone(),
        }
    }
}

/// The fields of a finding.
pub open spec fn finding_names() -> Seq<Seq<char>> {
    seq!["foreign_host"@, "process_name"@, "reason"@, "severity"@]
}

/// The finding that a document writes, as an object or as a list.
pub open spec fn finding_of() -> spec_fn(JsonView) -> Option<NetworkFindingView> {
    |j: JsonView| finding_in()(record(j, finding_names(), 4))
}

/// The finding that an object writes.
pub open spec fn finding_in() -> spec_fn(JsonView) -> Option<NetworkFindingView> {
    |j: JsonView|
        match (
            j.str_at("foreign_host"@),
            opt_text_of(j.get("process_name"@)),
            j.str_at("reason"@),
            j.str_at("severity"@),
        ) {
            (Some(foreign_host), Some(process_name), Some(reason), Some(severity)) => Some(
                NetworkFindingView { foreign_host, process_name, reason, severity },
            ),
            _ => None,
        }
}

fn read_finding(j: &Json) -> (r: Option<NetworkFinding>)
    ensures
        r.deep_view() == finding_of()(j.deep_view()),
{
    match j {
        Json::Array(v) => {
            let list = ["foreign_host", "process_name", "reason", "severity"];
            let names: &[&str] = &list;
            assert(names.deep_view() =~= finding_names());
            assert(j@->Array_0 =~= v.deep_view());
            read_finding_fields(&record_of(v, names, 4))
        },
        _ => read_finding_fields(j),
    }
}

fn read_finding_fields(j: &Json) -> (r: Option<NetworkFinding>)
    ensures
        r.deep_view() == finding_in()(j.deep_view()),
{
    match (
        j.string_at("foreign_host"),
        opt_text_at(j, "process_name"),
        j.string_at("reason"),
        j.string_at("severity"),
    ) {
        (Some(foreign_host), Some(process_name), Some(reason), Some(severity)) => Some(
            NetworkFinding { foreign_host, process_name, reason, severity },
        ),
        _ => None,
    }
}

/// A finding as JSON.
pub open spec fn finding_json() -> spec_fn(NetworkFindingView) -> JsonView {
    |f: NetworkFindingView|
        JsonView::Object(
            seq![
                ("foreign_host"@, JsonView::Str(f.foreign_host)),
                ("process_name"@, opt_str(f.process_name)),
                ("reason"@, JsonView::Str(f.reason)),
                ("severity"@, JsonView::Str(f.severity)),
            ],
        )
}

fn finding_to_json(f: &NetworkFinding) -> (r: Json)
    ensures
        r.deep_view() == finding_json()(f.deep_view()),
{
    let mut o: Vec<(String, Json)> = Vec::new();
    put(&mut o, "foreign_host", Json::text(f.foreign_host.as_str()));
    put(&mut o, "process_name", Json::opt_text(&f.process_name));
    put(&mut o, "reason", Json::text(f.reason.as_str()));
    put(&mut o, "severity", Json::text(f.severity.as_str()));
    assert(o.deep_view() =~= finding_json()(f.deep_view())->Object_0);
    Json::object(o)
}

/// A finding written as JSON reads back as it was.
pub proof fn finding_round_trip(f: NetworkFindingView)
    ensures
        finding_of()(finding_json()(f)) == Some(f),
{
    reveal_strlit("foreign_host");
    reveal_strlit("process_name");
    reveal_strlit("reason");
    reveal_strlit("severity");
    assert("foreign_host"@.len() == 12 && "process_name"@.len() == 12);
    assert("reason"@.len() == 6 && "severity"@.len() == 8);
    assert("foreign_host"@[0] != "process_name"@[0]);
    reveal_with_fuel(crate::json::entry, 5);
}

/// All conversations of a program with a host on a port.
#[derive(Debug)]
pub struct Aggregate {
    pub foreign_host: String,
    pub foreign_port: String,
    pub process_name: String,
    pub connections: u32,
    pub bytes_rx: u64,
    pub bytes_tx: u64,
    pub total_duration_ms: u64,
}

/// What an `Aggregate` holds.
pub struct AggregateView {
    pub foreign_host: Seq<char>,
    pub foreign_port: Seq<char>,
    pub process_name: Seq<char>,
    pub connections: u32,
    pub bytes_rx: u64,
    pub bytes_tx: u64,
    pub total_duration_ms: u64,
}

impl DeepView for Aggregate {
    type V = AggregateView;

    open spec fn deep_view(&self) -> AggregateView {
        AggregateView {
            foreign_host: self.foreign_host@,
            foreign_port: self.foreign_port@,
            process_name: self.process_name@,
            connections: self.connections,
            bytes_rx: self.bytes_rx,
            bytes_tx: self.bytes_tx,
            total_duration_ms: self.total_duration_ms,
        }
    }
}

/// The host and the port of a remote end; a question mark for a port that is
/// missing.
pub open spec fn host_port(addr: Seq<char>) -> (Seq<char>, Seq<char>) {
    match split_last(addr, '.') {
        Some(p) => p,
        None => (addr, "?"@),
    }
}

/// The host and the port of a remote end, `1.2.3.4.443`.
pub fn split_host_port(addr: &str) -> (r: (String, String))
    ensures
        r.deep_view() == host_port(addr@),
{
    match split_at_last(addr, '.') {
        Some(p) => p,
        None => (addr.to_string(), "?".to_string()),
    }
}

/// One completed connection: host, port and program, bytes received and sent,
/// and milliseconds.
pub struct Conversation {
    pub key: (String, String, String),
    pub rx: u64,
    pub tx: u64,
    pub ms: u64,
}

/// What a `Conversation` holds.
pub struct ConversationView {
    pub key: (Seq<char>, Seq<char>, Seq<char>),
    pub rx: u64,
    pub tx: u64,
    pub ms: u64,
}

impl DeepView for Conversation {
    type V = ConversationView;

    open spec fn deep_view(&self) -> ConversationView {
        ConversationView { key: self.key.deep_view(), rx: self.rx, tx: self.tx, ms: self.ms }
    }
}

/// The completed connection that an event is.
pub open spec fn conversation() -> spec_fn(EventView) -> Option<ConversationView> {
    |e: EventView|
        if e.kind == EventKind::ConnectionCompleted {
            let (host, port) = host_port(or_unknown(e.payload.str_at("foreign_addr"@)));
            Some(
                ConversationView {
                    key: (host, port, or_unknown(e.payload.str_at("process_name"@))),
                    rx: or_zero(e.payload.u64_at("bytes_rx"@)),
                    tx: or_zero(e.payload.u64_at("bytes_tx"@)),
                    ms: or_zero(e.payload.u64_at("duration_ns"@)) / 1_000_000,
                },
            )
        } else {
            None
        }
}

/// Whether a connection has a key.
pub open spec fn has_key(k: (Seq<char>, Seq<char>, Seq<char>)) -> spec_fn(ConversationView) -> bool {
    |c: ConversationView| c.key == k
}

/// The bytes that a connection with a key received.
pub open spec fn rx_of(k: (Seq<char>, Seq<char>, Seq<char>)) -> spec_fn(ConversationView) -> int {
    |c: ConversationView|
        if c.key == k {
            c.rx as int
        } else {
            0
        }
}

/// The bytes that a connection with a key sent.
pub open spec fn tx_of(k: (Seq<char>, Seq<char>, Seq<char>)) -> spec_fn(ConversationView) -> int {
    |c: ConversationView|
        if c.key == k {
            c.tx as int
        } else {
            0
        }
}

/// The milliseconds of a connection with a key.
pub open spec fn ms_of(k: (Seq<char>, Seq<char>, Seq<char>)) -> spec_fn(ConversationView) -> int {
    |c: ConversationView|
        if c.key == k {
            c.ms as int
        } else {
            0
        }
}

/// The sums over the connections with a key.
pub open spec fn summed(cs: Seq<ConversationView>) -> spec_fn(
    (Seq<char>, Seq<char>, Seq<char>),
) -> AggregateView {
    |k: (Seq<char>, Seq<char>, Seq<char>)|
        AggregateView {
            foreign_host: k.0,
            foreign_port: k.1,
            process_name: k.2,
            connections: wrapped32(count_where(cs, has_key(k)) as int),
            bytes_rx: wrapped(sum_of(cs, rx_of(k))),
            bytes_tx: wrapped(sum_of(cs, tx_of(k))),
            total_duration_ms: wrapped(sum_of(cs, ms_of(k))),
        }
}

/// Conversations are ordered by their bytes, most first.
pub open spec fn most_traffic() -> spec_fn(AggregateView) -> int {
    |a: AggregateView| -(wrapped(a.bytes_rx + a.bytes_tx) as int)
}

/// The keys of connections.
pub open spec fn conversation_keys(cs: Seq<ConversationView>) -> Seq<
    (Seq<char>, Seq<char>, Seq<char>),
> {
    cs.map_values(|c: ConversationView| c.key)
}

/// The conversations of a window, summed up by key, the largest first.
pub open spec fn aggregates(events: Seq<EventView>) -> Seq<AggregateView> {
    let cs = events.filter_map(conversation());
    sort_by_key(uniques(conversation_keys(cs)).map_values(summed(cs)), most_traffic())
}

fn conversation_of(e: &Event) -> (r: Option<Conversation>)
    ensures
        r.deep_view() == conversation()(e.deep_view()),
{
    if e.kind != EventKind::ConnectionCompleted {
        return None;
    }
    let p: &Json = &e.payload;
    let foreign: String = text_or_unknown(p, "foreign_addr");
    let (host, port): (String, String) = split_host_port(foreign.as_str());
    Some(
        Conversation {
            key: (host, port, text_or_unknown(p, "process_name")),
            rx: number_or_zero(p.u64_at("bytes_rx")),
            tx: number_or_zero(p.u64_at("bytes_tx")),
            ms: number_or_zero(p.u64_at("duration_ns")) / 1_000_000,
        },
    )
}

fn same_key(a: &(String, String, String), b: &(String, String, String)) -> (r: bool)
    ensures
        r == (a.deep_view() == b.deep_view()),
{
    str_eq(a.0.as_str(), b.0.as_str()) && str_eq(a.1.as_str(), b.1.as_str()) && str_eq(
        a.2.as_str(),
        b.2.as_str(),
    )
}

fn copy_key(k: &(String, String, String)) -> (r: (String, String, String))
    ensures
        r.deep_view() == k.deep_view(),
{
    (k.0.clone(), k.1.clone(), k.2.clone())
}

fn key_of(c: &Conversation) -> (r: (String, String, String))
    ensures
        r.deep_view() == (|c: ConversationView| c.key)(c.deep_view()),
{
    copy_key(&c.key)
}

fn sum_up(cs: &Vec<Conversation>, k: &(String, String, String)) -> (r: Aggregate)
    ensures
        r.deep_view() == summed(cs.deep_view())(k.deep_view()),
{
    let ghost all = cs.deep_view();
    let ghost key = k.deep_view();
    let mut n: u64 = 0;
    let mut rx: u64 = 0;
    let mut tx: u64 = 0;
    let mut ms: u64 = 0;
    let mut i: usize = 0;
    while i < cs.len()
        invariant
            all == cs.deep_view(),
            key == k.deep_view(),
            i <= cs@.len(),
            n <= i,
            n == count_where(all.take(i as int), has_key(key)),
            rx == wrapped(sum_of(all.take(i as int), rx_of(key))),
            tx == wrapped(sum_of(all.take(i as int), tx_of(key))),
            ms == wrapped(sum_of(all.take(i as int), ms_of(key))),
        decreases cs@.len() - i,
    {
        assert(all.take(i + 1).drop_last() =~= all.take(i as int));
        assert(all[i as int] == cs@[i as int].deep_view());
        proof {
            let t = all.take(i as int);
            count_where_step(all, has_key(key), i as int);
            wrapped_step(sum_of(t, rx_of(key)), rx_of(key)(all[i as int]));
            wrapped_step(sum_of(t, tx_of(key)), tx_of(key)(all[i as int]));
            wrapped_step(sum_of(t, ms_of(key)), ms_of(key)(all[i as int]));
        }
        if same_key(&cs[i].key, k) {
            n = n + 1;
            rx = rx.wrapping_add(cs[i].rx);
            tx = tx.wrapping_add(cs[i].tx);
            ms = ms.wrapping_add(cs[i].ms);
        }
        i = i + 1;
    }
    proof {
        take_all(all);
    }
    Aggregate {
        foreign_host: k.0.clone(),
        foreign_port: k.1.clone(),
        process_name: k.2.clone(),
        connections: low_32(n),
        bytes_rx: rx,
        bytes_tx: tx,
        total_duration_ms: ms,
    }
}

/// The conversations of a window, summed up by host, port and program, the
/// largest first.
pub fn aggregate(events: &[Event]) -> (r: Vec<Aggregate>)
    ensures
        r.deep_view() == aggregates(events.deep_view()),
{
    let cs: Vec<Conversation> = collect(events, conversation_of, Ghost(conversation()));
    let ghost all = cs.deep_view();
    let keys: Vec<(String, String, String)> = convert(
        whole(&cs),
        key_of,
        Ghost(|c: ConversationView| c.key),
    );
    let once: Vec<(String, String, String)> = distinct(whole(&keys), same_key, copy_key);
    let ghost u = uniques(conversation_keys(all));
    let ghost rows = u.map_values(summed(all));
    let mut out: Vec<Aggregate> = Vec::new();
    let mut order: Vec<i128> = Vec::new();
    let mut i: usize = 0;
    assert(out.deep_view() =~= sort_by_key(rows.take(0), most_traffic()));
    while i < once.len()
        invariant
            all == cs.deep_view(),
            u == once.deep_view(),
            rows == u.map_values(summed(all)),
            i <= once@.len(),
            out.deep_view() == sort_by_key(rows.take(i as int), most_traffic()),
            keyed(out.deep_view(), most_traffic(), order@),
        decreases once@.len() - i,
    {
        assert(rows.take(i + 1).drop_last() =~= rows.take(i as int));
        assert(u[i as int] == once@[i as int].deep_view());
        let row: Aggregate = sum_up(&cs, &once[i]);
        let k: i128 = -(row.bytes_rx.wrapping_add(row.bytes_tx) as i128);
        insert_row(&mut out, &mut order, row, k, Ghost(most_traffic()));
        i = i + 1;
    }
    proof {
        take_all(rows);
    }
    out
}

/// A conversation as a line.
pub open spec fn row_text() -> spec_fn(AggregateView) -> Seq<char> {
    |a: AggregateView|
        flat(
            seq![
                "host="@,
                a.foreign_host,
                " port="@,
                a.foreign_port,
                " process="@,
                a.process_name,
                " conns="@,
                decimal(a.connections as nat),
                " bytes_rx="@,
                decimal(a.bytes_rx as nat),
                " bytes_tx="@,
                decimal(a.bytes_tx as nat),
                " duration_ms="@,
                decimal(a.total_duration_ms as nat),
            ],
        )
}

fn row_to_text(a: &Aggregate) -> (r: String)
    ensures
        r.deep_view() == row_text()(a.deep_view()),
{
    let mut p = Parts::new();
    p.add("host=");
    p.add(a.foreign_host.as_str());
    p.add(" port=");
    p.add(a.foreign_port.as_str());
    p.add(" process=");
    p.add(a.process_name.as_str());
    p.add(" conns=");
    p.add_number(a.connections as u64);
    p.add(" bytes_rx=");
    p.add_number(a.bytes_rx);
    p.add(" bytes_tx=");
    p.add_number(a.bytes_tx);
    p.add(" duration_ms=");
    p.add_number(a.total_duration_ms);
    p.finish()
}

/// The conversations, one to a line.
pub fn render_table(rows: &[Aggregate]) -> (r: String)
    ensures
        r@ == joined(rows.deep_view().map_values(row_text()), "\n"@),
{
    let lines: Vec<String> = convert(rows, row_to_text, Ghost(row_text()));
    join_texts(&lines, "\n")
}

/// What the model is asked, between the numbers and the table.
pub const REVIEW_TASK: &'static str = " (host, port, process) triples that exchanged traffic during a macOS capture. Identify any that look notable: unusual destinations, processes that should not normally make network connections, unexpected port choices (e.g. shells talking to :22 or :3389, non-browsers on :80/:443 to non-CDN hosts), or suspiciously high volume. Do not flag well-known services unless context suggests misuse. Return ONLY valid JSON of this shape:\n{\n  \"summary\": \"<one or two sentences\">\",\n  \"findings\": [\n    { \"foreign_host\": \"<string>\", \"process_name\": \"<string or null>\", \"reason\": \"<concise English>\", \"severity\": \"low\"|\"medium\"|\"high\" }\n  ]\n}\n\nCONVERSATIONS:\n";

/// How the model is to judge.
pub const REVIEW_SYSTEM: &'static str = "You are a network security analyst summarising outbound and inbound connections. Be conservative: flag only what is genuinely unusual. Output strictly valid JSON; no prose outside the JSON object.";

/// The prompt about the first conversations.
pub open spec fn review_prompt(all: Seq<AggregateView>, max: usize) -> Seq<char> {
    let shown = first_n(all, max as int);
    flat(
        seq![
            "Below is a summary of "@,
            decimal(shown.len()),
            " of "@,
            decimal(all.len()),
            REVIEW_TASK@,
            joined(shown.map_values(row_text()), "\n"@),
        ],
    )
}

/// Reviews network conversations.
pub struct NetworkReviewer {
    pub config: AgentConfig,
}

/// The report about conversations: what the reply says, or the reply itself
/// where it is not in the form asked for.
pub open spec fn review_report(
    all: Seq<AggregateView>,
    max: usize,
    verdict: Option<(Seq<char>, Seq<NetworkFindingView>)>,
    raw: Seq<char>,
    model: Seq<char>,
) -> ReportView {
    let (summary, findings) = or_text(verdict, raw);
    ReportView {
        summary,
        details: JsonView::Object(
            seq![
                ("conversations_unique"@, JsonView::Int(all.len() as int)),
                ("conversations_sampled"@, JsonView::Int(first_n(all, max as int).len() as int)),
                ("findings"@, JsonView::Array(findings.map_values(finding_json()))),
            ],
        ),
        model,
    }
}

/// The summary and the findings of a reply that is a document with both, each
/// finding complete.
pub fn read_findings(j: &Json) -> (r: Option<(String, Vec<NetworkFinding>)>)
    ensures
        r.deep_view() == verdict_with(j@, finding_of()),
{
    read_verdict(j, read_finding, Ghost(finding_of()))
}

impl NetworkReviewer {
    /// Reviews with a configuration.
    pub fn new(config: AgentConfig) -> (r: Self)
        ensures
            r.config == config,
    {
        NetworkReviewer { config }
    }

    /// What is asked about conversations: about as many as the configuration
    /// allows, the largest first.
    pub fn request(&self, all: &Vec<Aggregate>) -> (r: GenerateRequest)
        ensures
            r.deep_view() == request_of(
                self.config.deep_view(),
                review_prompt(all.deep_view(), self.config.max_input_items),
                REVIEW_SYSTEM@,
                1024,
                Some(Format::Json),
            ),
    {
        let cap: usize = if self.config.max_input_items < all.len() {
            self.config.max_input_items
        } else {
            all.len()
        };
        let shown: &[Aggregate] = vstd::slice::slice_subrange(all.as_slice(), 0, cap);
        assert(shown.deep_view() =~= first_n(
            all.deep_view(),
            self.config.max_input_items as int,
        ));
        let mut p = Parts::new();
        p.add("Below is a summary of ");
        p.add_number(cap as u64);
        p.add(" of ");
        p.add_number(all.len() as u64);
        p.add(REVIEW_TASK);
        p.add(render_table(shown).as_str());
        build_request(&self.config, p.finish(), REVIEW_SYSTEM, 1024, Some(Format::Json))
    }

    /// The report about conversations, for what a reply was read as.
    pub fn report_of(
        &self,
        all: &Vec<Aggregate>,
        verdict: Option<(String, Vec<NetworkFinding>)>,
        raw: &str,
        model: &str,
    ) -> (r: Report)
        ensures
            r.deep_view() == review_report(
                all.deep_view(),
                self.config.max_input_items,
                verdict.deep_view(),
                raw@,
                model@,
            ),
    {
        let ghost v = verdict.deep_view();
        let (summary, findings): (String, Vec<NetworkFinding>) = match verdict {
            Some(p) => p,
            None => {
                let none: Vec<NetworkFinding> = Vec::new();
                assert(none.deep_view() =~= Seq::<NetworkFindingView>::empty());
                (raw.to_string(), none)
            },
        };
        let cap: usize = if self.config.max_input_items < all.len() {
            self.config.max_input_items
        } else {
            all.len()
        };
        let mut o: Vec<(String, Json)> = Vec::new();
        put(&mut o, "conversations_unique", Json::U64(all.len() as u64));
        put(&mut o, "conversations_sampled", Json::U64(cap as u64));
        put(
            &mut o,
            "findings",
            Json::array(convert(whole(&findings), finding_to_json, Ghost(finding_json()))),
        );
        assert(o.deep_view() =~= review_report(
            all.deep_view(),
            self.config.max_input_items,
            v,
            raw@,
            model@,
        ).details->Object_0);
        Report { summary, details: Json::object(o), model: model.to_string() }
    }

    /// The report that a reply about conversations makes.
    pub fn report(&self, all: &Vec<Aggregate>, reply: &GenerateResponse) -> (r: Report)
        ensures
            r.deep_view() == review_report(
                all.deep_view(),
                self.config.max_input_items,
                parsed_reply(trim(reply.response@), finding_names(), finding_of()),
                trim(reply.response@),
                reply.model@,
            ),
    {
        let raw: String = trim_text(reply.response.as_str());
        let list = ["foreign_host", "process_name", "reason", "severity"];
        let fields: &[&str] = &list;
        assert(fields.deep_view() =~= finding_names());
        let twice: bool = names_verdict_field_twice(raw.as_str(), fields);
        let verdict: Option<(String, Vec<NetworkFinding>)> = match parse_json(raw.as_str()) {
            Some(j) => if twice {
                None
            } else {
                read_findings(&j)
            },
            None => None,
        };
        self.report_of(all, verdict, raw.as_str(), reply.model.as_str())
    }
}

/// The host, the port and the program of a sum.
pub open spec fn key_of_sum(a: AggregateView) -> (Seq<char>, Seq<char>, Seq<char>) {
    (a.foreign_host, a.foreign_port, a.process_name)
}

/// No two sums are of one host, port and program: the same host on another
/// port is told apart.
pub proof fn conversations_are_told_apart(events: Seq<EventView>)
    ensures
        distinct_by(aggregates(events), |a: AggregateView| key_of_sum(a)),
{
    let cs = events.filter_map(conversation());
    let u = uniques(conversation_keys(cs));
    let rows = u.map_values(summed(cs));
    let all = aggregates(events);
    uniques_are_distinct(conversation_keys(cs));
    assert(rows.no_duplicates()) by {
        assert forall|i: int, j: int| 0 <= i < rows.len() && 0 <= j < rows.len() && i != j implies rows[i]
            != rows[j] by {
            assert(u[i] != u[j]);
            assert(key_of_sum(rows[i]) == u[i] && key_of_sum(rows[j]) == u[j]);
        }
    }
    sort_by_key_sorts(rows, most_traffic());
    rearranged_stays_distinct(rows, all);
    let key = |a: AggregateView| key_of_sum(a);
    assert forall|i: int, j: int| 0 <= i < j < all.len() implies key(#[trigger] all[i]) != key(
        #[trigger] all[j],
    ) by {
        broadcast use vstd::seq_lib::group_to_multiset_ensures;

        assert(all.to_multiset().contains(all[i]) && all.to_multiset().contains(all[j]));
        assert(rows.to_multiset().contains(all[i]) && rows.to_multiset().contains(all[j]));
        assert(rows.contains(all[i]) && rows.contains(all[j]));
        let a = choose|a: int| 0 <= a < rows.len() && rows[a] == all[i];
        let b = choose|b: int| 0 <= b < rows.len() && rows[b] == all[j];
        assert(all[i] != all[j]);
        assert(u[a] != u[b]);
        assert(key_of_sum(rows[a]) == u[a] && key_of_sum(rows[b]) == u[b]);
    }
}

} // verus!
