//! The prompt that asks a language model to tell a window as prose.

use vstd::prelude::*;
use vstd::string::*;

use crate::agents::{build_request, request_of, AgentConfig, Report, ReportView};
use crate::capture::{
    capture_summary, graph_summary, summarize_capture, summarize_graph, CaptureSummary,
    CaptureSummaryView, NoveltySummary, NoveltySummaryView,
};
use crate::events::Event;
use crate::graph::Graph;
use crate::json::{opt_str, put, str_array, Json, JsonView};
use crate::llm::{GenerateRequest, GenerateResponse};
use crate::seqs::{convert, whole};
use crate::text::{decimal, flat, join_texts, joined, trim, trim_text, Parts};
use crate::timeline::{
    DirectoryFact, DirectoryFactView, DnsClientFact, DnsClientFactView, EndpointFact, EndpointFactView,
    FocusSegment, FocusSegmentView, ProcessFact, ProcessFactView,
};

verus! {

/// How a window under way is to be told.
pub const LIVE_SYSTEM: &'static str = "You are narrating live macOS activity in the present, for the user who is at the keyboard right now. If the prompt lists ANOMALY FLAGS or NEVER-SEEN-BEFORE items, open with the most significant of those and say concretely why it stands out (many flags are benign dev tooling — use judgement, don't alarm over cargo/git/editor helpers). Then be concrete and human about the rest: what they ARE doing (dominant app + apparent purpose), notable network destinations, any other striking signal from the last few minutes. Use present-perfect tense (\"you've been …\") when describing how long activity has lasted. Keep it to 2–5 sentences. Do NOT speculate beyond the data. Do NOT output bullet points or JSON — plain prose only.";

/// How a window that is over is to be told.
pub const PAST_SYSTEM: &'static str = "You are summarising a short macOS behavioural capture in plain English for the user who was at the keyboard. If the prompt lists ANOMALY FLAGS or NEVER-SEEN-BEFORE items, open with the most significant of those and say concretely why it stands out (many flags are benign dev tooling — use judgement). Then be concrete and human about the rest: the dominant app(s) and what they appear to have been used for, notable network destinations, any other striking signal. Keep it to 3–6 sentences. Speak in second person (\"you were …\"). Do NOT speculate beyond the data. Do NOT output bullet points or JSON — plain prose only.";

/// A span of seconds in its two largest units.
pub open spec fn human(secs: u64) -> Seq<char> {
    let m = secs / 60;
    let s = secs % 60;
    let h = m / 60;
    let mm = m % 60;
    if secs < 60 {
        flat(seq![decimal(secs as nat), "s"@])
    } else if m < 60 {
        if s == 0 {
            flat(seq![decimal(m as nat), "m"@])
        } else {
            flat(seq![decimal(m as nat), "m"@, decimal(s as nat), "s"@])
        }
    } else if mm == 0 {
        flat(seq![decimal(h as nat), "h"@])
    } else {
        flat(seq![decimal(h as nat), "h"@, decimal(mm as nat), "m"@])
    }
}

/// A span of seconds in its two largest units: `45s`, `2m5s`, `1h2m`.
pub fn humanize_duration(secs: u64) -> (r: String)
    ensures
        r@ == human(secs),
{
    let m: u64 = secs / 60;
    let s: u64 = secs % 60;
    let h: u64 = m / 60;
    let mm: u64 = m % 60;
    let mut p = Parts::new();
    if secs < 60 {
        p.add_number(secs);
        p.add("s");
    } else if m < 60 {
        p.add_number(m);
        p.add("m");
        if s != 0 {
            p.add_number(s);
            p.add("s");
        }
    } else {
        p.add_number(h);
        p.add("h");
        if mm != 0 {
            p.add_number(mm);
            p.add("m");
        }
    }
    p.finish()
}

/// A list under a title, with an empty line behind it; nothing for no lines.
pub open spec fn section(title: Seq<char>, lines: Seq<Seq<char>>) -> Seq<Seq<char>> {
    if lines.len() == 0 {
        Seq::empty()
    } else {
        seq![title] + lines + seq!["\n"@]
    }
}

/// Adds texts one after the other.
fn add_all(p: &mut Parts, v: &Vec<String>)
    requires
        old(p).wf(),
    ensures
        final(p).wf(),
        final(p).parts() == old(p).parts() + v.deep_view(),
{
    let ghost all = v.deep_view();
    let ghost start = p.parts();
    let mut i: usize = 0;
    assert(start + all.take(0) =~= start);
    while i < v.len()
        invariant
            all == v.deep_view(),
            i <= v@.len(),
            p.wf(),
            p.parts() == start + all.take(i as int),
        decreases v@.len() - i,
    {
        assert(all[i as int] == v@[i as int]@);
        p.add(v[i].as_str());
        assert(start + all.take(i + 1) =~= (start + all.take(i as int)).push(all[i as int]));
        i = i + 1;
    }
    assert(all.take(all.len() as int) =~= all);
}

/// Adds a list under a title.
fn add_section(p: &mut Parts, title: &str, lines: &Vec<String>)
    requires
        old(p).wf(),
    ensures
        final(p).wf(),
        final(p).parts() == old(p).parts() + section(title@, lines.deep_view()),
{
    let ghost start = p.parts();
    if lines.len() > 0 {
        p.add(title);
        add_all(p, lines);
        p.add("\n");
        assert(p.parts() =~= start + section(title@, lines.deep_view()));
    } else {
        assert(start + section(title@, lines.deep_view()) =~= start);
    }
}

/// A line of a list.
pub open spec fn item() -> spec_fn(Seq<char>) -> Seq<char> {
    |s: Seq<char>| flat(seq!["  - "@, s, "\n"@])
}

/// A line of a list, with what the item is.
pub open spec fn named_item(what: Seq<char>) -> spec_fn(Seq<char>) -> Seq<char> {
    |s: Seq<char>| flat(seq![what, s, "\n"@])
}

fn item_line(s: &String) -> (r: String)
    ensures
        r.deep_view() == item()(s.deep_view()),
{
    let mut p = Parts::new();
    p.add("  - ");
    p.add(s.as_str());
    p.add("\n");
    p.finish()
}

fn process_item(s: &String) -> (r: String)
    ensures
        r.deep_view() == named_item("  - new process: "@)(s.deep_view()),
{
    let mut p = Parts::new();
    p.add("  - new process: ");
    p.add(s.as_str());
    p.add("\n");
    p.finish()
}

fn domain_item(s: &String) -> (r: String)
    ensures
        r.deep_view() == named_item("  - new domain: "@)(s.deep_view()),
{
    let mut p = Parts::new();
    p.add("  - new domain: ");
    p.add(s.as_str());
    p.add("\n");
    p.finish()
}

fn endpoint_item(s: &String) -> (r: String)
    ensures
        r.deep_view() == named_item("  - new endpoint: "@)(s.deep_view()),
{
    let mut p = Parts::new();
    p.add("  - new endpoint: ");
    p.add(s.as_str());
    p.add("\n");
    p.finish()
}

fn app_item(s: &String) -> (r: String)
    ensures
        r.deep_view() == named_item("  - new app: "@)(s.deep_view()),
{
    let mut p = Parts::new();
    p.add("  - new app: ");
    p.add(s.as_str());
    p.add("\n");
    p.finish()
}

/// A kind and its count.
pub open spec fn mix_item() -> spec_fn((Seq<char>, u32)) -> Seq<char> {
    |k: (Seq<char>, u32)| flat(seq![k.0, "="@, decimal(k.1 as nat)])
}

fn mix_text(k: &(String, u32)) -> (r: String)
    ensures
        r.deep_view() == mix_item()(k.deep_view()),
{
    let mut p = Parts::new();
    p.add(k.0.as_str());
    p.add("=");
    p.add_number(k.1 as u64);
    p.finish()
}

/// A line for a span of an application.
pub open spec fn focus_line() -> spec_fn(FocusSegmentView) -> Seq<char> {
    |s: FocusSegmentView|
        match s.bundle_id {
            Some(b) => flat(
                seq!["  - "@, s.app_name, " for "@, human(s.duration_secs), " ["@, b, "]"@, "\n"@],
            ),
            None => flat(seq!["  - "@, s.app_name, " for "@, human(s.duration_secs), "\n"@]),
        }
}

fn focus_text(s: &FocusSegment) -> (r: String)
    ensures
        r.deep_view() == focus_line()(s.deep_view()),
{
    let mut p = Parts::new();
    p.add("  - ");
    p.add(s.app_name.as_str());
    p.add(" for ");
    p.add(humanize_duration(s.duration_secs).as_str());
    match &s.bundle_id {
        Some(b) => {
            p.add(" [");
            p.add(b.as_str());
            p.add("]");
        },
        None => {},
    }
    p.add("\n");
    p.finish()
}

/// A line for a program.
pub open spec fn process_line() -> spec_fn(ProcessFactView) -> Seq<char> {
    |f: ProcessFactView| flat(seq!["  - "@, f.comm, " ("@, decimal(f.spawns as nat), "x)\n"@])
}

fn process_text(f: &ProcessFact) -> (r: String)
    ensures
        r.deep_view() == process_line()(f.deep_view()),
{
    let mut p = Parts::new();
    p.add("  - ");
    p.add(f.comm.as_str());
    p.add(" (");
    p.add_number(f.spawns as u64);
    p.add("x)\n");
    p.finish()
}

/// A line for a remote end.
pub open spec fn endpoint_line() -> spec_fn(EndpointFactView) -> Seq<char> {
    |e: EndpointFactView|
        flat(
            seq![
                "  - "@,
                e.foreign_addr,
                " via "@,
                e.process_name,
                " ("@,
                decimal(e.bytes_total as nat),
                " bytes"@,
                if e.still_open {
                    ", still open"@
                } else {
                    ""@
                },
                ")\n"@,
            ],
        )
}

fn endpoint_text(e: &EndpointFact) -> (r: String)
    ensures
        r.deep_view() == endpoint_line()(e.deep_view()),
{
    let mut p = Parts::new();
    p.add("  - ");
    p.add(e.foreign_addr.as_str());
    p.add(" via ");
    p.add(e.process_name.as_str());
    p.add(" (");
    p.add_number(e.bytes_total);
    p.add(" bytes");
    if e.still_open {
        p.add(", still open");
    } else {
        p.add("");
    }
    p.add(")\n");
    p.finish()
}

/// A line for a directory.
pub open spec fn directory_line() -> spec_fn(DirectoryFactView) -> Seq<char> {
    |d: DirectoryFactView|
        flat(seq!["  - "@, d.directory, " ("@, decimal(d.file_changes as nat), " changes)\n"@])
}

fn directory_text(d: &DirectoryFact) -> (r: String)
    ensures
        r.deep_view() == directory_line()(d.deep_view()),
{
    let mut p = Parts::new();
    p.add("  - ");
    p.add(d.directory.as_str());
    p.add(" (");
    p.add_number(d.file_changes as u64);
    p.add(" changes)\n");
    p.finish()
}

/// A line for a client of name lookup.
pub open spec fn client_line() -> spec_fn(DnsClientFactView) -> Seq<char> {
    |d: DnsClientFactView|
        {
            let head = seq![
                "  - "@,
                d.process_name,
                " ("@,
                decimal(d.unique_names as nat),
                " unique names, "@,
                decimal(d.total_queries as nat),
                " queries"@,
            ];
            if d.example_names.len() == 0 {
                flat(head + seq![")\n"@])
            } else {
                flat(head + seq!["; e.g. "@, joined(d.example_names, ", "@), ")\n"@])
            }
        }
}

fn client_text(d: &DnsClientFact) -> (r: String)
    ensures
        r.deep_view() == client_line()(d.deep_view()),
{
    let mut p = Parts::new();
    p.add("  - ");
    p.add(d.process_name.as_str());
    p.add(" (");
    p.add_number(d.unique_names as u64);
    p.add(" unique names, ");
    p.add_number(d.total_queries as u64);
    p.add(" queries");
    if d.example_names.len() > 0 {
        p.add("; e.g. ");
        p.add(join_texts(&d.example_names, ", ").as_str());
    }
    p.add(")\n");
    p.finish()
}

/// The first line: how long the window is and how many events it has.
pub open spec fn head_parts(s: CaptureSummaryView, live: bool) -> Seq<Seq<char>> {
    if live {
        seq![
            "Live window: the last "@,
            human(s.duration_secs),
            " of macOS activity ("@,
            decimal(s.events_total as nat),
            " events). This is happening right now.\n\n"@,
        ]
    } else {
        seq![
            "A "@,
            human(s.duration_secs),
            " macOS capture recorded "@,
            decimal(s.events_total as nat),
            " events.\n\n"@,
        ]
    }
}

/// How many events there were of each kind.
pub open spec fn mix_parts(s: CaptureSummaryView) -> Seq<Seq<char>> {
    if s.kind_counts.len() == 0 {
        Seq::empty()
    } else {
        seq!["EVENT MIX: "@, joined(s.kind_counts.map_values(mix_item()), " "@), "\n\n"@]
    }
}

/// What was new.
pub open spec fn novelty_parts(n: Option<NoveltySummaryView>) -> Seq<Seq<char>> {
    match n {
        None => Seq::empty(),
        Some(n) => if n.baseline_cold {
            seq!["NOVELTY: baseline still warming up — too little history to say what is new.\n\n"@]
        } else if n.has_novelty() {
            section(
                "NEVER SEEN BEFORE ON THIS MACHINE (first observation ever):\n"@,
                n.new_processes.map_values(named_item("  - new process: "@))
                    + n.new_domains.map_values(named_item("  - new domain: "@))
                    + n.new_endpoints.map_values(named_item("  - new endpoint: "@))
                    + n.new_apps.map_values(named_item("  - new app: "@)),
            )
        } else {
            seq!["NOVELTY: nothing new — every process, domain, endpoint and app in this window had been seen before.\n\n"@]
        },
    }
}

/// The applications in front.
pub open spec fn focus_parts(s: CaptureSummaryView) -> Seq<Seq<char>> {
    if s.focus_segments.len() == 0 {
        seq!["APP FOCUS: no focus changes were captured.\n\n"@]
    } else {
        section("APP FOCUS (in order):\n"@, s.focus_segments.map_values(focus_line()))
    }
}

/// Whether there is anything to lead with.
pub open spec fn has_anomalies(s: CaptureSummaryView) -> bool {
    s.suspicions.len() > 0 || match s.novelty {
        Some(n) => n.has_novelty(),
        None => false,
    }
}

/// What is asked for.
pub open spec fn closing_parts(s: CaptureSummaryView, live: bool) -> Seq<Seq<char>> {
    let ask = if live {
        "Write 2–5 sentences of present-tense prose addressed to the user.\n"@
    } else {
        "Write 3–6 sentences of plain prose addressed to the user.\n"@
    };
    if has_anomalies(s) {
        seq![
            "Lead with the most significant anomaly flag or first-time-seen item and say plainly why it stands out, then cover the routine activity. "@,
            ask,
        ]
    } else {
        seq![ask]
    }
}

/// The prompt: flags and new things come before routine activity.
pub open spec fn prompt_parts(s: CaptureSummaryView, live: bool) -> Seq<Seq<char>> {
    head_parts(s, live) + mix_parts(s) + section(
        "ANOMALY FLAGS (rule-based, pre-computed; some may be benign dev tooling — judge each):\n"@,
        s.suspicions.map_values(item()),
    ) + novelty_parts(s.novelty) + focus_parts(s) + section(
        "TOP PROCESSES (by spawn count, system daemons filtered):\n"@,
        s.top_processes.map_values(process_line()),
    ) + section(
        "TOP NETWORK ENDPOINTS (by bytes):\n"@,
        s.top_endpoints.map_values(endpoint_line()),
    ) + section(
        "TOP FILE-ACTIVITY DIRECTORIES:\n"@,
        s.top_directories.map_values(directory_line()),
    ) + section(
        "TOP DNS-ISSUING PROCESSES:\n"@,
        s.top_dns_clients.map_values(client_line()),
    ) + closing_parts(s, live)
}

fn add_head(p: &mut Parts, s: &CaptureSummary, live: bool)
    requires
        old(p).wf(),
    ensures
        final(p).wf(),
        final(p).parts() == old(p).parts() + head_parts(s.deep_view(), live),
{
    let ghost start = p.parts();
    if live {
        p.add("Live window: the last ");
        p.add(humanize_duration(s.duration_secs).as_str());
        p.add(" of macOS activity (");
        p.add_number(s.events_total as u64);
        p.add(" events). This is happening right now.\n\n");
    } else {
        p.add("A ");
        p.add(humanize_duration(s.duration_secs).as_str());
        p.add(" macOS capture recorded ");
        p.add_number(s.events_total as u64);
        p.add(" events.\n\n");
    }
    assert(p.parts() =~= start + head_parts(s.deep_view(), live));
}

fn add_mix(p: &mut Parts, s: &CaptureSummary)
    requires
        old(p).wf(),
    ensures
        final(p).wf(),
        final(p).parts() == old(p).parts() + mix_parts(s.deep_view()),
{
    let ghost start = p.parts();
    if s.kind_counts.len() > 0 {
        let mix: Vec<String> = convert(whole(&s.kind_counts), mix_text, Ghost(mix_item()));
        p.add("EVENT MIX: ");
        p.add(join_texts(&mix, " ").as_str());
        p.add("\n\n");
    }
    assert(p.parts() =~= start + mix_parts(s.deep_view()));
}

fn add_novelty(p: &mut Parts, n: &Option<NoveltySummary>)
    requires
        old(p).wf(),
    ensures
        final(p).wf(),
        final(p).parts() == old(p).parts() + novelty_parts(n.deep_view()),
{
    let ghost start = p.parts();
    match n {
        None => {},
        Some(n) => {
            if n.baseline_cold {
                p.add(
                    "NOVELTY: baseline still warming up — too little history to say what is new.\n\n",
                );
            } else if n.has_novelty() {
                let mut lines: Vec<String> = convert(
                    whole(&n.new_processes),
                    process_item,
                    Ghost(named_item("  - new process: "@)),
                );
                let mut domains: Vec<String> = convert(
                    whole(&n.new_domains),
                    domain_item,
                    Ghost(named_item("  - new domain: "@)),
                );
                let mut endpoints: Vec<String> = convert(
                    whole(&n.new_endpoints),
                    endpoint_item,
                    Ghost(named_item("  - new endpoint: "@)),
                );
                let mut apps: Vec<String> = convert(
                    whole(&n.new_apps),
                    app_item,
                    Ghost(named_item("  - new app: "@)),
                );
                let ghost want = lines.deep_view() + domains.deep_view() + endpoints.deep_view()
                    + apps.deep_view();
                lines.append(&mut domains);
                lines.append(&mut endpoints);
                lines.append(&mut apps);
                assert(lines.deep_view() =~= want);
                add_section(p, "NEVER SEEN BEFORE ON THIS MACHINE (first observation ever):\n", &lines);
            } else {
                p.add(
                    "NOVELTY: nothing new — every process, domain, endpoint and app in this window had been seen before.\n\n",
                );
            }
        },
    }
    assert(p.parts() =~= start + novelty_parts(n.deep_view()));
}

fn add_focus(p: &mut Parts, s: &CaptureSummary)
    requires
        old(p).wf(),
    ensures
        final(p).wf(),
        final(p).parts() == old(p).parts() + focus_parts(s.deep_view()),
{
    let ghost start = p.parts();
    if s.focus_segments.len() == 0 {
        p.add("APP FOCUS: no focus changes were captured.\n\n");
    } else {
        let lines: Vec<String> = convert(whole(&s.focus_segments), focus_text, Ghost(focus_line()));
        add_section(p, "APP FOCUS (in order):\n", &lines);
    }
    assert(p.parts() =~= start + focus_parts(s.deep_view()));
}

fn add_closing(p: &mut Parts, s: &CaptureSummary, live: bool)
    requires
        old(p).wf(),
    ensures
        final(p).wf(),
        final(p).parts() == old(p).parts() + closing_parts(s.deep_view(), live),
{
    let ghost start = p.parts();
    let new: bool = match &s.novelty {
        Some(n) => n.has_novelty(),
        None => false,
    };
    if s.suspicions.len() > 0 || new {
        p.add(
            "Lead with the most significant anomaly flag or first-time-seen item and say plainly why it stands out, then cover the routine activity. ",
        );
    }
    if live {
        p.add("Write 2–5 sentences of present-tense prose addressed to the user.\n");
    } else {
        p.add("Write 3–6 sentences of plain prose addressed to the user.\n");
    }
    assert(p.parts() =~= start + closing_parts(s.deep_view(), live));
}

/// The prompt that asks for a window to be told.
pub fn render_prompt(s: &CaptureSummary, live: bool) -> (r: String)
    ensures
        r@ == flat(prompt_parts(s.deep_view(), live)),
{
    let flags: Vec<String> = convert(whole(&s.suspicions), item_line, Ghost(item()));
    let processes: Vec<String> = convert(
        whole(&s.top_processes),
        process_text,
        Ghost(process_line()),
    );
    let endpoints: Vec<String> = convert(
        whole(&s.top_endpoints),
        endpoint_text,
        Ghost(endpoint_line()),
    );
    let directories: Vec<String> = convert(
        whole(&s.top_directories),
        directory_text,
        Ghost(directory_line()),
    );
    let clients: Vec<String> = convert(whole(&s.top_dns_clients), client_text, Ghost(client_line()));
    let mut p = Parts::new();
    add_head(&mut p, s, live);
    add_mix(&mut p, s);
    add_section(
        &mut p,
        "ANOMALY FLAGS (rule-based, pre-computed; some may be benign dev tooling — judge each):\n",
        &flags,
    );
    add_novelty(&mut p, &s.novelty);
    add_focus(&mut p, s);
    add_section(&mut p, "TOP PROCESSES (by spawn count, system daemons filtered):\n", &processes);
    add_section(&mut p, "TOP NETWORK ENDPOINTS (by bytes):\n", &endpoints);
    add_section(&mut p, "TOP FILE-ACTIVITY DIRECTORIES:\n", &directories);
    add_section(&mut p, "TOP DNS-ISSUING PROCESSES:\n", &clients);
    add_closing(&mut p, s, live);
    assert(p.parts() =~= prompt_parts(s.deep_view(), live));
    p.finish()
}

/// The title of the flags comes before the applications in front, where there
/// are flags: anomalies lead.
pub proof fn flags_come_before_focus(s: CaptureSummaryView, live: bool)
    requires
        s.suspicions.len() > 0,
    ensures
        exists|i: int, j: int|
            0 <= i < j < prompt_parts(s, live).len() && #[trigger] prompt_parts(s, live)[i]
                == "ANOMALY FLAGS (rule-based, pre-computed; some may be benign dev tooling — judge each):\n"@
                && #[trigger] prompt_parts(s, live)[j] == focus_parts(s)[0],
{
    let a = head_parts(s, live) + mix_parts(s);
    let flags = section(
        "ANOMALY FLAGS (rule-based, pre-computed; some may be benign dev tooling — judge each):\n"@,
        s.suspicions.map_values(item()),
    );
    let b = a + flags + novelty_parts(s.novelty);
    assert(prompt_parts(s, live)[a.len() as int] == flags[0]);
    assert(prompt_parts(s, live)[b.len() as int] == focus_parts(s)[0]);
}

/// A span of an application as JSON.
pub open spec fn focus_json() -> spec_fn(FocusSegmentView) -> JsonView {
    |f: FocusSegmentView|
        JsonView::Object(
            seq![
                ("app_name"@, JsonView::Str(f.app_name)),
                ("bundle_id"@, opt_str(f.bundle_id)),
                ("started_secs"@, JsonView::Int(f.started_secs as int)),
                ("duration_secs"@, JsonView::Int(f.duration_secs as int)),
            ],
        )
}

fn focus_to_json(f: &FocusSegment) -> (r: Json)
    ensures
        r.deep_view() == focus_json()(f.deep_view()),
{
    let mut o: Vec<(String, Json)> = Vec::new();
    put(&mut o, "app_name", Json::text(f.app_name.as_str()));
    put(&mut o, "bundle_id", Json::opt_text(&f.bundle_id));
    put(&mut o, "started_secs", Json::U64(f.started_secs));
    put(&mut o, "duration_secs", Json::U64(f.duration_secs));
    assert(o.deep_view() =~= focus_json()(f.deep_view())->Object_0);
    Json::object(o)
}

/// A program as JSON.
pub open spec fn process_json() -> spec_fn(ProcessFactView) -> JsonView {
    |f: ProcessFactView|
        JsonView::Object(
            seq![("comm"@, JsonView::Str(f.comm)), ("spawns"@, JsonView::Int(f.spawns as int))],
        )
}

fn process_to_json(f: &ProcessFact) -> (r: Json)
    ensures
        r.deep_view() == process_json()(f.deep_view()),
{
    let mut o: Vec<(String, Json)> = Vec::new();
    put(&mut o, "comm", Json::text(f.comm.as_str()));
    put(&mut o, "spawns", Json::U64(f.spawns as u64));
    assert(o.deep_view() =~= process_json()(f.deep_view())->Object_0);
    Json::object(o)
}

/// A remote end as JSON.
pub open spec fn endpoint_json() -> spec_fn(EndpointFactView) -> JsonView {
    |f: EndpointFactView|
        JsonView::Object(
            seq![
                ("foreign_addr"@, JsonView::Str(f.foreign_addr)),
                ("process_name"@, JsonView::Str(f.process_name)),
                ("bytes_total"@, JsonView::Int(f.bytes_total as int)),
                ("still_open"@, JsonView::Bool(f.still_open)),
            ],
        )
}

fn endpoint_to_json(f: &EndpointFact) -> (r: Json)
    ensures
        r.deep_view() == endpoint_json()(f.deep_view()),
{
    let mut o: Vec<(String, Json)> = Vec::new();
    put(&mut o, "foreign_addr", Json::text(f.foreign_addr.as_str()));
    put(&mut o, "process_name", Json::text(f.process_name.as_str()));
    put(&mut o, "bytes_total", Json::U64(f.bytes_total));
    put(&mut o, "still_open", Json::Bool(f.still_open));
    assert(o.deep_view() =~= endpoint_json()(f.deep_view())->Object_0);
    Json::object(o)
}

/// A directory as JSON.
pub open spec fn directory_json() -> spec_fn(DirectoryFactView) -> JsonView {
    |f: DirectoryFactView|
        JsonView::Object(
            seq![
                ("directory"@, JsonView::Str(f.directory)),
                ("file_changes"@, JsonView::Int(f.file_changes as int)),
            ],
        )
}

fn directory_to_json(f: &DirectoryFact) -> (r: Json)
    ensures
        r.deep_view() == directory_json()(f.deep_view()),
{
    let mut o: Vec<(String, Json)> = Vec::new();
    put(&mut o, "directory", Json::text(f.directory.as_str()));
    put(&mut o, "file_changes", Json::U64(f.file_changes as u64));
    assert(o.deep_view() =~= directory_json()(f.deep_view())->Object_0);
    Json::object(o)
}

/// A client of name lookup as JSON.
pub open spec fn client_json() -> spec_fn(DnsClientFactView) -> JsonView {
    |f: DnsClientFactView|
        JsonView::Object(
            seq![
                ("process_name"@, JsonView::Str(f.process_name)),
                ("unique_names"@, JsonView::Int(f.unique_names as int)),
                ("total_queries"@, JsonView::Int(f.total_queries as int)),
                ("example_names"@, str_array(f.example_names)),
            ],
        )
}

fn client_to_json(f: &DnsClientFact) -> (r: Json)
    ensures
        r.deep_view() == client_json()(f.deep_view()),
{
    let mut o: Vec<(String, Json)> = Vec::new();
    put(&mut o, "process_name", Json::text(f.process_name.as_str()));
    put(&mut o, "unique_names", Json::U64(f.unique_names as u64));
    put(&mut o, "total_queries", Json::U64(f.total_queries as u64));
    put(&mut o, "example_names", Json::text_array(&f.example_names));
    assert(o.deep_view() =~= client_json()(f.deep_view())->Object_0);
    Json::object(o)
}

/// A kind and its count as JSON.
pub open spec fn mix_json() -> spec_fn((Seq<char>, u32)) -> JsonView {
    |k: (Seq<char>, u32)| JsonView::Array(seq![JsonView::Str(k.0), JsonView::Int(k.1 as int)])
}

fn mix_to_json(k: &(String, u32)) -> (r: Json)
    ensures
        r.deep_view() == mix_json()(k.deep_view()),
{
    let mut v: Vec<Json> = Vec::new();
    v.push(Json::text(k.0.as_str()));
    v.push(Json::U64(k.1 as u64));
    assert(v.deep_view() =~= mix_json()(k.deep_view())->Array_0);
    Json::array(v)
}

/// What was new as JSON.
pub open spec fn novelty_json(n: Option<NoveltySummaryView>) -> JsonView {
    match n {
        None => JsonView::Null,
        Some(n) => JsonView::Object(
            seq![
                ("baseline_cold"@, JsonView::Bool(n.baseline_cold)),
                ("new_processes"@, str_array(n.new_processes)),
                ("new_domains"@, str_array(n.new_domains)),
                ("new_endpoints"@, str_array(n.new_endpoints)),
                ("new_apps"@, str_array(n.new_apps)),
            ],
        ),
    }
}

fn novelty_to_json(n: &Option<NoveltySummary>) -> (r: Json)
    ensures
        r@ == novelty_json(n.deep_view()),
{
    match n {
        None => Json::Null,
        Some(n) => {
            let mut o: Vec<(String, Json)> = Vec::new();
            put(&mut o, "baseline_cold", Json::Bool(n.baseline_cold));
            put(&mut o, "new_processes", Json::text_array(&n.new_processes));
            put(&mut o, "new_domains", Json::text_array(&n.new_domains));
            put(&mut o, "new_endpoints", Json::text_array(&n.new_endpoints));
            put(&mut o, "new_apps", Json::text_array(&n.new_apps));
            assert(o.deep_view() =~= novelty_json(Some(n.deep_view()))->Object_0);
            Json::object(o)
        },
    }
}

/// A summary as JSON.
pub open spec fn summary_json(s: CaptureSummaryView) -> JsonView {
    JsonView::Object(
        seq![
            ("duration_secs"@, JsonView::Int(s.duration_secs as int)),
            ("events_total"@, JsonView::Int(s.events_total as int)),
            ("focus_segments"@, JsonView::Array(s.focus_segments.map_values(focus_json()))),
            ("top_processes"@, JsonView::Array(s.top_processes.map_values(process_json()))),
            ("top_endpoints"@, JsonView::Array(s.top_endpoints.map_values(endpoint_json()))),
            ("top_directories"@, JsonView::Array(s.top_directories.map_values(directory_json()))),
            ("top_dns_clients"@, JsonView::Array(s.top_dns_clients.map_values(client_json()))),
            ("kind_counts"@, JsonView::Array(s.kind_counts.map_values(mix_json()))),
            ("novelty"@, novelty_json(s.novelty)),
            ("suspicions"@, str_array(s.suspicions)),
        ],
    )
}

impl CaptureSummary {
    /// The summary as JSON.
    pub fn to_json(&self) -> (r: Json)
        ensures
            r@ == summary_json(self.deep_view()),
    {
        let mut o: Vec<(String, Json)> = Vec::new();
        put(&mut o, "duration_secs", Json::U64(self.duration_secs));
        put(&mut o, "events_total", Json::U64(self.events_total as u64));
        put(
            &mut o,
            "focus_segments",
            Json::array(convert(whole(&self.focus_segments), focus_to_json, Ghost(focus_json()))),
        );
        put(
            &mut o,
            "top_processes",
            Json::array(convert(whole(&self.top_processes), process_to_json, Ghost(process_json()))),
        );
        put(
            &mut o,
            "top_endpoints",
            Json::array(
                convert(whole(&self.top_endpoints), endpoint_to_json, Ghost(endpoint_json())),
            ),
        );
        put(
            &mut o,
            "top_directories",
            Json::array(
                convert(whole(&self.top_directories), directory_to_json, Ghost(directory_json())),
            ),
        );
        put(
            &mut o,
            "top_dns_clients",
            Json::array(convert(whole(&self.top_dns_clients), client_to_json, Ghost(client_json()))),
        );
        put(
            &mut o,
            "kind_counts",
            Json::array(convert(whole(&self.kind_counts), mix_to_json, Ghost(mix_json()))),
        );
        put(&mut o, "novelty", novelty_to_json(&self.novelty));
        put(&mut o, "suspicions", Json::text_array(&self.suspicions));
        assert(o.deep_view() =~= summary_json(self.deep_view())->Object_0);
        Json::object(o)
    }
}

/// Tells windows as prose.
pub struct TimelineNarrator {
    pub config: AgentConfig,
    /// Whether the window is still under way.
    pub live: bool,
}

impl TimelineNarrator {
    /// A narrator of windows that are over.
    pub fn new(config: AgentConfig) -> (r: Self)
        ensures
            r.config == config,
            !r.live,
    {
        TimelineNarrator { config, live: false }
    }

    /// Turns to windows that are still under way.
    pub fn live(self) -> (r: Self)
        ensures
            r.config == self.config,
            r.live,
    {
        TimelineNarrator { config: self.config, live: true }
    }

    /// What is asked about a summary: prose of at most 400 tokens.
    pub fn request(&self, summary: &CaptureSummary) -> (r: GenerateRequest)
        ensures
            r.deep_view() == request_of(
                self.config.deep_view(),
                flat(prompt_parts(summary.deep_view(), self.live)),
                if self.live {
                    LIVE_SYSTEM@
                } else {
                    PAST_SYSTEM@
                },
                400,
                None,
            ),
    {
        let system: &'static str = if self.live {
            LIVE_SYSTEM
        } else {
            PAST_SYSTEM
        };
        build_request(&self.config, render_prompt(summary, self.live), system, 400, None)
    }

    /// The report that a reply makes: its text, and the summary behind it.
    pub fn report(&self, summary: &CaptureSummary, reply: &GenerateResponse) -> (r: Report)
        ensures
            r.deep_view() == (ReportView {
                summary: trim(reply.response@),
                details: summary_json(summary.deep_view()),
                model: reply.model@,
            }),
    {
        Report {
            summary: trim_text(reply.response.as_str()),
            details: summary.to_json(),
            model: reply.model.clone(),
        }
    }

    /// The summary of a window of events, and what is asked about it.
    pub fn request_for_events(&self, events: &[Event]) -> (r: (CaptureSummary, GenerateRequest))
        ensures
            r.0.deep_view() == capture_summary(events.deep_view()),
            r.1.deep_view() == request_of(
                self.config.deep_view(),
                flat(prompt_parts(capture_summary(events.deep_view()), self.live)),
                if self.live {
                    LIVE_SYSTEM@
                } else {
                    PAST_SYSTEM@
                },
                400,
                None,
            ),
    {
        let summary = summarize_capture(events);
        let req = self.request(&summary);
        (summary, req)
    }

    /// The summary of a graph, and what is asked about it.
    pub fn request_for_graph(&self, graph: &Graph) -> (r: (CaptureSummary, GenerateRequest))
        ensures
            r.0.deep_view() == graph_summary(graph.deep_view()),
            r.1.deep_view() == request_of(
                self.config.deep_view(),
                flat(prompt_parts(graph_summary(graph.deep_view()), self.live)),
                if self.live {
                    LIVE_SYSTEM@
                } else {
                    PAST_SYSTEM@
                },
                400,
                None,
            ),
    {
        let summary = summarize_graph(graph);
        let req = self.request(&summary);
        (summary, req)
    }
}

} // verus!
