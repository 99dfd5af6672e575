//! What holds of what is written for a reader or a model, and of what a model
//! writes back.

use vstd::prelude::*;
use vstd::string::*;

use crate::alarm_laws::joined_has_each;
use crate::capture::CaptureSummaryView;
use crate::cli_fmt::duration_text;
use crate::dns_reviewer;
use crate::json::{entry, field, JsonView};
use crate::lifecycle_laws::field_is_read;
use crate::llm::{
    number, options_json, reply_of, request_json, Format, GenerateRequestView,
    GenerateResponseView,
};
use crate::narrator::{
    closing_parts, client_line, directory_line, endpoint_line, focus_line, focus_parts, head_parts,
    human, item, mix_parts, named_item, novelty_parts, process_line, prompt_parts, section,
};
use crate::process_anomaly;
use crate::query::{minutes_before, shortened};
use crate::stage_laws::fields_join;
use crate::text::{decimal, flat};

verus! {

// ---------- texts in parts ---------------------------------------------------------

proof fn flat_of_three(a: Seq<Seq<char>>)
    requires
        a.len() == 3,
    ensures
        flat(a) == a[0] + a[1] + a[2],
{
    reveal_with_fuel(flat, 4);
    assert(flat(a.drop_last().drop_last()) =~= a[0]);
}

proof fn flat_of_two(a: Seq<Seq<char>>)
    requires
        a.len() == 2,
    ensures
        flat(a) == a[0] + a[1],
{
    reveal_with_fuel(flat, 3);
    assert(flat(a.drop_last()) =~= a[0]);
}

proof fn flat_of_four(a: Seq<Seq<char>>)
    requires
        a.len() == 4,
    ensures
        flat(a) == a[0] + a[1] + a[2] + a[3],
{
    flat_of_three(a.drop_last());
}

proof fn flat_of_five(a: Seq<Seq<char>>)
    requires
        a.len() == 5,
    ensures
        flat(a) == a[0] + a[1] + a[2] + a[3] + a[4],
{
    flat_of_four(a.drop_last());
}

// ---------- spans of time ----------------------------------------------------------

/// Whether a text writes a number of one unit, and of a smaller one unless it is
/// zero.
pub open spec fn writes_units(
    t: Seq<char>,
    a: int,
    a_unit: Seq<char>,
    b: int,
    b_unit: Seq<char>,
) -> bool {
    ||| b == 0 && t == decimal(a as nat) + a_unit
    ||| b > 0 && t == decimal(a as nat) + a_unit + decimal(b as nat) + b_unit
}

/// A span is written in its two largest units, and what is written adds up to it,
/// less than the smaller unit that is left out. Both ways to write a span agree on
/// what is shorter than a day.
pub proof fn spans_are_written(secs: u64)
    ensures
        secs < 60 ==> duration_text(secs as int) == decimal(secs as nat) + "s"@,
        60 <= secs < 3_600 ==> exists|m: int, s: int|
            m * 60 + s == secs && 0 <= s < 60 && #[trigger] writes_units(
                duration_text(secs as int),
                m,
                "m"@,
                s,
                "s"@,
            ),
        3_600 <= secs < 86_400 ==> exists|h: int, m: int|
            h * 3_600 + m * 60 <= secs < h * 3_600 + (m + 1) * 60 && 0 <= m < 60
                && #[trigger] writes_units(duration_text(secs as int), h, "h"@, m, "m"@),
        86_400 <= secs ==> exists|d: int, h: int|
            d * 86_400 + h * 3_600 <= secs < d * 86_400 + (h + 1) * 3_600 && 0 <= h < 24
                && #[trigger] writes_units(duration_text(secs as int), d, "d"@, h, "h"@),
        secs < 86_400 ==> human(secs) == duration_text(secs as int),
{
    let x = secs as int;
    units_are_written(x / 60, "m"@, x % 60, "s"@);
    units_are_written(x / 3_600, "h"@, (x % 3_600) / 60, "m"@);
    units_are_written(x / 86_400, "d"@, (x % 86_400) / 3_600, "h"@);
    flat_of_two(seq![decimal(secs as nat), "s"@]);
    if 60 <= secs < 3_600 {
        assert(writes_units(duration_text(x), x / 60, "m"@, x % 60, "s"@));
    }
    if 3_600 <= secs < 86_400 {
        assert(writes_units(duration_text(x), x / 3_600, "h"@, (x % 3_600) / 60, "m"@));
        assert(secs / 60 / 60 == x / 3_600);
        assert((secs / 60) % 60 == (x % 3_600) / 60);
    }
    if 86_400 <= secs {
        assert(writes_units(duration_text(x), x / 86_400, "d"@, (x % 86_400) / 3_600, "h"@));
    }
}

proof fn units_are_written(a: int, a_unit: Seq<char>, b: int, b_unit: Seq<char>)
    requires
        b >= 0,
    ensures
        writes_units(crate::cli_fmt::two_units(a, a_unit, b, b_unit), a, a_unit, b, b_unit),
{
    flat_of_two(seq![decimal(a as nat), a_unit]);
    flat_of_four(seq![decimal(a as nat), a_unit, decimal(b as nat), b_unit]);
}

/// A time so many minutes ago lies that many minutes before, and a text that is
/// cut keeps its beginning.
pub proof fn cuts_are_exact(now: i64, mins: u64, s: Seq<char>, max: int)
    requires
        max >= 0,
    ensures
        now - mins * 60_000_000_000 >= i64::MIN ==> now - minutes_before(now, mins) == mins
            * 60_000_000_000,
        s.len() <= max ==> shortened(s, max) == s,
        s.len() > max ==> shortened(s, max) == s.take(max) + "…"@,
{
}

// ---------- the prompt -------------------------------------------------------------

proof fn section_has(title: Seq<char>, lines: Seq<Seq<char>>, x: Seq<char>)
    requires
        lines.contains(x),
    ensures
        section(title, lines).contains(x),
{
    let k = choose|k: int| 0 <= k < lines.len() && lines[k] == x;
    assert(section(title, lines)[1 + k] == x);
}

/// A line of a list is in the prompt where the list of its section has it.
proof fn prompt_has(s: CaptureSummaryView, live: bool, x: Seq<char>)
    ensures
        s.suspicions.map_values(item()).contains(x) || novelty_parts(s.novelty).contains(x)
            || focus_parts(s).contains(x) || s.top_processes.map_values(process_line()).contains(x)
            || s.top_endpoints.map_values(endpoint_line()).contains(x)
            || s.top_directories.map_values(directory_line()).contains(x)
            || s.top_dns_clients.map_values(client_line()).contains(x) || mix_parts(s).contains(x)
            ==> prompt_parts(s, live).contains(x),
{
    let flags = section(
        "ANOMALY FLAGS (rule-based, pre-computed; some may be benign dev tooling — judge each):\n"@,
        s.suspicions.map_values(item()),
    );
    let processes = section(
        "TOP PROCESSES (by spawn count, system daemons filtered):\n"@,
        s.top_processes.map_values(process_line()),
    );
    let ends = section(
        "TOP NETWORK ENDPOINTS (by bytes):\n"@,
        s.top_endpoints.map_values(endpoint_line()),
    );
    let dirs = section(
        "TOP FILE-ACTIVITY DIRECTORIES:\n"@,
        s.top_directories.map_values(directory_line()),
    );
    let clients = section(
        "TOP DNS-ISSUING PROCESSES:\n"@,
        s.top_dns_clients.map_values(client_line()),
    );
    let (h, m, n, f, c) = (
        head_parts(s, live),
        mix_parts(s),
        novelty_parts(s.novelty),
        focus_parts(s),
        closing_parts(s, live),
    );
    if s.suspicions.map_values(item()).contains(x) {
        section_has(
            "ANOMALY FLAGS (rule-based, pre-computed; some may be benign dev tooling — judge each):\n"@,
            s.suspicions.map_values(item()),
            x,
        );
    }
    if s.top_processes.map_values(process_line()).contains(x) {
        section_has(
            "TOP PROCESSES (by spawn count, system daemons filtered):\n"@,
            s.top_processes.map_values(process_line()),
            x,
        );
    }
    if s.top_endpoints.map_values(endpoint_line()).contains(x) {
        section_has(
            "TOP NETWORK ENDPOINTS (by bytes):\n"@,
            s.top_endpoints.map_values(endpoint_line()),
            x,
        );
    }
    if s.top_directories.map_values(directory_line()).contains(x) {
        section_has(
            "TOP FILE-ACTIVITY DIRECTORIES:\n"@,
            s.top_directories.map_values(directory_line()),
            x,
        );
    }
    if s.top_dns_clients.map_values(client_line()).contains(x) {
        section_has(
            "TOP DNS-ISSUING PROCESSES:\n"@,
            s.top_dns_clients.map_values(client_line()),
            x,
        );
    }
    let p1 = h + m;
    let p2 = p1 + flags;
    let p3 = p2 + n;
    let p4 = p3 + f;
    let p5 = p4 + processes;
    let p6 = p5 + ends;
    let p7 = p6 + dirs;
    let p8 = p7 + clients;
    joined_has_each(h, m, x);
    joined_has_each(p1, flags, x);
    joined_has_each(p2, n, x);
    joined_has_each(p3, f, x);
    joined_has_each(p4, processes, x);
    joined_has_each(p5, ends, x);
    joined_has_each(p6, dirs, x);
    joined_has_each(p7, clients, x);
    joined_has_each(p8, c, x);
}

/// The prompt leaves out nothing of the summary: every flag, program, remote end
/// and directory has its line, with its numbers.
pub proof fn prompt_tells_the_summary(s: CaptureSummaryView, live: bool, i: int)
    ensures
        0 <= i < s.suspicions.len() ==> prompt_parts(s, live).contains(
            "  - "@ + s.suspicions[i] + "\n"@,
        ),
        0 <= i < s.top_processes.len() ==> prompt_parts(s, live).contains(
            "  - "@ + s.top_processes[i].comm + " ("@ + decimal(s.top_processes[i].spawns as nat)
                + "x)\n"@,
        ),
        0 <= i < s.top_directories.len() ==> prompt_parts(s, live).contains(
            "  - "@ + s.top_directories[i].directory + " ("@ + decimal(
                s.top_directories[i].file_changes as nat,
            ) + " changes)\n"@,
        ),
        0 <= i < s.top_endpoints.len() ==> prompt_parts(s, live).contains(
            "  - "@ + s.top_endpoints[i].foreign_addr + " via "@ + s.top_endpoints[i].process_name
                + " ("@ + decimal(s.top_endpoints[i].bytes_total as nat) + " bytes"@ + (
            if s.top_endpoints[i].still_open {
                ", still open"@
            } else {
                ""@
            }) + ")\n"@,
        ),
        0 <= i < s.focus_segments.len() ==> prompt_parts(s, live).contains(
            focus_line()(s.focus_segments[i]),
        ),
        0 <= i < s.top_dns_clients.len() ==> prompt_parts(s, live).contains(
            client_line()(s.top_dns_clients[i]),
        ),
{
    if 0 <= i < s.suspicions.len() {
        let x = s.suspicions.map_values(item())[i];
        assert(s.suspicions.map_values(item()).contains(x));
        prompt_has(s, live, x);
        flat_of_three(seq!["  - "@, s.suspicions[i], "\n"@]);
    }
    if 0 <= i < s.top_processes.len() {
        let f = s.top_processes[i];
        let x = s.top_processes.map_values(process_line())[i];
        assert(s.top_processes.map_values(process_line()).contains(x));
        prompt_has(s, live, x);
        flat_of_five(seq!["  - "@, f.comm, " ("@, decimal(f.spawns as nat), "x)\n"@]);
    }
    if 0 <= i < s.top_directories.len() {
        let d = s.top_directories[i];
        let x = s.top_directories.map_values(directory_line())[i];
        assert(s.top_directories.map_values(directory_line()).contains(x));
        prompt_has(s, live, x);
        flat_of_five(
            seq!["  - "@, d.directory, " ("@, decimal(d.file_changes as nat), " changes)\n"@],
        );
    }
    if 0 <= i < s.top_endpoints.len() {
        let e = s.top_endpoints[i];
        let x = s.top_endpoints.map_values(endpoint_line())[i];
        assert(s.top_endpoints.map_values(endpoint_line()).contains(x));
        prompt_has(s, live, x);
        let open = if e.still_open {
            ", still open"@
        } else {
            ""@
        };
        let parts = seq![
            "  - "@,
            e.foreign_addr,
            " via "@,
            e.process_name,
            " ("@,
            decimal(e.bytes_total as nat),
            " bytes"@,
            open,
            ")\n"@,
        ];
        reveal_with_fuel(flat, 5);
        flat_of_five(parts.drop_last().drop_last().drop_last().drop_last());
    }
    if 0 <= i < s.focus_segments.len() {
        let x = focus_line()(s.focus_segments[i]);
        let lines = s.focus_segments.map_values(focus_line());
        assert(lines[i] == x);
        assert(lines.contains(x));
        section_has("APP FOCUS (in order):\n"@, lines, x);
        prompt_has(s, live, x);
    }
    if 0 <= i < s.top_dns_clients.len() {
        let x = s.top_dns_clients.map_values(client_line())[i];
        assert(s.top_dns_clients.map_values(client_line()).contains(x));
        prompt_has(s, live, x);
    }
}

/// What was never seen before is in the prompt, each with what it is, unless the
/// history is too short to say.
pub proof fn prompt_tells_what_is_new(s: CaptureSummaryView, live: bool, i: int)
    requires
        s.novelty is Some,
        !s.novelty->0.baseline_cold,
    ensures
        ({
            let n = s.novelty->0;
            let p = prompt_parts(s, live);
            &&& 0 <= i < n.new_processes.len() ==> p.contains(
                "  - new process: "@ + n.new_processes[i] + "\n"@,
            )
            &&& 0 <= i < n.new_domains.len() ==> p.contains(
                "  - new domain: "@ + n.new_domains[i] + "\n"@,
            )
            &&& 0 <= i < n.new_endpoints.len() ==> p.contains(
                "  - new endpoint: "@ + n.new_endpoints[i] + "\n"@,
            )
            &&& 0 <= i < n.new_apps.len() ==> p.contains(
                "  - new app: "@ + n.new_apps[i] + "\n"@,
            )
        }),
{
    let n = s.novelty->0;
    let a = n.new_processes.map_values(named_item("  - new process: "@));
    let b = n.new_domains.map_values(named_item("  - new domain: "@));
    let c = n.new_endpoints.map_values(named_item("  - new endpoint: "@));
    let d = n.new_apps.map_values(named_item("  - new app: "@));
    let lines = a + b + c + d;
    let title = "NEVER SEEN BEFORE ON THIS MACHINE (first observation ever):\n"@;
    if 0 <= i < n.new_processes.len() {
        assert(lines[i] == a[i]);
        assert(lines.contains(a[i]));
        section_has(title, lines, a[i]);
        prompt_has(s, live, a[i]);
        flat_of_three(seq!["  - new process: "@, n.new_processes[i], "\n"@]);
    }
    if 0 <= i < n.new_domains.len() {
        assert(lines[a.len() + i] == b[i]);
        assert(lines.contains(b[i]));
        section_has(title, lines, b[i]);
        prompt_has(s, live, b[i]);
        flat_of_three(seq!["  - new domain: "@, n.new_domains[i], "\n"@]);
    }
    if 0 <= i < n.new_endpoints.len() {
        assert(lines[a.len() + b.len() + i] == c[i]);
        assert(lines.contains(c[i]));
        section_has(title, lines, c[i]);
        prompt_has(s, live, c[i]);
        flat_of_three(seq!["  - new endpoint: "@, n.new_endpoints[i], "\n"@]);
    }
    if 0 <= i < n.new_apps.len() {
        assert(lines[a.len() + b.len() + c.len() + i] == d[i]);
        assert(lines.contains(d[i]));
        section_has(title, lines, d[i]);
        prompt_has(s, live, d[i]);
        flat_of_three(seq!["  - new app: "@, n.new_apps[i], "\n"@]);
    }
}

// ---------- models -----------------------------------------------------------------

/// A reply that is written as an object is read back, whatever else the object
/// holds behind it.
pub proof fn reply_reads_back(r: GenerateResponseView, rest: Seq<(Seq<char>, JsonView)>)
    requires
        forall|i: int|
            0 <= i < rest.len() ==> (#[trigger] rest[i]).0 != "total_duration"@ && rest[i].0
                != "eval_count"@,
    ensures
        reply_of(
            JsonView::Object(
                seq![("response"@, JsonView::Str(r.response)), ("model"@, JsonView::Str(r.model))]
                    + field(
                    "total_duration"@,
                    match r.total_duration {
                        Some(n) => Some(JsonView::Int(n as int)),
                        None => None,
                    },
                ) + field(
                    "eval_count"@,
                    match r.eval_count {
                        Some(n) => Some(JsonView::Int(n as int)),
                        None => None,
                    },
                ) + rest,
            ),
        ) == Some(r),
{
    reveal_strlit("response");
    reveal_strlit("model");
    reveal_strlit("total_duration");
    reveal_strlit("eval_count");
    assert("response"@.len() == 8 && "model"@.len() == 5 && "total_duration"@.len() == 14
        && "eval_count"@.len() == 10);
    let a = seq![("response"@, JsonView::Str(r.response)), ("model"@, JsonView::Str(r.model))];
    let t = field(
        "total_duration"@,
        match r.total_duration {
            Some(n) => Some(JsonView::Int(n as int)),
            None => None,
        },
    );
    let e = field(
        "eval_count"@,
        match r.eval_count {
            Some(n) => Some(JsonView::Int(n as int)),
            None => None,
        },
    );
    reply_field(a, t, e, rest, "response"@);
    reply_field(a, t, e, rest, "model"@);
    reply_field(a, t, e, rest, "total_duration"@);
    reply_field(a, t, e, rest, "eval_count"@);
    no_such_field(rest, "total_duration"@);
    no_such_field(rest, "eval_count"@);
    reveal_with_fuel(entry, 3);
}

proof fn reply_field(
    a: Seq<(Seq<char>, JsonView)>,
    t: Seq<(Seq<char>, JsonView)>,
    e: Seq<(Seq<char>, JsonView)>,
    rest: Seq<(Seq<char>, JsonView)>,
    k: Seq<char>,
)
    ensures
        entry(a + t + e + rest, k) == match entry(a, k) {
            Some(v) => Some(v),
            None => match entry(t, k) {
                Some(v) => Some(v),
                None => match entry(e, k) {
                    Some(v) => Some(v),
                    None => entry(rest, k),
                },
            },
        },
{
    fields_join(a + t + e, rest, k);
    fields_join(a + t, e, k);
    fields_join(a, t, k);
}

proof fn no_such_field(f: Seq<(Seq<char>, JsonView)>, k: Seq<char>)
    requires
        forall|i: int| 0 <= i < f.len() ==> (#[trigger] f[i]).0 != k,
    ensures
        entry(f, k) is None,
    decreases f.len(),
{
    if f.len() > 0 {
        let t = f.skip(1);
        assert(f[0].0 != k);
        assert forall|i: int| 0 <= i < t.len() implies (#[trigger] t[i]).0 != k by {
            assert(t[i] == f[i + 1]);
        }
        no_such_field(t, k);
    }
}

/// A request tells the model, the prompt, what the model is told of its role, and
/// whether the answer is to come in pieces; what is not set is left out.
pub proof fn requests_are_sent_whole(q: GenerateRequestView)
    ensures
        ({
            let j = request_json(q);
            &&& j.str_at("model"@) == Some(q.model)
            &&& j.str_at("prompt"@) == Some(q.prompt)
            &&& j.str_at("system"@) == q.system
            &&& j.bool_at("stream"@) == Some(q.stream)
            &&& q.format is Some ==> j.str_at("format"@) == Some("json"@)
            &&& q.format is None ==> j.get("format"@) is None
            &&& q.options is None ==> j.get("options"@) is None
            &&& q.options is Some ==> j.get("options"@) == Some(options_json(q.options->0))
        }),
{
    reveal_strlit("model");
    reveal_strlit("prompt");
    reveal_strlit("system");
    reveal_strlit("options");
    reveal_strlit("format");
    reveal_strlit("stream");
    assert("model"@.len() == 5 && "prompt"@.len() == 6 && "system"@.len() == 6 && "options"@.len()
        == 7 && "format"@.len() == 6 && "stream"@.len() == 6);
    assert("prompt"@[0] != "system"@[0] && "prompt"@[0] != "format"@[0] && "prompt"@[0]
        != "stream"@[0]);
    assert("system"@[0] != "format"@[0] && "format"@[0] != "stream"@[0] && "system"@[1]
        != "stream"@[1]);
    let a = seq![("model"@, JsonView::Str(q.model)), ("prompt"@, JsonView::Str(q.prompt))];
    let s = field(
        "system"@,
        match q.system {
            Some(s) => Some(JsonView::Str(s)),
            None => None,
        },
    );
    let o = field(
        "options"@,
        match q.options {
            Some(o) => Some(options_json(o)),
            None => None,
        },
    );
    let f = field(
        "format"@,
        match q.format {
            Some(Format::Json) => Some(JsonView::Str("json"@)),
            None => None,
        },
    );
    let z = seq![("stream"@, JsonView::Bool(q.stream))];
    request_field(a, s, o, f, z, "model"@);
    request_field(a, s, o, f, z, "prompt"@);
    request_field(a, s, o, f, z, "system"@);
    request_field(a, s, o, f, z, "options"@);
    request_field(a, s, o, f, z, "format"@);
    request_field(a, s, o, f, z, "stream"@);
    reveal_with_fuel(entry, 3);
}

proof fn request_field(
    a: Seq<(Seq<char>, JsonView)>,
    s: Seq<(Seq<char>, JsonView)>,
    o: Seq<(Seq<char>, JsonView)>,
    f: Seq<(Seq<char>, JsonView)>,
    z: Seq<(Seq<char>, JsonView)>,
    k: Seq<char>,
)
    ensures
        entry(a + s + o + f + z, k) == match entry(a, k) {
            Some(v) => Some(v),
            None => match entry(s, k) {
                Some(v) => Some(v),
                None => match entry(o, k) {
                    Some(v) => Some(v),
                    None => match entry(f, k) {
                        Some(v) => Some(v),
                        None => entry(z, k),
                    },
                },
            },
        },
{
    fields_join(a + s + o + f, z, k);
    fields_join(a + s + o, f, k);
    fields_join(a + s, o, k);
    fields_join(a, s, k);
}

/// A finding about a lookup is read back from its own JSON.
pub proof fn dns_finding_reads_back(f: dns_reviewer::DnsFindingView)
    ensures
        dns_reviewer::finding_of()(dns_reviewer::finding_json()(f)) == Some(f),
{
    reveal_strlit("domain");
    reveal_strlit("client_process");
    reveal_strlit("reason");
    reveal_strlit("severity");
    assert("domain"@.len() == 6 && "client_process"@.len() == 14 && "reason"@.len() == 6
        && "severity"@.len() == 8);
    assert("domain"@[0] != "reason"@[0]);
    let o = dns_reviewer::finding_json()(f)->Object_0;
    field_is_read(o, 0);
    field_is_read(o, 1);
    field_is_read(o, 2);
    field_is_read(o, 3);
}

/// A finding about a process is read back from its own JSON.
pub proof fn anomaly_finding_reads_back(f: process_anomaly::AnomalyFindingView)
    ensures
        process_anomaly::finding_of()(process_anomaly::finding_json()(f)) == Some(f),
{
    reveal_strlit("pid");
    reveal_strlit("comm");
    reveal_strlit("exec_path");
    reveal_strlit("reason");
    reveal_strlit("severity");
    assert("pid"@.len() == 3 && "comm"@.len() == 4 && "exec_path"@.len() == 9 && "reason"@.len()
        == 6 && "severity"@.len() == 8);
    let o = process_anomaly::finding_json()(f)->Object_0;
    field_is_read(o, 0);
    field_is_read(o, 1);
    field_is_read(o, 2);
    field_is_read(o, 3);
    field_is_read(o, 4);
}

} // verus!
