//! What holds of what is drawn, listed and reported.

use vstd::prelude::*;
use vstd::string::*;

use crate::agents::verdict_with;
use crate::capture::CaptureSummaryView;
use crate::daemon::{all_sources, health, health_item, silent};
use crate::dns_reviewer;
use crate::dot::{
    app_dot_id, app_line, dot_text, edge_line, escaped, file_dot_id, file_line, header, node_line,
    process_dot_id, process_line, socket_dot_id, socket_line,
};
use crate::graph::{EdgeView, GraphView, ProcessNodeView};
use crate::history_laws::sorted_list_is_complete;
use crate::json::JsonView;
use crate::lifecycle_laws::field_is_read;
use crate::narrator::{
    client_line, closing_parts, focus_line, head_parts, human, mix_item, mix_parts,
};
use crate::ndjson::source_text;
use crate::netstat::NetstatRowView;
use crate::network_reviewer;
use crate::observation::Source;
use crate::order::{first_n, sort_by_key};
use crate::pcblist::{is_name_of, name_of, owners};
use crate::process_anomaly::{
    candidate_line, finding_json, names_with, triage_prompt, triage_report, AnomalyFindingView, CandidateReason,
};
use crate::run_laws::node_count_is_count;
use crate::seqs::{
    all_of, count_where, filter_map_from, filter_map_keeps, first_where, first_where_is_first,
};
use crate::store::{EdgeKind, EdgeRowView, NodeKind, NodeRowView};
use crate::store_admin::{
    by_count, count_edge_kind, count_node_kind, edge_count, edge_kinds, node_kinds,
};
use crate::store_load::seen_since;
use crate::store_rows::process_of_row;
use crate::text::{decimal, flat, joined};
use crate::timeline::{or_unknown, DnsClientFactView, FocusSegmentView};

verus! {

// ---------- texts ------------------------------------------------------------------

/// Whether a text holds another.
pub open spec fn holds(t: Seq<char>, part: Seq<char>) -> bool {
    exists|a: Seq<char>, b: Seq<char>| t == #[trigger] (a + part + b)
}

proof fn holds_itself(t: Seq<char>)
    ensures
        holds(t, t),
{
    assert(t =~= Seq::<char>::empty() + t + Seq::<char>::empty());
}

proof fn held_in_more(t: Seq<char>, u: Seq<char>, part: Seq<char>)
    requires
        holds(t, u),
        holds(u, part),
    ensures
        holds(t, part),
{
    let (a, b) = choose|a: Seq<char>, b: Seq<char>| t == #[trigger] (a + u + b);
    let (c, d) = choose|c: Seq<char>, d: Seq<char>| u == #[trigger] (c + part + d);
    assert(t =~= (a + c) + part + (d + b));
}

/// A text in parts holds each of them.
proof fn part_is_held(parts: Seq<Seq<char>>, i: int)
    requires
        0 <= i < parts.len(),
    ensures
        holds(flat(parts), parts[i]),
    decreases parts.len(),
{
    let t = parts.drop_last();
    if i == t.len() {
        assert(flat(parts) =~= flat(t) + parts[i] + Seq::<char>::empty());
    } else {
        part_is_held(t, i);
        assert(t[i] == parts[i]);
        let (a, b) = choose|a: Seq<char>, b: Seq<char>| flat(t) == #[trigger] (a + parts[i] + b);
        assert(flat(parts) =~= a + parts[i] + (b + parts.last()));
    }
}

/// A text in parts holds each of them behind the one before.
proof fn pair_is_held(parts: Seq<Seq<char>>, i: int)
    requires
        0 <= i,
        i + 1 < parts.len(),
    ensures
        holds(flat(parts), parts[i] + parts[i + 1]),
    decreases parts.len(),
{
    let t = parts.drop_last();
    let p = parts[i] + parts[i + 1];
    if i + 1 == t.len() {
        let u = t.drop_last();
        assert(flat(t) == flat(u) + parts[i]);
        assert(flat(parts) =~= flat(u) + p + Seq::<char>::empty());
    } else {
        pair_is_held(t, i);
        assert(t[i] == parts[i] && t[i + 1] == parts[i + 1]);
        let (a, b) = choose|a: Seq<char>, b: Seq<char>| flat(t) == #[trigger] (a + p + b);
        assert(flat(parts) =~= a + p + (b + parts.last()));
    }
}

/// Texts with separators between them hold each of them.
proof fn item_is_held(items: Seq<Seq<char>>, sep: Seq<char>, i: int)
    requires
        0 <= i < items.len(),
    ensures
        holds(joined(items, sep), items[i]),
    decreases items.len(),
{
    if items.len() == 1 {
        holds_itself(items[0]);
    } else {
        let t = items.drop_last();
        if i == t.len() {
            assert(joined(items, sep) =~= (joined(t, sep) + sep) + items[i] + Seq::<char>::empty());
        } else {
            item_is_held(t, sep, i);
            assert(t[i] == items[i]);
            let (a, b) = choose|a: Seq<char>, b: Seq<char>|
                joined(t, sep) == #[trigger] (a + items[i] + b);
            assert(joined(items, sep) =~= a + items[i] + (b + sep + items.last()));
        }
    }
}

// ---------- drawings ---------------------------------------------------------------

/// Every node and every edge of a graph is drawn.
pub proof fn graph_is_drawn(g: GraphView, i: int)
    ensures
        0 <= i < g.processes.len() ==> holds(dot_text(g), process_line(g.processes[i])),
        0 <= i < g.apps.len() ==> holds(dot_text(g), app_line(g.apps[i])),
        0 <= i < g.sockets.len() ==> holds(dot_text(g), socket_line(g.sockets[i])),
        0 <= i < g.files.len() ==> holds(dot_text(g), file_line(g.files[i])),
        0 <= i < g.edges.len() ==> holds(dot_text(g), edge_line(g.edges[i])),
{
    let a = Seq::new(g.processes.len(), |i: int| process_line(g.processes[i]));
    let b = Seq::new(g.apps.len(), |i: int| app_line(g.apps[i]));
    let c = Seq::new(g.sockets.len(), |i: int| socket_line(g.sockets[i]));
    let d = Seq::new(g.files.len(), |i: int| file_line(g.files[i]));
    let e = Seq::new(g.edges.len(), |i: int| edge_line(g.edges[i]));
    let all = (header() + a + b + c + d + e).push("}\n"@);
    let h = header().len() as int;
    let h1 = h + a.len();
    let h2 = h1 + b.len();
    let h3 = h2 + c.len();
    let h4 = h3 + d.len();
    if 0 <= i < g.processes.len() {
        assert(all[h + i] == a[i]);
        part_is_held(all, h + i);
    }
    if 0 <= i < g.apps.len() {
        assert(all[h1 + i] == b[i]);
        part_is_held(all, h1 + i);
    }
    if 0 <= i < g.sockets.len() {
        assert(all[h2 + i] == c[i]);
        part_is_held(all, h2 + i);
    }
    if 0 <= i < g.files.len() {
        assert(all[h3 + i] == d[i]);
        part_is_held(all, h3 + i);
    }
    if 0 <= i < g.edges.len() {
        assert(all[h4 + i] == e[i]);
        part_is_held(all, h4 + i);
    }
}

proof fn node_begins(
    id: Seq<char>,
    shape: Seq<char>,
    color: Seq<char>,
    label: Seq<char>,
    tooltip: Seq<char>,
)
    ensures
        ({
            let l = node_line(id, shape, color, label, tooltip);
            &&& exists|rest: Seq<char>| l == #[trigger] ("  \""@ + id + "\" [shape="@ + rest)
            &&& holds(l, ", style=filled, fillcolor=\""@ + color)
            &&& holds(l, "\", label=\""@ + label)
            &&& holds(l, "\", tooltip=\""@ + tooltip)
        }),
{
    let parts = seq![
        "  \""@,
        id,
        "\" [shape="@,
        shape,
        ", style=filled, fillcolor=\""@,
        color,
        "\", label=\""@,
        label,
        "\", tooltip=\""@,
        tooltip,
        "\"];\n"@,
    ];
    pair_is_held(parts, 4);
    pair_is_held(parts, 6);
    pair_is_held(parts, 8);
    assert(parts.take(3) =~= seq!["  \""@, id, "\" [shape="@]);
    reveal_with_fuel(flat, 4);
    let rest = flat(parts.skip(3));
    assert(flat(parts.take(3)) =~= "  \""@ + id + "\" [shape="@) by {
        let t = parts.take(3);
        assert(t.drop_last().drop_last().drop_last() =~= Seq::<Seq<char>>::empty());
        assert(flat(t.drop_last().drop_last()) =~= t[0]);
    }
    flat_splits(parts, 3);
    assert(node_line(id, shape, color, label, tooltip) == "  \""@ + id + "\" [shape="@ + rest);
}

proof fn flat_splits(parts: Seq<Seq<char>>, k: int)
    requires
        0 <= k <= parts.len(),
    ensures
        flat(parts) == flat(parts.take(k)) + flat(parts.skip(k)),
    decreases parts.len(),
{
    if k == parts.len() {
        assert(parts.take(k) =~= parts);
        assert(flat(parts.skip(k)) =~= Seq::<char>::empty());
        assert(flat(parts) + Seq::<char>::empty() =~= flat(parts));
    } else {
        let t = parts.drop_last();
        flat_splits(t, k);
        assert(t.take(k) =~= parts.take(k));
        assert(parts.skip(k).drop_last() =~= t.skip(k));
        assert(parts.skip(k).last() == parts.last());
        assert(flat(parts) =~= flat(parts.take(k)) + flat(parts.skip(k)));
    }
}

/// Whether a line draws a node under a name.
pub open spec fn draws_node(line: Seq<char>, id: Seq<char>) -> bool {
    exists|rest: Seq<char>| line == #[trigger] ("  \""@ + id + "\" [shape="@ + rest)
}

/// Whether a line draws an edge from one name to another.
pub open spec fn draws_edge(line: Seq<char>, from: Seq<char>, to: Seq<char>) -> bool {
    exists|rest: Seq<char>| line == #[trigger] ("  \""@ + from + "\" -> \""@ + to + rest)
}

/// A node is drawn under the name by which edges lead to it, with its label and
/// its colour: what root runs in red, a user's in blue, an open connection in
/// green.
pub proof fn nodes_are_drawn(g: GraphView, i: int)
    ensures
        0 <= i < g.processes.len() ==> ({
            let p = g.processes[i];
            let l = process_line(p);
            &&& draws_node(l, process_dot_id(p.id))
            &&& p.comm is Some ==> holds(
                l,
                "\", label=\""@ + (escaped(p.comm->0) + "\\npid "@ + decimal(p.id.pid as nat)),
            )
            &&& p.exec_path is Some ==> holds(l, "\", tooltip=\""@ + escaped(p.exec_path->0))
            &&& p.uid == Some(0u32) ==> holds(l, ", style=filled, fillcolor=\""@ + "#ffd0d0"@)
            &&& p.uid is Some && 501 <= p.uid->0 <= 600 ==> holds(
                l,
                ", style=filled, fillcolor=\""@ + "#d0e6ff"@,
            )
        }),
        0 <= i < g.apps.len() ==> draws_node(app_line(g.apps[i]), app_dot_id(g.apps[i].id)),
        0 <= i < g.sockets.len() ==> ({
            let s = g.sockets[i];
            &&& draws_node(socket_line(s), socket_dot_id(s.id))
            &&& s.closed is None ==> holds(
                socket_line(s),
                ", style=filled, fillcolor=\""@ + "#c6e6c6"@,
            )
            &&& s.closed is Some ==> holds(
                socket_line(s),
                ", style=filled, fillcolor=\""@ + "#e6e6fa"@,
            )
        }),
        0 <= i < g.files.len() ==> draws_node(file_line(g.files[i]), file_dot_id(g.files[i].path))
            && holds(file_line(g.files[i]), "\", tooltip=\""@ + escaped(g.files[i].path)),
{
    if 0 <= i < g.processes.len() {
        let p = g.processes[i];
        let label = flat(
            seq![
                escaped(
                    crate::dot::or_else(crate::analytics::either(p.comm, p.name), "?"@),
                ),
                "\\npid "@,
                decimal(p.id.pid as nat),
            ],
        );
        node_begins(
            process_dot_id(p.id),
            "box"@,
            crate::dot::color_of(p.uid),
            label,
            escaped(crate::dot::or_else(p.exec_path, ""@)),
        );
        if p.comm is Some {
            let parts = seq![escaped(p.comm->0), "\\npid "@, decimal(p.id.pid as nat)];
            reveal_with_fuel(flat, 4);
            assert(parts.drop_last().drop_last().drop_last() =~= Seq::<Seq<char>>::empty());
            assert(label =~= escaped(p.comm->0) + "\\npid "@ + decimal(p.id.pid as nat));
        }
    }
    if 0 <= i < g.apps.len() {
        let a = g.apps[i];
        node_begins(
            app_dot_id(a.id),
            "ellipse"@,
            "#fff4c2"@,
            escaped(crate::dot::or_else(a.name, a.id)),
            escaped(crate::dot::or_else(a.exec_path, a.id)),
        );
    }
    if 0 <= i < g.sockets.len() {
        let s = g.sockets[i];
        node_begins(
            socket_dot_id(s.id),
            "cylinder"@,
            if s.closed is Some {
                "#e6e6fa"@
            } else {
                "#c6e6c6"@
            },
            escaped(flat(seq![s.id.proto, "\\n"@, s.id.foreign_addr])),
            escaped(
                flat(
                    seq![
                        s.id.proto,
                        " "@,
                        s.id.local_addr,
                        " -> "@,
                        s.id.foreign_addr,
                        " ("@,
                        crate::dot::or_else(s.state, "?"@),
                        ")"@,
                    ],
                ),
            ),
        );
    }
    if 0 <= i < g.files.len() {
        let f = g.files[i];
        node_begins(
            file_dot_id(f.path),
            "note"@,
            "#fde2c2"@,
            escaped(crate::text::basename(f.path)),
            escaped(f.path),
        );
    }
}

proof fn edge_begins(from: Seq<char>, to: Seq<char>, tail: Seq<char>)
    ensures
        draws_edge(flat(seq!["  \""@, from, "\" -> \""@, to, tail]), from, to),
{
    let parts = seq!["  \""@, from, "\" -> \""@, to, tail];
    reveal_with_fuel(flat, 6);
    let t = parts.drop_last().drop_last().drop_last().drop_last();
    assert(t.drop_last() =~= Seq::<Seq<char>>::empty());
    assert(flat(t) =~= "  \""@);
    assert(flat(parts) =~= "  \""@ + from + "\" -> \""@ + to + tail);
}

/// An edge is drawn between the nodes that it joins, from the parent to the child,
/// from the application to the process, from the process to the connection.
pub proof fn edges_join_their_nodes(e: EdgeView)
    ensures
        match e {
            EdgeView::ParentOf { parent, child } => draws_edge(
                edge_line(e),
                process_dot_id(parent),
                process_dot_id(child),
            ),
            EdgeView::FrontmostDuring { app, process, overlap } => draws_edge(
                edge_line(e),
                app_dot_id(app),
                process_dot_id(process),
            ),
            EdgeView::OpenedSocket { process, socket } => draws_edge(
                edge_line(e),
                process_dot_id(process),
                socket_dot_id(socket),
            ),
            EdgeView::QueriedDomain { process, domain, count } => edge_line(e).len() == 0,
        },
{
    match e {
        EdgeView::ParentOf { parent, child } => {
            edge_begins(
                process_dot_id(parent),
                process_dot_id(child),
                "\" [color=\"#444\"];\n"@,
            );
        },
        EdgeView::FrontmostDuring { app, process, overlap } => {
            edge_begins(
                app_dot_id(app),
                process_dot_id(process),
                "\" [style=dashed, color=\"#bbb\"];\n"@,
            );
        },
        EdgeView::OpenedSocket { process, socket } => {
            edge_begins(
                process_dot_id(process),
                socket_dot_id(socket),
                "\" [color=\"#3a8a3a\"];\n"@,
            );
        },
        EdgeView::QueriedDomain { process, domain, count } => {},
    }
}

// ---------- prompts ----------------------------------------------------------------

/// The line on an application in front tells its name, for how long, and its
/// identifier.
pub proof fn focus_is_written(f: FocusSegmentView)
    ensures
        holds(focus_line()(f), "  - "@ + f.app_name),
        holds(focus_line()(f), " for "@ + human(f.duration_secs)),
        f.bundle_id is Some ==> holds(focus_line()(f), " ["@ + f.bundle_id->0),
{
    match f.bundle_id {
        Some(b) => {
            let parts = seq![
                "  - "@,
                f.app_name,
                " for "@,
                human(f.duration_secs),
                " ["@,
                b,
                "]"@,
                "\n"@,
            ];
            pair_is_held(parts, 0);
            pair_is_held(parts, 2);
            pair_is_held(parts, 4);
        },
        None => {
            let parts = seq!["  - "@, f.app_name, " for "@, human(f.duration_secs), "\n"@];
            pair_is_held(parts, 0);
            pair_is_held(parts, 2);
        },
    }
}

/// The line on a program's name lookups tells how many there were, of how many
/// names, and every example.
pub proof fn client_is_written(d: DnsClientFactView, i: int)
    ensures
        holds(client_line()(d), "  - "@ + d.process_name),
        holds(client_line()(d), " ("@ + decimal(d.unique_names as nat)),
        holds(client_line()(d), " unique names, "@ + decimal(d.total_queries as nat)),
        0 <= i < d.example_names.len() ==> holds(client_line()(d), d.example_names[i]),
{
    let head = seq![
        "  - "@,
        d.process_name,
        " ("@,
        decimal(d.unique_names as nat),
        " unique names, "@,
        decimal(d.total_queries as nat),
        " queries"@,
    ];
    let parts = if d.example_names.len() == 0 {
        head + seq![")\n"@]
    } else {
        head + seq!["; e.g. "@, joined(d.example_names, ", "@), ")\n"@]
    };
    assert(parts[0] == head[0] && parts[1] == head[1] && parts[2] == head[2] && parts[3] == head[3]
        && parts[4] == head[4] && parts[5] == head[5]);
    pair_is_held(parts, 0);
    pair_is_held(parts, 2);
    pair_is_held(parts, 4);
    if 0 <= i < d.example_names.len() {
        let names = joined(d.example_names, ", "@);
        assert(parts[8] == names);
        part_is_held(parts, 8);
        item_is_held(d.example_names, ", "@, i);
        held_in_more(flat(parts), names, d.example_names[i]);
    }
}

/// The prompt begins with how long the window was and how many events it had, then
/// every kind of event with its number; it ends with what is asked, and what
/// stands out is to come first only where something does.
pub proof fn prompt_is_framed(s: CaptureSummaryView, live: bool, i: int)
    ensures
        head_parts(s, live)[1] == human(s.duration_secs),
        head_parts(s, live)[3] == decimal(s.events_total as nat),
        0 <= i < s.kind_counts.len() ==> holds(
            flat(mix_parts(s)),
            s.kind_counts[i].0 + "="@ + decimal(s.kind_counts[i].1 as nat),
        ),
        closing_parts(s, live).len() == 2 <==> s.suspicions.len() > 0 || (s.novelty is Some
            && s.novelty->0.has_novelty()),
        closing_parts(s, live).last() != closing_parts(s, !live).last(),
{
    if 0 <= i < s.kind_counts.len() {
        let items = s.kind_counts.map_values(mix_item());
        let parts = mix_parts(s);
        part_is_held(parts, 1);
        item_is_held(items, " "@, i);
        held_in_more(flat(parts), joined(items, " "@), items[i]);
        let own = seq![s.kind_counts[i].0, "="@, decimal(s.kind_counts[i].1 as nat)];
        reveal_with_fuel(flat, 4);
        assert(own.drop_last().drop_last().drop_last() =~= Seq::<Seq<char>>::empty());
        assert(items[i] =~= s.kind_counts[i].0 + "="@ + decimal(s.kind_counts[i].1 as nat));
    }
    reveal_strlit("Write 2–5 sentences of present-tense prose addressed to the user.\n");
    reveal_strlit("Write 3–6 sentences of plain prose addressed to the user.\n");
    assert("Write 2–5 sentences of present-tense prose addressed to the user.\n"@[6] == '2');
    assert("Write 3–6 sentences of plain prose addressed to the user.\n"@[6] == '3');
}

// ---------- reviews ----------------------------------------------------------------

/// A row on name lookups tells the name, who asked, how often, and what for.
pub proof fn lookups_are_written(a: dns_reviewer::AggregateView)
    ensures
        ({
            let row = dns_reviewer::row_text()(a);
            &&& holds(row, "domain="@ + a.domain)
            &&& holds(row, " process="@ + a.client_process)
            &&& holds(row, " queries="@ + decimal(a.queries as nat))
            &&& a.qtypes.len() > 0 ==> holds(row, " qtypes="@ + joined(a.qtypes, ","@))
            &&& holds(row, " masked="@ + if a.masked {
                "true"@
            } else {
                "false"@
            })
        }),
{
    let parts = seq![
        "domain="@,
        a.domain,
        " process="@,
        a.client_process,
        " queries="@,
        decimal(a.queries as nat),
        " qtypes="@,
        if a.qtypes.len() == 0 {
            "?"@
        } else {
            joined(a.qtypes, ","@)
        },
        " masked="@,
        dns_reviewer::bool_text(a.masked),
    ];
    pair_is_held(parts, 0);
    pair_is_held(parts, 2);
    pair_is_held(parts, 4);
    pair_is_held(parts, 6);
    pair_is_held(parts, 8);
}

/// A row on conversations tells the host and the port, the program, how many
/// there were, and what went each way.
pub proof fn conversations_are_written(a: network_reviewer::AggregateView)
    ensures
        ({
            let row = network_reviewer::row_text()(a);
            &&& holds(row, "host="@ + a.foreign_host)
            &&& holds(row, " port="@ + a.foreign_port)
            &&& holds(row, " process="@ + a.process_name)
            &&& holds(row, " conns="@ + decimal(a.connections as nat))
            &&& holds(row, " bytes_rx="@ + decimal(a.bytes_rx as nat))
            &&& holds(row, " bytes_tx="@ + decimal(a.bytes_tx as nat))
            &&& holds(row, " duration_ms="@ + decimal(a.total_duration_ms as nat))
        }),
{
    let parts = seq![
        "host="@,
        a.foreign_host,
        " port="@,
        a.foreign_port,
        " process="@,
        a.process_name,
        " conns="@,
        decimal(a.connections as nat),
        " bytes_rx="@,
        decimal(a.bytes_rx as nat),
        " bytes_tx="@,
        decimal(a.bytes_tx as nat),
        " duration_ms="@,
        decimal(a.total_duration_ms as nat),
    ];
    pair_is_held(parts, 0);
    pair_is_held(parts, 2);
    pair_is_held(parts, 4);
    pair_is_held(parts, 6);
    pair_is_held(parts, 8);
    pair_is_held(parts, 10);
    pair_is_held(parts, 12);
}

/// A candidate's line tells the process, its parent and why it is one.
pub proof fn candidates_are_written(
    names: Seq<(u32, Seq<char>)>,
    p: ProcessNodeView,
    rs: Seq<CandidateReason>,
    i: int,
)
    ensures
        ({
            let row = candidate_line(names)((p, rs));
            &&& holds(row, "pid="@ + decimal(p.id.pid as nat))
            &&& p.comm is Some ==> holds(row, " comm="@ + p.comm->0)
            &&& p.exec_path is Some ==> holds(row, " exec="@ + p.exec_path->0)
            &&& p.ppid is Some ==> holds(row, " ppid="@ + decimal(p.ppid->0 as nat))
            &&& p.uid is Some ==> holds(row, " uid="@ + decimal(p.uid->0 as nat))
            &&& p.ppid is Some && crate::process_anomaly::name_of(names, p.ppid->0) is Some
                ==> holds(
                row,
                " parent_comm="@ + crate::process_anomaly::name_of(names, p.ppid->0)->0,
            )
            &&& 0 <= i < rs.len() ==> holds(row, rs[i].spec_tag())
        }),
{
    let tags = rs.map_values(crate::process_anomaly::tag_text());
    let parts = seq![
        "pid="@,
        decimal(p.id.pid as nat),
        " comm="@,
        or_unknown(p.comm),
        " exec="@,
        or_unknown(p.exec_path),
        " ppid="@,
        crate::process_anomaly::number_or_unknown(p.ppid),
        " parent_comm="@,
        match p.ppid {
            Some(pp) => or_unknown(
                crate::process_anomaly::name_of(names, pp),
            ),
            None => "?"@,
        },
        " uid="@,
        crate::process_anomaly::number_or_unknown(p.uid),
        " reasons=["@,
        joined(tags, ","@),
        "]"@,
    ];
    pair_is_held(parts, 0);
    pair_is_held(parts, 2);
    pair_is_held(parts, 4);
    pair_is_held(parts, 6);
    pair_is_held(parts, 8);
    pair_is_held(parts, 10);
    if 0 <= i < rs.len() {
        part_is_held(parts, 13);
        item_is_held(tags, ","@, i);
        assert(tags[i] == rs[i].spec_tag());
        held_in_more(flat(parts), joined(tags, ","@), tags[i]);
    }
}

/// Every one of the first rows is in the question to the model, as many as are
/// asked for.
pub proof fn rows_are_asked_about(
    dns: Seq<dns_reviewer::AggregateView>,
    net: Seq<network_reviewer::AggregateView>,
    all: Seq<(ProcessNodeView, Seq<CandidateReason>)>,
    names: Seq<(u32, Seq<char>)>,
    total: usize,
    max: usize,
    i: int,
)
    requires
        0 <= i < max,
    ensures
        i < dns.len() ==> holds(
            dns_reviewer::review_prompt(dns, max),
            dns_reviewer::row_text()(dns[i]),
        ),
        i < net.len() ==> holds(
            network_reviewer::review_prompt(net, max),
            network_reviewer::row_text()(net[i]),
        ),
        i < all.len() ==> holds(triage_prompt(all, total, names, max), candidate_line(names)(all[i])),
{
    if i < dns.len() {
        let shown = first_n(dns, max as int);
        let rows = shown.map_values(dns_reviewer::row_text());
        assert(rows[i] == dns_reviewer::row_text()(dns[i]));
        item_is_held(rows, "\n"@, i);
        let parts = seq![
            "Below is a summary of "@,
            decimal(shown.len()),
            " of "@,
            decimal(dns.len()),
            dns_reviewer::REVIEW_TASK@,
            joined(rows, "\n"@),
        ];
        part_is_held(parts, 5);
        held_in_more(flat(parts), joined(rows, "\n"@), rows[i]);
    }
    if i < net.len() {
        let shown = first_n(net, max as int);
        let rows = shown.map_values(network_reviewer::row_text());
        assert(rows[i] == network_reviewer::row_text()(net[i]));
        item_is_held(rows, "\n"@, i);
        let parts = seq![
            "Below is a summary of "@,
            decimal(shown.len()),
            " of "@,
            decimal(net.len()),
            network_reviewer::REVIEW_TASK@,
            joined(rows, "\n"@),
        ];
        part_is_held(parts, 5);
        held_in_more(flat(parts), joined(rows, "\n"@), rows[i]);
    }
    if i < all.len() {
        let shown = first_n(all, max as int);
        let rows = shown.map_values(candidate_line(names));
        assert(rows[i] == candidate_line(names)(all[i]));
        item_is_held(rows, "\n"@, i);
        let parts = seq![
            "Below are "@,
            decimal(shown.len()),
            " processes (of "@,
            decimal(all.len()),
            " candidates from "@,
            decimal(total as nat),
            crate::process_anomaly::TRIAGE_TASK@,
            joined(rows, "\n"@),
        ];
        part_is_held(parts, 7);
        held_in_more(flat(parts), joined(rows, "\n"@), rows[i]);
    }
}

/// What the model finds is reported, all of it and in its words; a reply that is
/// no verdict is reported as it stands.
pub proof fn findings_are_reported(
    all: Seq<dns_reviewer::AggregateView>,
    max: usize,
    verdict: Option<(Seq<char>, Seq<dns_reviewer::DnsFindingView>)>,
    raw: Seq<char>,
    model: Seq<char>,
)
    ensures
        ({
            let r = dns_reviewer::review_report(all, max, verdict, raw, model);
            &&& r.model == model
            &&& verdict is None ==> r.summary == raw && r.details.get("findings"@) == Some(
                JsonView::Array(Seq::empty()),
            )
            &&& verdict is Some ==> r.summary == (verdict->0).0 && r.details.get("findings"@)
                == Some(
                JsonView::Array((verdict->0).1.map_values(dns_reviewer::finding_json())),
            )
            &&& r.details.get("domains_unique"@) == Some(JsonView::Int(all.len() as int))
            &&& r.details.get("domains_sampled"@) == Some(
                JsonView::Int(
                    if all.len() < max {
                        all.len() as int
                    } else {
                        max as int
                    },
                ),
            )
        }),
{
    let r = dns_reviewer::review_report(all, max, verdict, raw, model);
    let o = r.details->Object_0;
    reveal_strlit("domains_unique");
    reveal_strlit("domains_sampled");
    reveal_strlit("findings");
    assert("domains_unique"@.len() == 14 && "domains_sampled"@.len() == 15 && "findings"@.len() == 8);
    field_is_read(o, 0);
    field_is_read(o, 1);
    field_is_read(o, 2);
    assert(Seq::<dns_reviewer::DnsFindingView>::empty().map_values(dns_reviewer::finding_json())
        =~= Seq::<JsonView>::empty());
}
/// What the model finds about conversations is reported, all of it; a reply that
/// is no verdict is reported as it stands.
pub proof fn network_findings_are_reported(
    all: Seq<network_reviewer::AggregateView>,
    max: usize,
    verdict: Option<(Seq<char>, Seq<network_reviewer::NetworkFindingView>)>,
    raw: Seq<char>,
    model: Seq<char>,
)
    ensures
        ({
            let r = network_reviewer::review_report(all, max, verdict, raw, model);
            &&& r.model == model
            &&& verdict is None ==> r.summary == raw && r.details.get("findings"@) == Some(
                JsonView::Array(Seq::empty()),
            )
            &&& verdict is Some ==> r.summary == (verdict->0).0 && r.details.get("findings"@)
                == Some(
                JsonView::Array((verdict->0).1.map_values(network_reviewer::finding_json())),
            )
            &&& r.details.get("conversations_unique"@) == Some(JsonView::Int(all.len() as int))
            &&& r.details.get("conversations_sampled"@) == Some(
                JsonView::Int(
                    if all.len() < max {
                        all.len() as int
                    } else {
                        max as int
                    },
                ),
            )
        }),
{
    let r = network_reviewer::review_report(all, max, verdict, raw, model);
    let o = r.details->Object_0;
    reveal_strlit("conversations_unique");
    reveal_strlit("conversations_sampled");
    reveal_strlit("findings");
    assert("conversations_unique"@.len() == 20 && "conversations_sampled"@.len() == 21
        && "findings"@.len() == 8);
    field_is_read(o, 0);
    field_is_read(o, 1);
    field_is_read(o, 2);
    assert(Seq::<network_reviewer::NetworkFindingView>::empty().map_values(
        network_reviewer::finding_json(),
    ) =~= Seq::<JsonView>::empty());
}

/// What the model finds about processes is reported, all of it, with how many
/// there were; a reply that is no verdict is reported as it stands, and marked.
pub proof fn triage_findings_are_reported(
    candidates: int,
    total: usize,
    max: usize,
    verdict: Option<(Seq<char>, Seq<AnomalyFindingView>)>,
    raw: Seq<char>,
    model: Seq<char>,
)
    ensures
        ({
            let r = triage_report(candidates, total, max, verdict, raw, model);
            &&& r.model == model
            &&& r.details.get("parse_error"@) == Some(JsonView::Bool(verdict is None))
            &&& verdict is None ==> r.summary == raw && r.details.get("findings"@) == Some(
                JsonView::Array(Seq::empty()),
            )
            &&& verdict is Some ==> r.summary == (verdict->0).0 && r.details.get("findings"@)
                == Some(JsonView::Array((verdict->0).1.map_values(finding_json())))
            &&& r.details.get("processes_total"@) == Some(JsonView::Int(total as int))
            &&& r.details.get("candidates_total"@) == Some(JsonView::Int(candidates))
            &&& r.details.get("candidates_shown"@) == Some(
                JsonView::Int(
                    if candidates <= max {
                        candidates
                    } else {
                        max as int
                    },
                ),
            )
        }),
{
    let r = triage_report(candidates, total, max, verdict, raw, model);
    let o = r.details->Object_0;
    reveal_strlit("processes_total");
    reveal_strlit("candidates_total");
    reveal_strlit("candidates_shown");
    reveal_strlit("findings");
    reveal_strlit("parse_error");
    assert("processes_total"@.len() == 15 && "candidates_total"@.len() == 16
        && "candidates_shown"@.len() == 16 && "findings"@.len() == 8 && "parse_error"@.len() == 11);
    assert("candidates_total"@[11] == 't' && "candidates_shown"@[11] == 's');
    field_is_read(o, 0);
    field_is_read(o, 1);
    field_is_read(o, 2);
    field_is_read(o, 3);
    field_is_read(o, 4);
    assert(Seq::<AnomalyFindingView>::empty().map_values(finding_json())
        =~= Seq::<JsonView>::empty());
}

/// The name of a process is the one that was noted last under its number.
pub proof fn name_is_the_last(names: Seq<(u32, Seq<char>)>, pid: u32)
    ensures
        match crate::process_anomaly::name_of(names, pid) {
            Some(n) => exists|i: int|
                0 <= i < names.len() && #[trigger] names[i] == (pid, n) && forall|j: int|
                    i < j < names.len() ==> (#[trigger] names[j]).0 != pid,
            None => forall|i: int| 0 <= i < names.len() ==> (#[trigger] names[i]).0 != pid,
        },
    decreases names.len(),
{
    if names.len() > 0 {
        let t = names.drop_last();
        let k = names.len() - 1;
        name_is_the_last(t, pid);
        if names[k].0 == pid {
            assert(names[k] == (pid, names[k].1));
        } else {
            match crate::process_anomaly::name_of(t, pid) {
                Some(n) => {
                    let i = choose|i: int|
                        0 <= i < t.len() && #[trigger] t[i] == (pid, n) && forall|j: int|
                            i < j < t.len() ==> (#[trigger] t[j]).0 != pid;
                    assert(names[i] == (pid, n));
                    assert forall|j: int| i < j < names.len() implies (#[trigger] names[j]).0
                        != pid by {
                        if j < k {
                            assert(t[j] == names[j]);
                        }
                    }
                },
                None => {
                    assert forall|j: int| 0 <= j < names.len() implies (#[trigger] names[j]).0
                        != pid by {
                        if j < k {
                            assert(t[j] == names[j]);
                        }
                    }
                },
            }
        }
    }
}

/// A candidate's own name is known to its children too, unless another is known
/// already.
pub proof fn candidates_are_known_by_name(
    names: Seq<(u32, Seq<char>)>,
    cs: Seq<(ProcessNodeView, Seq<CandidateReason>)>,
    pid: u32,
)
    ensures
        ({
            let all = names_with(names, cs);
            let known = crate::process_anomaly::name_of(names, pid);
            let told = crate::process_anomaly::name_of(all, pid);
            &&& known is Some ==> told == known
            &&& known is None ==> (told is Some <==> exists|i: int|
                0 <= i < cs.len() && (#[trigger] cs[i]).0.id.pid == pid && cs[i].0.comm is Some)
            &&& known is None && told is Some ==> exists|i: int|
                0 <= i < cs.len() && (#[trigger] cs[i]).0.id.pid == pid && cs[i].0.comm == told
                    && forall|j: int|
                    0 <= j < i ==> (#[trigger] cs[j]).0.id.pid != pid || cs[j].0.comm is None
        }),
    decreases cs.len(),
{
    if cs.len() > 0 {
        let t = cs.drop_last();
        let k = cs.len() - 1;
        candidates_are_known_by_name(names, t, pid);
        let rest = names_with(names, t);
        let p = cs[k].0;
        let all = names_with(names, cs);
        let before = crate::process_anomaly::name_of(rest, pid);
        if p.comm is Some && crate::process_anomaly::name_of(rest, p.id.pid) is None {
            assert(all == rest.push((p.id.pid, p.comm->0)));
            assert(all.drop_last() =~= rest);
        }
        assert forall|i: int| 0 <= i < t.len() implies #[trigger] t[i] == cs[i] by {}
        if before is Some {
            assert(crate::process_anomaly::name_of(all, pid) == before);
            if crate::process_anomaly::name_of(names, pid) is None {
                let i = choose|i: int|
                    0 <= i < t.len() && (#[trigger] t[i]).0.id.pid == pid && t[i].0.comm == before
                        && forall|j: int|
                        0 <= j < i ==> (#[trigger] t[j]).0.id.pid != pid || t[j].0.comm is None;
                assert(cs[i] == t[i]);
                assert forall|j: int| 0 <= j < i implies (#[trigger] cs[j]).0.id.pid != pid
                    || cs[j].0.comm is None by {
                    assert(t[j] == cs[j]);
                }
            }
        } else {
            assert forall|j: int| 0 <= j < k implies (#[trigger] cs[j]).0.id.pid != pid
                || cs[j].0.comm is None by {
                assert(t[j] == cs[j]);
            }
            if p.comm is Some && p.id.pid == pid {
                assert(crate::process_anomaly::name_of(all, pid) == p.comm);
                assert(cs[k].0.comm == crate::process_anomaly::name_of(all, pid));
            }
        }
    }
}

/// A verdict that is written out with its findings is read back with all of them.
pub proof fn verdict_reads_back<F>(
    summary: Seq<char>,
    fs: Seq<F>,
    write: spec_fn(F) -> JsonView,
    read: spec_fn(JsonView) -> Option<F>,
)
    requires
        forall|f: F| read(#[trigger] write(f)) == Some(f),
    ensures
        verdict_with(
            JsonView::Object(
                seq![
                    ("summary"@, JsonView::Str(summary)),
                    ("findings"@, JsonView::Array(fs.map_values(write))),
                ],
            ),
            read,
        ) == Some((summary, fs)),
{
    let v = fs.map_values(write);
    let o = seq![("summary"@, JsonView::Str(summary)), ("findings"@, JsonView::Array(v))];
    reveal_strlit("summary");
    reveal_strlit("findings");
    assert("summary"@.len() == 7 && "findings"@.len() == 8);
    field_is_read(o, 0);
    field_is_read(o, 1);
    assert forall|i: int| 0 <= i < v.len() implies read(#[trigger] v[i]) is Some by {
        assert(v[i] == write(fs[i]));
    }
    assert(all_of(v, read) is Some);
    assert(all_of(v, read)->0 =~= fs) by {
        assert forall|i: int| 0 <= i < fs.len() implies #[trigger] (all_of(v, read)->0)[i]
            == fs[i] by {
            assert(v[i] == write(fs[i]));
        }
    }
}

/// A verdict with something among its findings that is none is no verdict.
pub proof fn verdict_has_only_findings<F>(
    j: JsonView,
    v: Seq<JsonView>,
    read: spec_fn(JsonView) -> Option<F>,
    i: int,
)
    requires
        crate::agents::verdict_of(j) is Some,
        (crate::agents::verdict_of(j)->0).1 == v,
        0 <= i < v.len(),
        read(v[i]) is None,
    ensures
        verdict_with(j, read) is None,
{
}

// ---------- health -----------------------------------------------------------------

/// The first line on the health of the sources tells the count of each, and what
/// was dropped; a source is named as silent exactly if nothing came from it.
pub proof fn every_source_is_told(prefix: Seq<char>, counts: Seq<u64>, dropped: u64, s: Source)
    requires
        counts.len() == 5,
    ensures
        ({
            let h = health(prefix, counts, dropped);
            &&& h.len() > 0
            &&& holds(h[0], source_text(s) + "="@ + decimal(counts[s.position()] as nat))
            &&& dropped > 0 ==> holds(h[0], "dropped="@ + decimal(dropped as nat))
            &&& counts[s.position()] == 0 ==> holds(h.last(), source_text(s)) && h.len() == if dropped > 0 {
                3int
            } else {
                2
            }
            &&& (forall|i: int| 0 <= i < 5 ==> #[trigger] counts[i] != 0) ==> h.len() == if dropped
                > 0 {
                2int
            } else {
                1
            }
        }),
{
    let all = all_sources();
    let items = all.map_values(health_item(counts));
    let quiet = all.filter_map(silent(counts));
    let first = if dropped > 0 {
        items.push(flat(seq!["dropped="@, decimal(dropped as nat)]))
    } else {
        items
    };
    let h = health(prefix, counts, dropped);
    assert(all[s.position()] == s);
    let k = s.position();
    let line = seq![prefix, ": source health: "@, joined(first, " "@)];
    assert(h[0] == flat(line));
    part_is_held(line, 2);
    item_is_held(first, " "@, k);
    let own = seq![source_text(s), "="@, decimal(counts[k] as nat)];
    assert(first[k] == flat(own));
    reveal_with_fuel(flat, 4);
    assert(own.drop_last().drop_last().drop_last() =~= Seq::<Seq<char>>::empty());
    assert(flat(own) =~= source_text(s) + "="@ + decimal(counts[k] as nat));
    held_in_more(h[0], joined(first, " "@), first[k]);
    if dropped > 0 {
        item_is_held(first, " "@, 5);
        let lost = seq!["dropped="@, decimal(dropped as nat)];
        assert(lost.drop_last().drop_last() =~= Seq::<Seq<char>>::empty());
        assert(flat(lost) =~= "dropped="@ + decimal(dropped as nat));
        held_in_more(h[0], joined(first, " "@), first[5]);
    }
    if counts[k] == 0 {
        assert(silent(counts)(all[k]) == Some(source_text(s)));
        filter_map_keeps(all, silent(counts), k);
        let m = choose|m: int| 0 <= m < quiet.len() && quiet[m] == source_text(s);
        item_is_held(quiet, ", "@, m);
        let parts = seq![
            prefix,
            ": warning — no observations from: "@,
            joined(quiet, ", "@),
            ". On macOS this usually means a missing permission (Window needs Accessibility for the frontmost-app poll; Endpoint Security events need sudo)."@,
        ];
        part_is_held(parts, 2);
        held_in_more(flat(parts), joined(quiet, ", "@), quiet[m]);
        assert(h.last() == flat(parts));
    }
    if forall|i: int| 0 <= i < 5 ==> #[trigger] counts[i] != 0 {
        if quiet.len() > 0 {
            filter_map_from(all, silent(counts), 0);
            let i = choose|i: int|
                0 <= i < all.len() && silent(counts)(#[trigger] all[i]) == Some(quiet[0]);
            assert(counts[all[i].position()] != 0);
        }
    }
}

// ---------- stores -----------------------------------------------------------------

proof fn edges_are_counted(edges: Seq<EdgeRowView>, kind: EdgeKind)
    ensures
        edge_count(edges, kind) == count_where(edges, |r: EdgeRowView| r.kind == kind),
        edge_count(edges, kind) <= edges.len(),
    decreases edges.len(),
{
    if edges.len() > 0 {
        edges_are_counted(edges.drop_last(), kind);
    }
}

/// Whether a line tells how many edges of a kind there are.
pub open spec fn tells_edges(l: (Seq<char>, u64), edges: Seq<EdgeRowView>, kind: EdgeKind) -> bool {
    l.0 == kind.spec_name() && l.1 > 0 && l.1 == count_where(
        edges,
        |r: EdgeRowView| r.kind == kind,
    )
}

/// Whether a line tells how many nodes of a kind there are.
pub open spec fn tells_nodes(l: (Seq<char>, u64), nodes: Seq<NodeRowView>, kind: NodeKind) -> bool {
    l.0 == kind.spec_name() && l.1 > 0 && l.1 == count_where(
        nodes,
        |r: NodeRowView| r.kind == kind,
    )
}

/// The overview tells the kinds of edges that there are, with their number, and
/// nothing else.
pub proof fn overview_tells_edges(edges: Seq<EdgeRowView>, l: (Seq<char>, u64))
    requires
        edges.len() <= u64::MAX,
    ensures
        sort_by_key(edge_kinds().filter_map(count_edge_kind(edges)), by_count()).contains(l) <==> exists|kind: EdgeKind| #[trigger]
            tells_edges(l, edges, kind),
{
    let f = count_edge_kind(edges);
    let kinds = edge_kinds();
    sorted_list_is_complete(kinds, f, by_count(), l);
    assert forall|k: EdgeKind| #[trigger] tells_edges(l, edges, k) <==> f(k) == Some(l) by {
        edges_are_counted(edges, k);
    }
    if exists|k: EdgeKind| #[trigger] tells_edges(l, edges, k) {
        let k = choose|k: EdgeKind| #[trigger] tells_edges(l, edges, k);
        assert(kinds[0] == EdgeKind::ParentOf && kinds[1] == EdgeKind::FrontmostDuring && kinds[2]
            == EdgeKind::OpenedSocket && kinds[3] == EdgeKind::QueriedDomain);
        assert(kinds.contains(k));
        let i = choose|i: int| 0 <= i < kinds.len() && kinds[i] == k;
        assert(f(kinds[i]) == Some(l));
    }
    if exists|i: int| 0 <= i < kinds.len() && f(#[trigger] kinds[i]) == Some(l) {
        let i = choose|i: int| 0 <= i < kinds.len() && f(#[trigger] kinds[i]) == Some(l);
        assert(tells_edges(l, edges, kinds[i]));
    }
}

/// The overview tells the kinds of nodes that there are, with their number, and
/// nothing else.
pub proof fn overview_tells_nodes(nodes: Seq<NodeRowView>, l: (Seq<char>, u64))
    requires
        nodes.len() <= u64::MAX,
    ensures
        sort_by_key(node_kinds().filter_map(count_node_kind(nodes)), by_count()).contains(l) <==> exists|kind: NodeKind| #[trigger]
            tells_nodes(l, nodes, kind),
{
    let f = count_node_kind(nodes);
    let kinds = node_kinds();
    sorted_list_is_complete(kinds, f, by_count(), l);
    assert forall|k: NodeKind| #[trigger] tells_nodes(l, nodes, k) <==> f(k) == Some(l) by {
        node_count_is_count(nodes, k);
    }
    if exists|k: NodeKind| #[trigger] tells_nodes(l, nodes, k) {
        let k = choose|k: NodeKind| #[trigger] tells_nodes(l, nodes, k);
        assert(kinds[0] == NodeKind::Process && kinds[1] == NodeKind::App && kinds[2]
            == NodeKind::Socket && kinds[3] == NodeKind::File && kinds[4] == NodeKind::Domain);
        assert(kinds.contains(k));
        let i = choose|i: int| 0 <= i < kinds.len() && kinds[i] == k;
        assert(f(kinds[i]) == Some(l));
    }
    if exists|i: int| 0 <= i < kinds.len() && f(#[trigger] kinds[i]) == Some(l) {
        let i = choose|i: int| 0 <= i < kinds.len() && f(#[trigger] kinds[i]) == Some(l);
        assert(tells_nodes(l, nodes, kinds[i]));
    }
}

/// The processes seen since a time are those of the rows that were, all of them
/// and no others.
pub proof fn processes_since_are_those_seen(nodes: Seq<NodeRowView>, since: u64, p: ProcessNodeView)
    ensures
        nodes.filter_map(seen_since(since)).contains(p) <==> exists|i: int|
            0 <= i < nodes.len() && (#[trigger] nodes[i]).kind == NodeKind::Process
                && nodes[i].last_seen >= since && process_of_row(nodes[i]) == p,
{
    let f = seen_since(since);
    let kept = nodes.filter_map(f);
    if kept.contains(p) {
        let k = choose|k: int| 0 <= k < kept.len() && kept[k] == p;
        filter_map_from(nodes, f, k);
        let i = choose|i: int| 0 <= i < nodes.len() && f(#[trigger] nodes[i]) == Some(kept[k]);
        assert(nodes[i].kind == NodeKind::Process);
    }
    if exists|i: int|
        0 <= i < nodes.len() && (#[trigger] nodes[i]).kind == NodeKind::Process
            && nodes[i].last_seen >= since && process_of_row(nodes[i]) == p {
        let i = choose|i: int|
            0 <= i < nodes.len() && (#[trigger] nodes[i]).kind == NodeKind::Process
                && nodes[i].last_seen >= since && process_of_row(nodes[i]) == p;
        filter_map_keeps(nodes, f, i);
    }
}

// ---------- owners -----------------------------------------------------------------

/// The owners to be looked up are those of the rows.
pub proof fn owners_are_those_of_rows(rows: Seq<NetstatRowView>, pid: u32)
    ensures
        owners(rows).contains(pid) <==> exists|i: int|
            0 <= i < rows.len() && (#[trigger] rows[i]).pid == Some(pid),
    decreases rows.len(),
{
    if rows.len() > 0 {
        let t = rows.drop_last();
        let n = rows.len() - 1;
        owners_are_those_of_rows(t, pid);
        let a = owners(t);
        let b = owners(rows);
        if exists|i: int| 0 <= i < rows.len() && (#[trigger] rows[i]).pid == Some(pid) {
            let i = choose|i: int| 0 <= i < rows.len() && (#[trigger] rows[i]).pid == Some(pid);
            if i < n {
                assert(t[i].pid == Some(pid));
                let k = choose|k: int| 0 <= k < a.len() && a[k] == pid;
                assert(b[k] == pid);
            } else {
                assert(b[a.len() as int] == pid);
            }
        }
        if b.contains(pid) {
            let k = choose|k: int| 0 <= k < b.len() && b[k] == pid;
            if k < a.len() {
                assert(a[k] == pid);
                let i = choose|i: int| 0 <= i < t.len() && (#[trigger] t[i]).pid == Some(pid);
                assert(rows[i].pid == Some(pid));
            } else {
                assert(rows[n].pid == Some(pid));
            }
        }
    }
}

/// A row is given the name of its owner where one is known.
pub proof fn owners_are_named(names: Seq<(u32, Seq<char>)>, pid: u32, name: Seq<char>, i: int)
    requires
        0 <= i < names.len(),
        names[i] == (pid, name),
        forall|a: int, b: int|
            0 <= a < names.len() && 0 <= b < names.len() && (#[trigger] names[a]).0 == (
            #[trigger] names[b]).0 ==> a == b,
    ensures
        name_of(Some(pid), names) == name,
        name_of(None, names).len() == 0,
{
    first_where_is_first(names, is_name_of(pid));
    assert(is_name_of(pid)(names[i]));
    let k = first_where(names, is_name_of(pid))->0;
    assert(names[k].0 == names[i].0);
}

} // verus!
