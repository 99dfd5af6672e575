//! The graph as a GraphViz text.
//!
//! Four node shapes: a box for a process, coloured by its user, an ellipse for
//! an application, a cylinder for a connection and a note for a file. Three
//! edge styles: black from a parent, dashed grey from an application, green to
//! a connection. Paths and other detail stand in tooltips, so that labels stay
//! short. Names and the edges to them are not drawn.

use vstd::prelude::*;
use vstd::string::*;

use crate::analytics::either;
use crate::graph::{
    AppNode, AppNodeView, Edge, EdgeView, FileNode, FileNodeView, Graph, GraphView, ProcessId,
    ProcessNode, ProcessNodeView, SocketId, SocketIdView, SocketNode, SocketNodeView,
};
use crate::text::{basename, basename_of, chars_of, decimal, flat, push_char, Parts};

verus! {

// ---------- characters -------------------------------------------------------------

/// Whether a character may stand in an identifier as it is.
pub open spec fn is_plain(c: char) -> bool {
    ('a' <= c && c <= 'z') || ('A' <= c && c <= 'Z') || ('0' <= c && c <= '9') || c == '.' || c == '-'
        || c == '_'
}

/// A text in which everything that may not stand in an identifier is an
/// underscore.
pub open spec fn slug(s: Seq<char>) -> Seq<char> {
    Seq::new(
        s.len(),
        |i: int|
            if is_plain(s[i]) {
                s[i]
            } else {
                '_'
            },
    )
}

/// A character as it stands in a quoted text.
pub open spec fn escaped_char(c: char) -> Seq<char> {
    if c == '"' {
        seq!['\\', '"']
    } else if c == '\\' {
        seq!['\\', '\\']
    } else if c == '\n' {
        seq!['\\', 'n']
    } else {
        seq![c]
    }
}

/// A text as it stands in a quoted text: quotes and backslashes have a
/// backslash before them, line ends are written out.
pub open spec fn escaped(s: Seq<char>) -> Seq<char>
    decreases s.len(),
{
    if s.len() == 0 {
        Seq::empty()
    } else {
        escaped(s.drop_last()) + escaped_char(s.last())
    }
}

/// A text in which everything that may not stand in an identifier is an
/// underscore.
fn slug_of(s: &str) -> (r: String)
    ensures
        r@ == slug(s@),
{
    let mut out = String::new();
    let cs: Vec<char> = chars_of(s);
    let mut i: usize = 0;
    assert(out@ =~= slug(s@).take(0));
    while i < cs.len()
        invariant
            cs@ == s@,
            i <= cs@.len(),
            out@ == slug(s@).take(i as int),
        decreases cs@.len() - i,
    {
        let c: char = cs[i];
        if (c >= 'a' && c <= 'z') || (c >= 'A' && c <= 'Z') || (c >= '0' && c <= '9') || c == '.' || c
            == '-' || c == '_' {
            push_char(&mut out, c);
        } else {
            push_char(&mut out, '_');
        }
        assert(out@ =~= slug(s@).take(i + 1));
        i = i + 1;
    }
    assert(slug(s@).take(s@.len() as int) =~= slug(s@));
    out
}

/// A text as it stands in a quoted text.
pub fn escape(s: &str) -> (r: String)
    ensures
        r@ == escaped(s@),
{
    let cs: Vec<char> = chars_of(s);
    let mut out = String::new();
    let mut i: usize = 0;
    assert(out@ =~= escaped(s@.take(0)));
    while i < cs.len()
        invariant
            cs@ == s@,
            i <= cs@.len(),
            out@ == escaped(s@.take(i as int)),
        decreases cs@.len() - i,
    {
        let c: char = cs[i];
        assert(s@.take(i + 1).drop_last() =~= s@.take(i as int));
        if c == '"' {
            push_char(&mut out, '\\');
            push_char(&mut out, '"');
        } else if c == '\\' {
            push_char(&mut out, '\\');
            push_char(&mut out, '\\');
        } else if c == '\n' {
            push_char(&mut out, '\\');
            push_char(&mut out, 'n');
        } else {
            push_char(&mut out, c);
        }
        assert(out@ =~= escaped(s@.take(i + 1)));
        i = i + 1;
    }
    assert(s@.take(s@.len() as int) =~= s@);
    out
}

// ---------- identifiers ------------------------------------------------------------

/// The identifier of a process.
pub open spec fn process_dot_id(id: ProcessId) -> Seq<char> {
    flat(seq!["p_"@, decimal(id.pid as nat), "_"@, decimal(id.start_unix_secs as nat)])
}

/// The identifier of an application.
pub open spec fn app_dot_id(id: Seq<char>) -> Seq<char> {
    flat(seq!["a_"@, slug(id)])
}

/// The identifier of a connection.
pub open spec fn socket_dot_id(id: SocketIdView) -> Seq<char> {
    flat(seq!["s_"@, slug(id.proto), "_"@, slug(id.local_addr), "_"@, slug(id.foreign_addr)])
}

/// The identifier of a file.
pub open spec fn file_dot_id(path: Seq<char>) -> Seq<char> {
    flat(seq!["f_"@, slug(path)])
}

fn id_of_process(id: &ProcessId) -> (r: String)
    ensures
        r@ == process_dot_id(*id),
{
    let mut t = Parts::new();
    t.add("p_");
    t.add_number(id.pid as u64);
    t.add("_");
    t.add_number(id.start_unix_secs);
    t.finish()
}

fn id_of_app(id: &str) -> (r: String)
    ensures
        r@ == app_dot_id(id@),
{
    let mut t = Parts::new();
    t.add("a_");
    t.add(slug_of(id).as_str());
    t.finish()
}

fn id_of_socket(id: &SocketId) -> (r: String)
    ensures
        r@ == socket_dot_id(id.deep_view()),
{
    let mut t = Parts::new();
    t.add("s_");
    t.add(slug_of(id.proto.as_str()).as_str());
    t.add("_");
    t.add(slug_of(id.local_addr.as_str()).as_str());
    t.add("_");
    t.add(slug_of(id.foreign_addr.as_str()).as_str());
    t.finish()
}

fn id_of_file(path: &str) -> (r: String)
    ensures
        r@ == file_dot_id(path@),
{
    let mut t = Parts::new();
    t.add("f_");
    t.add(slug_of(path).as_str());
    t.finish()
}

// ---------- lines ------------------------------------------------------------------

/// The colour of a process: root, a usual user, another user, unknown.
pub open spec fn color_of(uid: Option<u32>) -> Seq<char> {
    match uid {
        Some(u) => if u == 0 {
            "#ffd0d0"@
        } else if 501 <= u <= 600 {
            "#d0e6ff"@
        } else {
            "#e8e8e8"@
        },
        None => "#f5f5f5"@,
    }
}

/// A text, or another where there is none.
pub open spec fn or_else(s: Option<Seq<char>>, other: Seq<char>) -> Seq<char> {
    match s {
        Some(t) => t,
        None => other,
    }
}

/// A node's line: its identifier, shape, colour, label and tooltip.
pub open spec fn node_line(
    id: Seq<char>,
    shape: Seq<char>,
    color: Seq<char>,
    label: Seq<char>,
    tooltip: Seq<char>,
) -> Seq<char> {
    flat(
        seq![
            "  \""@,
            id,
            "\" [shape="@,
            shape,
            ", style=filled, fillcolor=\""@,
            color,
            "\", label=\""@,
            label,
            "\", tooltip=\""@,
            tooltip,
            "\"];\n"@,
        ],
    )
}

/// A process's line.
pub open spec fn process_line(p: ProcessNodeView) -> Seq<char> {
    node_line(
        process_dot_id(p.id),
        "box"@,
        color_of(p.uid),
        flat(
            seq![
                escaped(or_else(either(p.comm, p.name), "?"@)),
                "\\npid "@,
                decimal(p.id.pid as nat),
            ],
        ),
        escaped(or_else(p.exec_path, ""@)),
    )
}

/// An application's line.
pub open spec fn app_line(a: AppNodeView) -> Seq<char> {
    node_line(
        app_dot_id(a.id),
        "ellipse"@,
        "#fff4c2"@,
        escaped(or_else(a.name, a.id)),
        escaped(or_else(a.exec_path, a.id)),
    )
}

/// A connection's line.
pub open spec fn socket_line(s: SocketNodeView) -> Seq<char> {
    node_line(
        socket_dot_id(s.id),
        "cylinder"@,
        if s.closed is Some {
            "#e6e6fa"@
        } else {
            "#c6e6c6"@
        },
        escaped(flat(seq![s.id.proto, "\\n"@, s.id.foreign_addr])),
        escaped(
            flat(
                seq![
                    s.id.proto,
                    " "@,
                    s.id.local_addr,
                    " -> "@,
                    s.id.foreign_addr,
                    " ("@,
                    or_else(s.state, "?"@),
                    ")"@,
                ],
            ),
        ),
    )
}

/// A file's line.
pub open spec fn file_line(f: FileNodeView) -> Seq<char> {
    node_line(
        file_dot_id(f.path),
        "note"@,
        "#fde2c2"@,
        escaped(basename(f.path)),
        escaped(f.path),
    )
}

/// An edge's line; none for an edge to a name.
pub open spec fn edge_line(e: EdgeView) -> Seq<char> {
    match e {
        EdgeView::ParentOf { parent, child } => flat(
            seq![
                "  \""@,
                process_dot_id(parent),
                "\" -> \""@,
                process_dot_id(child),
                "\" [color=\"#444\"];\n"@,
            ],
        ),
        EdgeView::FrontmostDuring { app, process, overlap } => flat(
            seq![
                "  \""@,
                app_dot_id(app),
                "\" -> \""@,
                process_dot_id(process),
                "\" [style=dashed, color=\"#bbb\"];\n"@,
            ],
        ),
        EdgeView::OpenedSocket { process, socket } => flat(
            seq![
                "  \""@,
                process_dot_id(process),
                "\" -> \""@,
                socket_dot_id(socket),
                "\" [color=\"#3a8a3a\"];\n"@,
            ],
        ),
        EdgeView::QueriedDomain { process, domain, count } => Seq::empty(),
    }
}

/// The lines of the header.
pub open spec fn header() -> Seq<Seq<char>> {
    seq![
        "digraph agentworld {\n"@,
        "  rankdir=LR;\n"@,
        "  graph [fontname=\"Helvetica\"];\n"@,
        "  node  [fontname=\"Helvetica\", fontsize=10];\n"@,
        "  edge  [fontname=\"Helvetica\", fontsize=9];\n"@,
    ]
}

/// The whole text: a header, a line for each node and each edge, and the end.
pub open spec fn dot_text(g: GraphView) -> Seq<char> {
    flat(
        (header() + Seq::new(g.processes.len(), |i: int| process_line(g.processes[i])) + Seq::new(
            g.apps.len(),
            |i: int| app_line(g.apps[i]),
        ) + Seq::new(g.sockets.len(), |i: int| socket_line(g.sockets[i])) + Seq::new(
            g.files.len(),
            |i: int| file_line(g.files[i]),
        ) + Seq::new(g.edges.len(), |i: int| edge_line(g.edges[i]))).push("}\n"@),
    )
}

fn uid_color(uid: Option<u32>) -> (r: &'static str)
    ensures
        r@ == color_of(uid),
{
    match uid {
        Some(u) => if u == 0 {
            "#ffd0d0"
        } else if u >= 501 && u <= 600 {
            "#d0e6ff"
        } else {
            "#e8e8e8"
        },
        None => "#f5f5f5",
    }
}

fn line_of_node(id: &str, shape: &str, color: &str, label: &str, tooltip: &str) -> (r: String)
    ensures
        r@ == node_line(id@, shape@, color@, label@, tooltip@),
{
    let mut t = Parts::new();
    t.add("  \"");
    t.add(id);
    t.add("\" [shape=");
    t.add(shape);
    t.add(", style=filled, fillcolor=\"");
    t.add(color);
    t.add("\", label=\"");
    t.add(label);
    t.add("\", tooltip=\"");
    t.add(tooltip);
    t.add("\"];\n");
    t.finish()
}

fn process_node_line(p: &ProcessNode) -> (r: String)
    ensures
        r@ == process_line(p.deep_view()),
{
    let name = match &p.comm {
        Some(s) => escape(s.as_str()),
        None => match &p.name {
            Some(s) => escape(s.as_str()),
            None => escape("?"),
        },
    };
    let mut label = Parts::new();
    label.add(name.as_str());
    label.add("\\npid ");
    label.add_number(p.id.pid as u64);
    let tooltip = match &p.exec_path {
        Some(s) => escape(s.as_str()),
        None => escape(""),
    };
    line_of_node(
        id_of_process(&p.id).as_str(),
        "box",
        uid_color(p.uid),
        label.finish().as_str(),
        tooltip.as_str(),
    )
}

fn app_node_line(a: &AppNode) -> (r: String)
    ensures
        r@ == app_line(a.deep_view()),
{
    let label = match &a.name {
        Some(s) => escape(s.as_str()),
        None => escape(a.id.as_str()),
    };
    let tooltip = match &a.exec_path {
        Some(s) => escape(s.as_str()),
        None => escape(a.id.as_str()),
    };
    line_of_node(
        id_of_app(a.id.as_str()).as_str(),
        "ellipse",
        "#fff4c2",
        label.as_str(),
        tooltip.as_str(),
    )
}

fn socket_node_line(s: &SocketNode) -> (r: String)
    ensures
        r@ == socket_line(s.deep_view()),
{
    let mut label = Parts::new();
    label.add(s.id.proto.as_str());
    label.add("\\n");
    label.add(s.id.foreign_addr.as_str());
    let mut tip = Parts::new();
    tip.add(s.id.proto.as_str());
    tip.add(" ");
    tip.add(s.id.local_addr.as_str());
    tip.add(" -> ");
    tip.add(s.id.foreign_addr.as_str());
    tip.add(" (");
    match &s.state {
        Some(t) => tip.add(t.as_str()),
        None => tip.add("?"),
    }
    tip.add(")");
    let color = if s.closed.is_some() {
        "#e6e6fa"
    } else {
        "#c6e6c6"
    };
    line_of_node(
        id_of_socket(&s.id).as_str(),
        "cylinder",
        color,
        escape(label.finish().as_str()).as_str(),
        escape(tip.finish().as_str()).as_str(),
    )
}

fn file_node_line(f: &FileNode) -> (r: String)
    ensures
        r@ == file_line(f.deep_view()),
{
    line_of_node(
        id_of_file(f.path.as_str()).as_str(),
        "note",
        "#fde2c2",
        escape(basename_of(f.path.as_str()).as_str()).as_str(),
        escape(f.path.as_str()).as_str(),
    )
}

fn line_of_edge(e: &Edge) -> (r: String)
    ensures
        r@ == edge_line(e.deep_view()),
{
    let mut t = Parts::new();
    match e {
        Edge::ParentOf { parent, child } => {
            t.add("  \"");
            t.add(id_of_process(parent).as_str());
            t.add("\" -> \"");
            t.add(id_of_process(child).as_str());
            t.add("\" [color=\"#444\"];\n");
        },
        Edge::FrontmostDuring { app, process, overlap: _ } => {
            t.add("  \"");
            t.add(id_of_app(app.as_str()).as_str());
            t.add("\" -> \"");
            t.add(id_of_process(process).as_str());
            t.add("\" [style=dashed, color=\"#bbb\"];\n");
        },
        Edge::OpenedSocket { process, socket } => {
            t.add("  \"");
            t.add(id_of_process(process).as_str());
            t.add("\" -> \"");
            t.add(id_of_socket(socket).as_str());
            t.add("\" [color=\"#3a8a3a\"];\n");
        },
        Edge::QueriedDomain { process: _, domain: _, count: _ } => {},
    }
    t.finish()
}

/// The graph as a GraphViz text.
pub fn to_dot(graph: &Graph) -> (r: String)
    ensures
        r@ == dot_text(graph.deep_view()),
{
    let ghost g = graph.deep_view();
    let ghost ps = Seq::new(g.processes.len(), |i: int| process_line(g.processes[i]));
    let ghost aps = Seq::new(g.apps.len(), |i: int| app_line(g.apps[i]));
    let ghost ss = Seq::new(g.sockets.len(), |i: int| socket_line(g.sockets[i]));
    let ghost fs = Seq::new(g.files.len(), |i: int| file_line(g.files[i]));
    let ghost es = Seq::new(g.edges.len(), |i: int| edge_line(g.edges[i]));
    let mut out = Parts::new();
    out.add("digraph agentworld {\n");
    out.add("  rankdir=LR;\n");
    out.add("  graph [fontname=\"Helvetica\"];\n");
    out.add("  node  [fontname=\"Helvetica\", fontsize=10];\n");
    out.add("  edge  [fontname=\"Helvetica\", fontsize=9];\n");
    let ghost base = header();
    let mut i: usize = 0;
    assert(out.parts() =~= base + ps.take(0));
    while i < graph.processes.len()
        invariant
            g == graph.deep_view(),
            ps == Seq::new(g.processes.len(), |i: int| process_line(g.processes[i])),
            i <= graph.processes@.len(),
            out.wf(),
            out.parts() == base + ps.take(i as int),
        decreases graph.processes@.len() - i,
    {
        out.add(process_node_line(&graph.processes[i]).as_str());
        assert((base + ps.take(i as int)).push(ps[i as int]) =~= base + ps.take(i + 1));
        i = i + 1;
    }
    let ghost base = header() + ps;
    assert(out.parts() =~= base + aps.take(0));
    i = 0;
    while i < graph.apps.len()
        invariant
            g == graph.deep_view(),
            aps == Seq::new(g.apps.len(), |i: int| app_line(g.apps[i])),
            i <= graph.apps@.len(),
            out.wf(),
            out.parts() == base + aps.take(i as int),
        decreases graph.apps@.len() - i,
    {
        out.add(app_node_line(&graph.apps[i]).as_str());
        assert((base + aps.take(i as int)).push(aps[i as int]) =~= base + aps.take(i + 1));
        i = i + 1;
    }
    let ghost base = header() + ps + aps;
    assert(out.parts() =~= base + ss.take(0));
    i = 0;
    while i < graph.sockets.len()
        invariant
            g == graph.deep_view(),
            ss == Seq::new(g.sockets.len(), |i: int| socket_line(g.sockets[i])),
            i <= graph.sockets@.len(),
            out.wf(),
            out.parts() == base + ss.take(i as int),
        decreases graph.sockets@.len() - i,
    {
        out.add(socket_node_line(&graph.sockets[i]).as_str());
        assert((base + ss.take(i as int)).push(ss[i as int]) =~= base + ss.take(i + 1));
        i = i + 1;
    }
    let ghost base = header() + ps + aps + ss;
    assert(out.parts() =~= base + fs.take(0));
    i = 0;
    while i < graph.files.len()
        invariant
            g == graph.deep_view(),
            fs == Seq::new(g.files.len(), |i: int| file_line(g.files[i])),
            i <= graph.files@.len(),
            out.wf(),
            out.parts() == base + fs.take(i as int),
        decreases graph.files@.len() - i,
    {
        out.add(file_node_line(&graph.files[i]).as_str());
        assert((base + fs.take(i as int)).push(fs[i as int]) =~= base + fs.take(i + 1));
        i = i + 1;
    }
    let ghost base = header() + ps + aps + ss + fs;
    assert(out.parts() =~= base + es.take(0));
    i = 0;
    while i < graph.edges.len()
        invariant
            g == graph.deep_view(),
            es == Seq::new(g.edges.len(), |i: int| edge_line(g.edges[i])),
            i <= graph.edges@.len(),
            out.wf(),
            out.parts() == base + es.take(i as int),
        decreases graph.edges@.len() - i,
    {
        out.add(line_of_edge(&graph.edges[i]).as_str());
        assert((base + es.take(i as int)).push(es[i as int]) =~= base + es.take(i + 1));
        i = i + 1;
    }
    assert(out.parts() =~= header() + ps + aps + ss + fs + es);
    out.add("}\n");
    out.finish()
}

/// How many backslashes stand directly before a position.
pub open spec fn slashes_before(s: Seq<char>, i: int) -> nat
    decreases i,
{
    if i <= 0 || i > s.len() || s[i - 1] != '\\' {
        0
    } else {
        1 + slashes_before(s, i - 1)
    }
}

/// What follows a position does not change what stands before it.
proof fn slashes_before_prefix(s: Seq<char>, t: Seq<char>, i: int)
    requires
        0 <= i <= s.len(),
    ensures
        slashes_before(s + t, i) == slashes_before(s, i),
    decreases i,
{
    if i > 0 {
        assert((s + t)[i - 1] == s[i - 1]);
        slashes_before_prefix(s, t, i - 1);
    }
}

/// An escaped text ends in an even number of backslashes.
proof fn escaped_ends_even(s: Seq<char>)
    ensures
        slashes_before(escaped(s), escaped(s).len() as int) % 2 == 0,
    decreases s.len(),
{
    if s.len() > 0 {
        let t = escaped(s.drop_last());
        let e = escaped_char(s.last());
        let all = escaped(s);
        let n = all.len() as int;
        escaped_ends_even(s.drop_last());
        assert(all[n - 1] == e[e.len() - 1]);
        if s.last() == '\\' {
            slashes_before_prefix(t, e, t.len() as int);
            assert(all[n - 2] == '\\');
            assert(slashes_before(all, n - 1) == 1 + slashes_before(all, n - 2));
            assert(slashes_before(all, n) == 1 + slashes_before(all, n - 1));
        }
    }
}

/// A quoted text is never ended early: before a quote in an escaped text stands
/// an odd number of backslashes.
pub proof fn escaped_has_no_bare_quote(s: Seq<char>, i: int)
    requires
        0 <= i < escaped(s).len(),
        escaped(s)[i] == '"',
    ensures
        slashes_before(escaped(s), i) % 2 == 1,
    decreases s.len(),
{
    let t = escaped(s.drop_last());
    let e = escaped_char(s.last());
    if i < t.len() {
        escaped_has_no_bare_quote(s.drop_last(), i);
        slashes_before_prefix(t, e, i);
    } else {
        escaped_ends_even(s.drop_last());
        assert(e[i - t.len()] == '"');
        assert(i == t.len() + 1);
        assert(escaped(s)[i - 1] == '\\');
        slashes_before_prefix(t, e, i - 1);
    }
}

/// An escaped text stands on one line.
pub proof fn escaped_has_no_line_end(s: Seq<char>, i: int)
    requires
        0 <= i < escaped(s).len(),
    ensures
        escaped(s)[i] != '\n',
    decreases s.len(),
{
    let t = escaped(s.drop_last());
    if i < t.len() {
        escaped_has_no_line_end(s.drop_last(), i);
    }
}

/// A text without quotes, backslashes and line ends is its own escaped text.
pub proof fn plain_text_stays(s: Seq<char>)
    requires
        forall|i: int| 0 <= i < s.len() ==> (#[trigger] s[i]) != '"' && s[i] != '\\' && s[i] != '\n',
    ensures
        escaped(s) == s,
    decreases s.len(),
{
    if s.len() > 0 {
        assert forall|i: int| 0 <= i < s.drop_last().len() implies (#[trigger] s.drop_last()[i])
            != '"' && s.drop_last()[i] != '\\' && s.drop_last()[i] != '\n' by {
            assert(s.drop_last()[i] == s[i]);
        }
        plain_text_stays(s.drop_last());
        assert(s[s.len() - 1] == s.last());
        assert(s.drop_last() + seq![s.last()] =~= s);
    } else {
        assert(escaped(s) =~= s);
    }
}

/// Two texts escaped one after the other are the two put together, escaped.
pub proof fn escaped_joins(a: Seq<char>, b: Seq<char>)
    ensures
        escaped(a + b) == escaped(a) + escaped(b),
    decreases b.len(),
{
    if b.len() == 0 {
        assert(a + b =~= a);
        assert(escaped(a) + escaped(b) =~= escaped(a));
    } else {
        escaped_joins(a, b.drop_last());
        assert((a + b).drop_last() =~= a + b.drop_last());
        assert(escaped(a + b) =~= escaped(a) + escaped(b));
    }
}

/// The first character of a text, and the rest of it, escaped.
proof fn escaped_first(s: Seq<char>)
    requires
        s.len() > 0,
    ensures
        escaped(s) == escaped_char(s[0]) + escaped(s.drop_first()),
{
    let one = seq![s[0]];
    escaped_joins(one, s.drop_first());
    assert(one + s.drop_first() =~= s);
    assert(escaped(one.drop_last()) =~= Seq::<char>::empty());
    assert(escaped(one) =~= escaped_char(s[0]));
}

/// Different texts are different escaped.
pub proof fn escaped_tells_apart(a: Seq<char>, b: Seq<char>)
    requires
        escaped(a) == escaped(b),
    ensures
        a == b,
    decreases a.len(),
{
    let all = escaped(a);
    if a.len() > 0 {
        escaped_first(a);
        assert(all[0] == escaped_char(a[0])[0]);
    }
    if b.len() > 0 {
        escaped_first(b);
        assert(all[0] == escaped_char(b[0])[0]);
    }
    if a.len() > 0 && b.len() > 0 {
        if all[0] == '\\' {
            assert(all[1] == escaped_char(a[0])[1]);
            assert(all[1] == escaped_char(b[0])[1]);
        }
        assert(a[0] == b[0]);
        let n = escaped_char(a[0]).len() as int;
        assert(escaped(a.drop_first()) =~= all.skip(n));
        assert(escaped(b.drop_first()) =~= all.skip(n));
        escaped_tells_apart(a.drop_first(), b.drop_first());
        assert(a =~= seq![a[0]] + a.drop_first());
        assert(b =~= seq![b[0]] + b.drop_first());
    } else {
        assert(a =~= b);
    }
}

/// Identifiers hold nothing but plain characters.
pub proof fn slug_is_plain(s: Seq<char>, i: int)
    requires
        0 <= i < s.len(),
    ensures
        slug(s).len() == s.len(),
        is_plain(slug(s)[i]),
{
}

} // verus!
