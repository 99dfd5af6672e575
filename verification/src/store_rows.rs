//! Nodes and edges as rows of the store's tables, and back.

use vstd::prelude::*;
use vstd::string::*;

use crate::events::{
    opt_timestamp_json, opt_timestamp_to_json, timestamp_from_json, timestamp_json, timestamp_of,
    timestamp_to_json,
};
use crate::graph::{
    AppNode, AppNodeView, DomainNode, DomainNodeView, FileNode, FileNodeView, Interval,
    ProcessNode, ProcessNodeView, SocketId, SocketIdView, SocketNode, SocketNodeView,
};
use crate::json::{int_of_u32, int_of_u64, opt_int, opt_str, put, str_array, Json, JsonView};
use crate::json_record::{record, record_of};
use crate::observation::Timestamp;
use crate::store::{
    column, column_ts, from_column, process_id_from_string, process_id_of, process_id_text,
    process_id_to_string, socket_id_text, socket_id_to_string, to_column, NodeKind, NodeRow,
    NodeRowView,
};

verus! {

// ---------- values in attributes --------------------------------------------

/// An interval as a JSON object.
pub open spec fn interval_json(i: Interval) -> JsonView {
    JsonView::Object(seq![("from"@, timestamp_json(i.from)), ("to"@, opt_timestamp_json(i.to))])
}

/// The fields of an interval.
pub open spec fn interval_names() -> Seq<Seq<char>> {
    seq!["from"@, "to"@]
}

/// The interval of a JSON object, or of a list of its start and its end.
pub open spec fn interval_of(j: JsonView) -> Option<Interval> {
    interval_in(record(j, interval_names(), 2))
}

/// The interval of a JSON object: its start must be a timestamp, its end may
/// be missing or null.
pub open spec fn interval_in(j: JsonView) -> Option<Interval> {
    match j.get("from"@) {
        Some(f) => match timestamp_of(f) {
            Some(from) => match j.get("to"@) {
                None | Some(JsonView::Null) => Some(Interval { from, to: None }),
                Some(t) => match timestamp_of(t) {
                    Some(to) => Some(Interval { from, to: Some(to) }),
                    None => None,
                },
            },
            None => None,
        },
        None => None,
    }
}

/// A list of intervals as a JSON array.
pub open spec fn intervals_json(v: Seq<Interval>) -> JsonView {
    JsonView::Array(Seq::new(v.len(), |i: int| interval_json(v[i])))
}

/// The intervals of a JSON array, if every element is one; else none at all.
pub open spec fn intervals_of(j: Option<JsonView>) -> Seq<Interval> {
    match j {
        Some(JsonView::Array(v)) => if forall|i: int|
            0 <= i < v.len() ==> interval_of(#[trigger] v[i]) is Some {
            Seq::new(v.len(), |i: int| interval_of(v[i])->0)
        } else {
            Seq::empty()
        },
        _ => Seq::empty(),
    }
}

/// The strings of a JSON array, if every element is one; else none at all.
pub open spec fn strings_of(j: Option<JsonView>) -> Seq<Seq<char>> {
    match j {
        Some(JsonView::Array(v)) => if forall|i: int|
            0 <= i < v.len() ==> (#[trigger] v[i]).as_str() is Some {
            Seq::new(v.len(), |i: int| v[i].as_str()->0)
        } else {
            Seq::empty()
        },
        _ => Seq::empty(),
    }
}

/// A missing or null value counts as no timestamp, as does anything that is
/// not one.
pub open spec fn opt_timestamp_of(j: Option<JsonView>) -> Option<Timestamp> {
    match j {
        Some(v) => timestamp_of(v),
        None => None,
    }
}

/// The text, or `?` where there is none.
pub open spec fn or_unknown(s: Option<Seq<char>>) -> Seq<char> {
    match s {
        Some(t) => t,
        None => "?"@,
    }
}

/// An interval as a JSON object.
pub(crate) fn interval_to_json(i: &Interval) -> (r: Json)
    ensures
        r@ == interval_json(*i),
{
    let mut f: Vec<(String, Json)> = Vec::new();
    put(&mut f, "from", timestamp_to_json(i.from));
    put(&mut f, "to", opt_timestamp_to_json(i.to));
    assert(f.deep_view() =~= interval_json(*i)->Object_0);
    Json::object(f)
}

/// The interval of a JSON object, or of a list of its start and its end.
pub(crate) fn interval_from_json(j: &Json) -> (r: Option<Interval>)
    ensures
        r == interval_of(j@),
{
    match j {
        Json::Array(v) => {
            let list = ["from", "to"];
            let names: &[&str] = &list;
            assert(names.deep_view() =~= interval_names());
            assert(j@->Array_0 =~= v.deep_view());
            interval_from_fields(&record_of(v, names, 2))
        },
        _ => interval_from_fields(j),
    }
}

fn interval_from_fields(j: &Json) -> (r: Option<Interval>)
    ensures
        r == interval_in(j@),
{
    match j.get("from") {
        Some(f) => match timestamp_from_json(f) {
            Some(from) => match j.get("to") {
                None => Some(Interval { from, to: None }),
                Some(t) => {
                    if t.is_null() {
                        Some(Interval { from, to: None })
                    } else {
                        match timestamp_from_json(t) {
                            Some(to) => Some(Interval { from, to: Some(to) }),
                            None => None,
                        }
                    }
                },
            },
            None => None,
        },
        None => None,
    }
}

/// A list of intervals as a JSON array.
fn intervals_to_json(v: &Vec<Interval>) -> (r: Json)
    ensures
        r@ == intervals_json(v@),
{
    let mut out: Vec<Json> = Vec::new();
    let mut i: usize = 0;
    while i < v.len()
        invariant
            i <= v@.len(),
            out@.len() == i,
            forall|k: int| 0 <= k < i ==> (#[trigger] out@[k])@ == interval_json(v@[k]),
        decreases v@.len() - i,
    {
        out.push(interval_to_json(&v[i]));
        i = i + 1;
    }
    assert(out.deep_view() =~= intervals_json(v@)->Array_0);
    Json::array(out)
}

/// The intervals of a JSON array.
fn intervals_from_json(j: Option<&Json>) -> (r: Vec<Interval>)
    ensures
        r@ == intervals_of(j.deep_view()),
{
    let mut out: Vec<Interval> = Vec::new();
    let v = match j {
        Some(j) => match j.as_array() {
            Some(v) => v,
            None => return out,
        },
        None => return out,
    };
    let ghost all = v.deep_view();
    let mut i: usize = 0;
    while i < v.len()
        invariant
            j.deep_view() == Some(JsonView::Array(all)),
            all == v.deep_view(),
            i <= v@.len(),
            out@.len() == i,
            forall|k: int|
                0 <= k < i ==> interval_of(#[trigger] all[k]) == Some(out@[k]),
        decreases v@.len() - i,
    {
        match interval_from_json(&v[i]) {
            Some(x) => {
                out.push(x);
            },
            None => {
                assert(interval_of(all[i as int]) is None);
                return Vec::new();
            },
        }
        i = i + 1;
    }
    assert(out@ =~= intervals_of(j.deep_view()));
    out
}

/// The strings of a JSON array.
pub(crate) fn strings_from_json(j: Option<&Json>) -> (r: Vec<String>)
    ensures
        r.deep_view() == strings_of(j.deep_view()),
{
    let mut out: Vec<String> = Vec::new();
    let v = match j {
        Some(j) => match j.as_array() {
            Some(v) => v,
            None => {
                assert(out.deep_view() =~= Seq::empty());
                return out;
            },
        },
        None => {
            assert(out.deep_view() =~= Seq::empty());
            return out;
        },
    };
    let ghost all = v.deep_view();
    let mut i: usize = 0;
    while i < v.len()
        invariant
            j.deep_view() == Some(JsonView::Array(all)),
            all == v.deep_view(),
            i <= v@.len(),
            out@.len() == i,
            forall|k: int| 0 <= k < i ==> (#[trigger] all[k]).as_str() == Some(out@[k]@),
        decreases v@.len() - i,
    {
        match v[i].as_str() {
            Some(x) => {
                out.push(x.to_owned());
            },
            None => {
                assert(all[i as int].as_str() is None);
                let none: Vec<String> = Vec::new();
                assert(none.deep_view() =~= Seq::empty());
                return none;
            },
        }
        i = i + 1;
    }
    assert(out.deep_view() =~= strings_of(j.deep_view()));
    out
}

/// The text under a key, or `?`.
fn known_or(j: &Json, key: &str) -> (r: String)
    ensures
        r@ == or_unknown(j@.str_at(key@)),
{
    match j.string_at(key) {
        Some(s) => s,
        None => "?".to_owned(),
    }
}

// ---------- nodes to rows ----------------------------------------------------

/// The attributes of a process.
pub open spec fn process_attrs(p: ProcessNodeView) -> JsonView {
    JsonView::Object(
        seq![
            ("comm"@, opt_str(p.comm)),
            ("name"@, opt_str(p.name)),
            ("exec_path"@, opt_str(p.exec_path)),
            ("ppid"@, opt_int(int_of_u32(p.ppid))),
            ("uid"@, opt_int(int_of_u32(p.uid))),
            ("start_unix_secs"@, JsonView::Int(p.id.start_unix_secs as int)),
            ("death"@, opt_timestamp_json(p.death)),
        ],
    )
}

/// A process as a row: seen from its birth to its death or, still alive, at
/// its birth.
pub open spec fn process_row(p: ProcessNodeView) -> NodeRowView {
    NodeRowView {
        kind: NodeKind::Process,
        id: process_id_text(p.id),
        attrs: process_attrs(p),
        first_seen: column(p.birth),
        last_seen: column(
            match p.death {
                Some(d) => d,
                None => p.birth,
            },
        ),
    }
}

/// The earliest start of the intervals.
pub open spec fn earliest_from(v: Seq<Interval>) -> Option<Timestamp>
    decreases v.len(),
{
    if v.len() == 0 {
        None
    } else {
        match earliest_from(v.drop_last()) {
            Some(t) => if t.le(v.last().from) {
                Some(t)
            } else {
                Some(v.last().from)
            },
            None => Some(v.last().from),
        }
    }
}

/// The latest end of the intervals that have one.
pub open spec fn latest_to(v: Seq<Interval>) -> Option<Timestamp>
    decreases v.len(),
{
    if v.len() == 0 {
        None
    } else {
        match (latest_to(v.drop_last()), v.last().to) {
            (Some(t), Some(u)) => if u.le(t) {
                Some(t)
            } else {
                Some(u)
            },
            (None, Some(u)) => Some(u),
            (t, None) => t,
        }
    }
}

/// When an application was first seen: its earliest interval's start, or zero.
pub open spec fn app_first_seen(a: AppNodeView) -> Timestamp {
    match earliest_from(a.intervals) {
        Some(t) => t,
        None => Timestamp { mono_ns: 0, wall_anchor_ns: 0 },
    }
}

/// When an application was last seen: its latest interval's end or, without
/// one, when it was first seen.
pub open spec fn app_last_seen(a: AppNodeView) -> Timestamp {
    match latest_to(a.intervals) {
        Some(t) => t,
        None => app_first_seen(a),
    }
}

/// The attributes of an application.
pub open spec fn app_attrs(a: AppNodeView) -> JsonView {
    JsonView::Object(
        seq![
            ("name"@, opt_str(a.name)),
            ("exec_path"@, opt_str(a.exec_path)),
            ("intervals"@, intervals_json(a.intervals)),
        ],
    )
}

/// An application as a row.
pub open spec fn app_row(a: AppNodeView) -> NodeRowView {
    NodeRowView {
        kind: NodeKind::App,
        id: a.id,
        attrs: app_attrs(a),
        first_seen: column(app_first_seen(a)),
        last_seen: column(app_last_seen(a)),
    }
}

/// The attributes of a connection.
pub open spec fn socket_attrs(s: SocketNodeView) -> JsonView {
    JsonView::Object(
        seq![
            ("state"@, opt_str(s.state)),
            ("process_name"@, opt_str(s.process_name)),
            ("pid_at_open"@, opt_int(int_of_u32(s.pid_at_open))),
            ("rxbytes_last"@, opt_int(int_of_u64(s.rxbytes_last))),
            ("txbytes_last"@, opt_int(int_of_u64(s.txbytes_last))),
            ("proto"@, JsonView::Str(s.id.proto)),
            ("local_addr"@, JsonView::Str(s.id.local_addr)),
            ("foreign_addr"@, JsonView::Str(s.id.foreign_addr)),
        ],
    )
}

/// A connection as a row: seen from its opening to its close or, still open,
/// at its opening.
pub open spec fn socket_row(s: SocketNodeView) -> NodeRowView {
    NodeRowView {
        kind: NodeKind::Socket,
        id: socket_id_text(s.id),
        attrs: socket_attrs(s),
        first_seen: column(s.opened),
        last_seen: column(
            match s.closed {
                Some(c) => c,
                None => s.opened,
            },
        ),
    }
}

/// The attributes of a file.
pub open spec fn file_attrs(f: FileNodeView) -> JsonView {
    JsonView::Object(
        seq![
            ("flags"@, str_array(f.flags)),
            ("touch_count"@, JsonView::Int(f.touch_count as int)),
        ],
    )
}

/// A file as a row.
pub open spec fn file_row(f: FileNodeView) -> NodeRowView {
    NodeRowView {
        kind: NodeKind::File,
        id: f.path,
        attrs: file_attrs(f),
        first_seen: column(f.first_seen),
        last_seen: column(f.last_seen),
    }
}

/// The attributes of a name.
pub open spec fn domain_attrs(d: DomainNodeView) -> JsonView {
    JsonView::Object(
        seq![
            ("qtypes"@, str_array(d.qtypes)),
            ("masked"@, JsonView::Bool(d.masked)),
            ("query_count"@, JsonView::Int(d.query_count as int)),
        ],
    )
}

/// A name as a row.
pub open spec fn domain_row(d: DomainNodeView) -> NodeRowView {
    NodeRowView {
        kind: NodeKind::Domain,
        id: d.name,
        attrs: domain_attrs(d),
        first_seen: column(d.first_seen),
        last_seen: column(d.last_seen),
    }
}

/// A process as a row.
pub(crate) fn row_of_process(p: &ProcessNode) -> (r: NodeRow)
    ensures
        r.deep_view() == process_row(p.deep_view()),
{
    let mut f: Vec<(String, Json)> = Vec::new();
    put(&mut f, "comm", Json::opt_text(&p.comm));
    put(&mut f, "name", Json::opt_text(&p.name));
    put(&mut f, "exec_path", Json::opt_text(&p.exec_path));
    put(&mut f, "ppid", Json::opt_u32(p.ppid));
    put(&mut f, "uid", Json::opt_u32(p.uid));
    put(&mut f, "start_unix_secs", Json::U64(p.id.start_unix_secs));
    put(&mut f, "death", opt_timestamp_to_json(p.death));
    assert(f.deep_view() =~= process_attrs(p.deep_view())->Object_0);
    NodeRow {
        kind: NodeKind::Process,
        id: process_id_to_string(&p.id),
        attrs: Json::object(f),
        first_seen: to_column(p.birth),
        last_seen: to_column(
            match p.death {
                Some(d) => d,
                None => p.birth,
            },
        ),
    }
}

/// The earliest start of the intervals.
fn first_start(v: &Vec<Interval>) -> (r: Option<Timestamp>)
    ensures
        r == earliest_from(v@),
{
    let mut best: Option<Timestamp> = None;
    let mut i: usize = 0;
    while i < v.len()
        invariant
            i <= v@.len(),
            best == earliest_from(v@.take(i as int)),
        decreases v@.len() - i,
    {
        let t: Timestamp = v[i].from;
        best = match best {
            Some(b) => if b.at_most(t) {
                Some(b)
            } else {
                Some(t)
            },
            None => Some(t),
        };
        assert(v@.take(i + 1).drop_last() =~= v@.take(i as int));
        i = i + 1;
    }
    assert(v@.take(v@.len() as int) =~= v@);
    best
}

/// The latest end of the intervals that have one.
fn last_end(v: &Vec<Interval>) -> (r: Option<Timestamp>)
    ensures
        r == latest_to(v@),
{
    let mut best: Option<Timestamp> = None;
    let mut i: usize = 0;
    while i < v.len()
        invariant
            i <= v@.len(),
            best == latest_to(v@.take(i as int)),
        decreases v@.len() - i,
    {
        best = match (best, v[i].to) {
            (Some(b), Some(t)) => if t.at_most(b) {
                Some(b)
            } else {
                Some(t)
            },
            (None, Some(t)) => Some(t),
            (b, None) => b,
        };
        assert(v@.take(i + 1).drop_last() =~= v@.take(i as int));
        i = i + 1;
    }
    assert(v@.take(v@.len() as int) =~= v@);
    best
}

/// An application as a row.
pub(crate) fn row_of_app(a: &AppNode) -> (r: NodeRow)
    ensures
        r.deep_view() == app_row(a.deep_view()),
{
    let mut f: Vec<(String, Json)> = Vec::new();
    put(&mut f, "name", Json::opt_text(&a.name));
    put(&mut f, "exec_path", Json::opt_text(&a.exec_path));
    put(&mut f, "intervals", intervals_to_json(&a.intervals));
    assert(f.deep_view() =~= app_attrs(a.deep_view())->Object_0);
    let first: Timestamp = match first_start(&a.intervals) {
        Some(t) => t,
        None => Timestamp { mono_ns: 0, wall_anchor_ns: 0 },
    };
    let last: Timestamp = match last_end(&a.intervals) {
        Some(t) => t,
        None => first,
    };
    NodeRow {
        kind: NodeKind::App,
        id: a.id.clone(),
        attrs: Json::object(f),
        first_seen: to_column(first),
        last_seen: to_column(last),
    }
}

/// A connection as a row.
pub(crate) fn row_of_socket(s: &SocketNode) -> (r: NodeRow)
    ensures
        r.deep_view() == socket_row(s.deep_view()),
{
    let mut f: Vec<(String, Json)> = Vec::new();
    put(&mut f, "state", Json::opt_text(&s.state));
    put(&mut f, "process_name", Json::opt_text(&s.process_name));
    put(&mut f, "pid_at_open", Json::opt_u32(s.pid_at_open));
    put(&mut f, "rxbytes_last", Json::opt_u64(s.rxbytes_last));
    put(&mut f, "txbytes_last", Json::opt_u64(s.txbytes_last));
    put(&mut f, "proto", Json::text(s.id.proto.as_str()));
    put(&mut f, "local_addr", Json::text(s.id.local_addr.as_str()));
    put(&mut f, "foreign_addr", Json::text(s.id.foreign_addr.as_str()));
    assert(f.deep_view() =~= socket_attrs(s.deep_view())->Object_0);
    NodeRow {
        kind: NodeKind::Socket,
        id: socket_id_to_string(&s.id),
        attrs: Json::object(f),
        first_seen: to_column(s.opened),
        last_seen: to_column(
            match s.closed {
                Some(c) => c,
                None => s.opened,
            },
        ),
    }
}

/// A file as a row.
pub(crate) fn row_of_file(n: &FileNode) -> (r: NodeRow)
    ensures
        r.deep_view() == file_row(n.deep_view()),
{
    let mut f: Vec<(String, Json)> = Vec::new();
    put(&mut f, "flags", Json::text_array(&n.flags));
    put(&mut f, "touch_count", Json::U64(n.touch_count));
    assert(f.deep_view() =~= file_attrs(n.deep_view())->Object_0);
    NodeRow {
        kind: NodeKind::File,
        id: n.path.clone(),
        attrs: Json::object(f),
        first_seen: to_column(n.first_seen),
        last_seen: to_column(n.last_seen),
    }
}

/// A name as a row.
pub(crate) fn row_of_domain(d: &DomainNode) -> (r: NodeRow)
    ensures
        r.deep_view() == domain_row(d.deep_view()),
{
    let mut f: Vec<(String, Json)> = Vec::new();
    put(&mut f, "qtypes", Json::text_array(&d.qtypes));
    put(&mut f, "masked", Json::Bool(d.masked));
    put(&mut f, "query_count", Json::U64(d.query_count));
    assert(f.deep_view() =~= domain_attrs(d.deep_view())->Object_0);
    NodeRow {
        kind: NodeKind::Domain,
        id: d.name.clone(),
        attrs: Json::object(f),
        first_seen: to_column(d.first_seen),
        last_seen: to_column(d.last_seen),
    }
}

// ---------- rows to nodes ----------------------------------------------------

/// The process that a row describes.
pub open spec fn process_of_row(r: NodeRowView) -> ProcessNodeView {
    ProcessNodeView {
        id: process_id_of(r.id),
        comm: r.attrs.str_at("comm"@),
        name: r.attrs.str_at("name"@),
        exec_path: r.attrs.str_at("exec_path"@),
        ppid: r.attrs.u32_at("ppid"@),
        uid: r.attrs.u32_at("uid"@),
        birth: column_ts(r.first_seen),
        death: opt_timestamp_of(r.attrs.get("death"@)),
    }
}

/// The application that a row describes.
pub open spec fn app_of_row(r: NodeRowView) -> AppNodeView {
    AppNodeView {
        id: r.id,
        name: r.attrs.str_at("name"@),
        exec_path: r.attrs.str_at("exec_path"@),
        intervals: intervals_of(r.attrs.get("intervals"@)),
    }
}

/// The connection that a row describes: closed if it was seen past its start.
pub open spec fn socket_of_row(r: NodeRowView) -> SocketNodeView {
    SocketNodeView {
        id: SocketIdView {
            proto: or_unknown(r.attrs.str_at("proto"@)),
            local_addr: or_unknown(r.attrs.str_at("local_addr"@)),
            foreign_addr: or_unknown(r.attrs.str_at("foreign_addr"@)),
        },
        state: r.attrs.str_at("state"@),
        process_name: r.attrs.str_at("process_name"@),
        pid_at_open: r.attrs.u32_at("pid_at_open"@),
        opened: column_ts(r.first_seen),
        closed: if r.last_seen > r.first_seen {
            Some(column_ts(r.last_seen))
        } else {
            None
        },
        rxbytes_last: r.attrs.u64_at("rxbytes_last"@),
        txbytes_last: r.attrs.u64_at("txbytes_last"@),
    }
}

/// A count, or zero.
pub open spec fn or_zero(n: Option<u64>) -> u64 {
    match n {
        Some(i) => i,
        None => 0,
    }
}

/// The file that a row describes.
pub open spec fn file_of_row(r: NodeRowView) -> FileNodeView {
    FileNodeView {
        path: r.id,
        flags: strings_of(r.attrs.get("flags"@)),
        first_seen: column_ts(r.first_seen),
        last_seen: column_ts(r.last_seen),
        touch_count: or_zero(r.attrs.u64_at("touch_count"@)),
    }
}

/// The name that a row describes.
pub open spec fn domain_of_row(r: NodeRowView) -> DomainNodeView {
    DomainNodeView {
        name: r.id,
        qtypes: strings_of(r.attrs.get("qtypes"@)),
        masked: r.attrs.bool_at("masked"@) == Some(true),
        first_seen: column_ts(r.first_seen),
        last_seen: column_ts(r.last_seen),
        query_count: or_zero(r.attrs.u64_at("query_count"@)),
    }
}

/// The process that a row describes.
pub(crate) fn process_from_row(r: &NodeRow) -> (p: ProcessNode)
    ensures
        p.deep_view() == process_of_row(r.deep_view()),
{
    let death: Option<Timestamp> = match r.attrs.get("death") {
        Some(d) => timestamp_from_json(d),
        None => None,
    };
    ProcessNode {
        id: process_id_from_string(r.id.as_str()),
        comm: r.attrs.string_at("comm"),
        name: r.attrs.string_at("name"),
        exec_path: r.attrs.string_at("exec_path"),
        ppid: r.attrs.u32_at("ppid"),
        uid: r.attrs.u32_at("uid"),
        birth: from_column(r.first_seen),
        death,
    }
}

/// The application that a row describes.
pub(crate) fn app_from_row(r: &NodeRow) -> (a: AppNode)
    ensures
        a.deep_view() == app_of_row(r.deep_view()),
{
    AppNode {
        id: r.id.clone(),
        name: r.attrs.string_at("name"),
        exec_path: r.attrs.string_at("exec_path"),
        intervals: intervals_from_json(r.attrs.get("intervals")),
    }
}

/// The connection that a row describes.
pub(crate) fn socket_from_row(r: &NodeRow) -> (s: SocketNode)
    ensures
        s.deep_view() == socket_of_row(r.deep_view()),
{
    SocketNode {
        id: SocketId {
            proto: known_or(&r.attrs, "proto"),
            local_addr: known_or(&r.attrs, "local_addr"),
            foreign_addr: known_or(&r.attrs, "foreign_addr"),
        },
        state: r.attrs.string_at("state"),
        process_name: r.attrs.string_at("process_name"),
        pid_at_open: r.attrs.u32_at("pid_at_open"),
        opened: from_column(r.first_seen),
        closed: if r.last_seen > r.first_seen {
            Some(from_column(r.last_seen))
        } else {
            None
        },
        rxbytes_last: r.attrs.u64_at("rxbytes_last"),
        txbytes_last: r.attrs.u64_at("txbytes_last"),
    }
}

/// The file that a row describes.
pub(crate) fn file_from_row(r: &NodeRow) -> (f: FileNode)
    ensures
        f.deep_view() == file_of_row(r.deep_view()),
{
    FileNode {
        path: r.id.clone(),
        flags: strings_from_json(r.attrs.get("flags")),
        first_seen: from_column(r.first_seen),
        last_seen: from_column(r.last_seen),
        touch_count: match r.attrs.u64_at("touch_count") {
            Some(n) => n,
            None => 0,
        },
    }
}

/// The name that a row describes.
pub(crate) fn domain_from_row(r: &NodeRow) -> (d: DomainNode)
    ensures
        d.deep_view() == domain_of_row(r.deep_view()),
{
    DomainNode {
        name: r.id.clone(),
        qtypes: strings_from_json(r.attrs.get("qtypes")),
        masked: match r.attrs.bool_at("masked") {
            Some(b) => b,
            None => false,
        },
        first_seen: from_column(r.first_seen),
        last_seen: from_column(r.last_seen),
        query_count: match r.attrs.u64_at("query_count") {
            Some(n) => n,
            None => 0,
        },
    }
}

} // verus!
