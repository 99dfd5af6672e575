//! What holds of the stages that turn observations into events: focus, name
//! lookups and changes of files, and of what the index adds to an event.

use vstd::prelude::*;

use crate::dns_lifecycle::query_event;
use crate::events::{timestamp_json_round_trip, timestamp_of, EventKind, EventView};
use crate::fsevents_coalesce::{
    changed, is_path, path_key, texts_at, texts_in, union_texts, with_report, FileStage,
    PathRecordView,
};
use crate::json::{entry, str_array, JsonView};
use crate::lifecycle_laws::field_is_read;
use crate::observation::{ObservationView, Source, Timestamp};
use crate::process_table::{
    died_stays_queryable, entry_key, followed, has_key, has_pid, inserted_resolves,
    AncestorEntryView, ProcKey, ProcessEntryView, TableView,
};
use crate::reconstructor::{
    enriched_event, entry_of_birth, field_if, is_field, process_context, table_after, with_field,
    PipelineView,
};
use crate::seqs::{first_where, first_where_is_first};
use crate::window_lifecycle::focus_event;

verus! {

// ---------- focus ------------------------------------------------------------------

proof fn focus_names_differ()
    ensures
        "from_bundle_id"@.len() == 14,
        "from_name"@.len() == 9,
        "to_bundle_id"@.len() == 12,
        "to_name"@.len() == 7,
        "to_exec_path"@.len() == 12,
        "to_bundle_id"@[3] == 'b',
        "to_exec_path"@[3] == 'e',
{
    reveal_strlit("from_bundle_id");
    reveal_strlit("from_name");
    reveal_strlit("to_bundle_id");
    reveal_strlit("to_name");
    reveal_strlit("to_exec_path");
}

/// The text that a value under a key of a payload has under another.
pub open spec fn inner_text(p: JsonView, outer: Seq<char>, inner: Seq<char>) -> Option<Seq<char>> {
    match p.get(outer) {
        Some(v) => v.str_at(inner),
        None => None,
    }
}

/// Whether an observation says that the application in front stayed the same:
/// both bundle ids are there, and are one.
pub open spec fn stays_in_front(p: JsonView) -> bool {
    inner_text(p, "from"@, "bundle_id"@) is Some && inner_text(p, "from"@, "bundle_id"@)
        == inner_text(p, "to"@, "bundle_id"@)
}

/// An observation brings a change of focus exactly if something comes to the
/// front and it is not what was there. The event tells what came to the front
/// and what was there.
pub proof fn focus_changes_are_told(obs: ObservationView)
    ensures
        focus_event(obs) is Some <==> (obs.payload.get("to"@) matches Some(t) && t
            != JsonView::Null) && !stays_in_front(obs.payload),
        focus_event(obs) matches Some(e) ==> {
            let p = obs.payload;
            &&& e.kind == EventKind::AppFocus
            &&& e.timestamp == obs.timestamp
            &&& e.pid == match p.get("to"@)->0.u32_at("pid"@) {
                Some(pid) => Some(pid),
                None => obs.pid,
            }
            &&& e.payload.str_at("to_bundle_id"@) == inner_text(p, "to"@, "bundle_id"@)
            &&& e.payload.str_at("to_name"@) == inner_text(p, "to"@, "name"@)
            &&& e.payload.str_at("to_exec_path"@) == inner_text(p, "to"@, "exec_path"@)
            &&& e.payload.str_at("from_bundle_id"@) == inner_text(p, "from"@, "bundle_id"@)
            &&& e.payload.str_at("from_name"@) == inner_text(p, "from"@, "name"@)
        },
{
    focus_names_differ();
    match focus_event(obs) {
        Some(e) => {
            let f = e.payload->Object_0;
            field_is_read(f, 0);
            field_is_read(f, 1);
            field_is_read(f, 2);
            field_is_read(f, 3);
            field_is_read(f, 4);
        },
        None => {},
    }
}

// ---------- name lookups -----------------------------------------------------------

/// An observation of a query brings one event, which tells the query; any other
/// brings none.
pub proof fn queries_are_told(obs: ObservationView)
    ensures
        query_event(obs) is Some <==> obs.payload.str_at("kind"@) == Some("dns_query"@),
        query_event(obs) matches Some(e) ==> {
            let p = obs.payload;
            &&& e.kind == EventKind::DnsQuery
            &&& e.timestamp == obs.timestamp
            &&& e.pid == obs.pid
            &&& e.payload.str_at("qname"@) == p.str_at("qname"@)
            &&& e.payload.str_at("qtype"@) == p.str_at("qtype"@)
            &&& e.payload.str_at("name_hash"@) == p.str_at("name_hash"@)
            &&& e.payload.bool_at("masked"@) == Some(p.bool_at("masked"@) == Some(true))
            &&& e.payload.str_at("client_process_name"@) == p.str_at("client_process_name"@)
            &&& match e.payload.get("interface_index"@) {
                Some(JsonView::Int(n)) => p.get("interface_index"@) == Some(JsonView::Int(n)),
                Some(JsonView::Null) => !(p.get("interface_index"@) matches Some(JsonView::Int(n))
                    && i64::MIN <= n <= i64::MAX),
                _ => false,
            }
        },
{
    reveal_strlit("qname");
    reveal_strlit("qtype");
    reveal_strlit("name_hash");
    reveal_strlit("masked");
    reveal_strlit("interface_index");
    reveal_strlit("client_process_name");
    assert("qname"@.len() == 5 && "qtype"@.len() == 5 && "name_hash"@.len() == 9);
    assert("masked"@.len() == 6 && "interface_index"@.len() == 15);
    assert("client_process_name"@.len() == 19);
    assert("qname"@[1] != "qtype"@[1]);
    match query_event(obs) {
        Some(e) => {
            let f = e.payload->Object_0;
            field_is_read(f, 0);
            field_is_read(f, 1);
            field_is_read(f, 2);
            field_is_read(f, 3);
            field_is_read(f, 4);
            field_is_read(f, 5);
        },
        None => {},
    }
}

// ---------- files ------------------------------------------------------------------

/// The texts of an array of texts are those.
pub proof fn texts_read_back(s: Seq<Seq<char>>)
    ensures
        str_array(s) matches JsonView::Array(v) && texts_in(v) == s,
    decreases s.len(),
{
    let v = str_array(s)->Array_0;
    if s.len() > 0 {
        let t = s.drop_last();
        texts_read_back(t);
        assert(v.drop_last() =~= str_array(t)->Array_0);
        assert(texts_in(v) =~= s);
    } else {
        assert(texts_in(v) =~= s);
    }
}

/// The texts of an array are those of its elements that are texts, whatever
/// else is among them.
pub proof fn texts_are_those_there(v: Seq<JsonView>, t: Seq<char>)
    ensures
        texts_in(v).contains(t) <==> v.contains(JsonView::Str(t)),
    decreases v.len(),
{
    if v.len() > 0 {
        let w = v.drop_last();
        texts_are_those_there(w, t);
        let rest = texts_in(w);
        if v.contains(JsonView::Str(t)) {
            let i = choose|i: int| 0 <= i < v.len() && v[i] == JsonView::Str(t);
            if i < w.len() {
                assert(w[i] == JsonView::Str(t));
                let k = choose|k: int| 0 <= k < rest.len() && rest[k] == t;
                assert(texts_in(v)[k] == t);
            } else {
                assert(texts_in(v)[rest.len() as int] == t);
            }
        }
        if texts_in(v).contains(t) {
            let k = choose|k: int| 0 <= k < texts_in(v).len() && texts_in(v)[k] == t;
            if k < rest.len() {
                assert(rest[k] == t);
                let i = choose|i: int| 0 <= i < w.len() && w[i] == JsonView::Str(t);
                assert(v[i] == JsonView::Str(t));
            } else {
                assert(v[v.len() - 1] == JsonView::Str(t));
            }
        }
    }
}

/// A union begins with what was there and has what joined it.
pub proof fn union_has_both(have: Seq<Seq<char>>, more: Seq<Seq<char>>, t: Seq<char>)
    ensures
        union_texts(have, more).len() >= have.len(),
        union_texts(have, more).take(have.len() as int) == have,
        union_texts(have, more).contains(t) <==> have.contains(t) || more.contains(t),
    decreases more.len(),
{
    if more.len() == 0 {
        assert(have.take(have.len() as int) =~= have);
    } else {
        let m = more.drop_last();
        union_has_both(have, m, t);
        let rest = union_texts(have, m);
        let all = union_texts(have, more);
        assert(all.take(have.len() as int) =~= rest.take(have.len() as int));
        if more.contains(t) {
            let i = choose|i: int| 0 <= i < more.len() && more[i] == t;
            if i < m.len() {
                assert(m[i] == t);
            }
        }
        if m.contains(t) {
            let i = choose|i: int| 0 <= i < m.len() && m[i] == t;
            assert(more[i] == t);
        }
        if rest.contains(t) {
            let k = choose|k: int| 0 <= k < rest.len() && rest[k] == t;
            assert(all[k] == t);
        }
        if all.contains(t) && !rest.contains(t) {
            let k = choose|k: int| 0 <= k < all.len() && all[k] == t;
            if k < rest.len() {
                assert(rest[k] == t);
            }
            assert(more[more.len() - 1] == t);
        }
        if more.last() == t && !rest.contains(t) {
            assert(all[rest.len() as int] == t);
        }
    }
}

/// Whether an event tells what was gathered of a path: the flags, the ids of the
/// reports and their number, and when the first and the last of them came.
pub open spec fn tells_path(e: EventView, r: PathRecordView) -> bool {
    &&& e.kind == EventKind::FileChanged
    &&& e.pid is None
    &&& e.payload.str_at("path"@) == Some(r.path)
    &&& texts_at(e.payload, "flags"@) == r.flags
    &&& e.payload.get("count"@) == Some(JsonView::Int(r.event_ids.len() as int))
    &&& e.payload.get("event_ids"@) matches Some(JsonView::Array(v)) && v.len()
        == r.event_ids.len() && forall|i: int|
        0 <= i < v.len() ==> #[trigger] v[i] == JsonView::Int(r.event_ids[i] as int)
    &&& e.payload.get("first_seen"@) matches Some(t) && timestamp_of(t) == Some(r.first_seen)
    &&& e.payload.get("last_seen"@) matches Some(t) && timestamp_of(t) == Some(r.last_seen)
}

/// The change of a path tells what was gathered of it.
pub proof fn change_tells_path(r: PathRecordView, at: Timestamp)
    ensures
        tells_path(changed(r, at), r),
        changed(r, at).timestamp == at,
{
    reveal_strlit("path");
    reveal_strlit("flags");
    reveal_strlit("event_ids");
    reveal_strlit("count");
    reveal_strlit("first_seen");
    reveal_strlit("last_seen");
    assert("path"@.len() == 4 && "flags"@.len() == 5 && "event_ids"@.len() == 9);
    assert("count"@.len() == 5 && "first_seen"@.len() == 10 && "last_seen"@.len() == 9);
    assert("flags"@[0] != "count"@[0] && "event_ids"@[0] != "last_seen"@[0]);
    timestamp_json_round_trip(r.first_seen);
    timestamp_json_round_trip(r.last_seen);
    texts_read_back(r.flags);
    let f = changed(r, at).payload->Object_0;
    field_is_read(f, 0);
    field_is_read(f, 1);
    field_is_read(f, 2);
    field_is_read(f, 3);
    field_is_read(f, 4);
    field_is_read(f, 5);
}

/// Whether a record goes on from another by a report: the flags are joined, the
/// report's id is added unless it is zero, and it was last seen now.
pub open spec fn joins_report(n: PathRecordView, old: PathRecordView, obs: ObservationView) -> bool {
    &&& n.path == old.path
    &&& n.flags == union_texts(old.flags, texts_at(obs.payload, "flags"@))
    &&& n.event_ids == match obs.payload.u64_at("event_id"@) {
        Some(id) if id != 0 => old.event_ids.push(id),
        _ => old.event_ids,
    }
    &&& n.first_seen == old.first_seen
    &&& n.last_seen == obs.timestamp
}

/// Whether a record is the first that is known of a path: what the report says.
pub open spec fn begins_with_report(n: PathRecordView, obs: ObservationView) -> bool {
    &&& obs.payload.str_at("path"@) == Some(n.path)
    &&& n.flags == union_texts(Seq::empty(), texts_at(obs.payload, "flags"@))
    &&& n.event_ids == match obs.payload.u64_at("event_id"@) {
        Some(id) if id != 0 => seq![id],
        _ => Seq::<u64>::empty(),
    }
    &&& n.first_seen == obs.timestamp
    &&& n.last_seen == obs.timestamp
}

/// Whether a record is what a report makes of what was gathered.
pub open spec fn takes_report(n: PathRecordView, before: Seq<PathRecordView>, obs: ObservationView) -> bool {
    &&& forall|old: PathRecordView| #[trigger]
        before.contains(old) && old.path == n.path ==> joins_report(n, old, obs)
    &&& (forall|old: PathRecordView| #[trigger] before.contains(old) ==> old.path != n.path)
        ==> begins_with_report(n, obs)
}

/// Whether an observation begins a later window of half a second.
pub open spec fn is_later(s: FileStage, obs: ObservationView) -> bool {
    s.current_window matches Some(w) && obs.timestamp.mono_ns as int / 500_000_000 > w
}

/// What was gathered in the window of an observation.
pub open spec fn gathered(s: FileStage, obs: ObservationView) -> Seq<PathRecordView> {
    if is_later(s, obs) {
        Seq::empty()
    } else {
        s.buffer
    }
}

/// Whether a record, and what was gathered of other paths, are all that is
/// gathered.
pub open spec fn is_gathered(
    n: PathRecordView,
    before: Seq<PathRecordView>,
    after: Seq<PathRecordView>,
) -> bool {
    forall|r: PathRecordView| #[trigger]
        after.contains(r) <==> r == n || (before.contains(r) && r.path != n.path)
}

/// A report of a later window first brings one change for every path that was
/// gathered, as of the last report; any other brings nothing.
pub proof fn later_window_tells_changes(s: FileStage, obs: ObservationView, i: int)
    requires
        s.wf(),
        obs.payload.str_at("path"@) matches Some(p) && p.len() > 0,
    ensures
        s.emitted(obs).len() == if is_later(s, obs) {
            s.buffer.len()
        } else {
            0
        },
        0 <= i < s.emitted(obs).len() ==> tells_path(s.emitted(obs)[i], s.buffer[i]) && Some(
            s.emitted(obs)[i].timestamp,
        ) == s.last_ts,
{
    if 0 <= i < s.emitted(obs).len() {
        change_tells_path(s.buffer[i], s.emitted(obs)[i].timestamp);
    }
}

/// A report joins what was gathered of its path in the window of half a second,
/// and changes nothing else that was gathered. A report of a later window begins
/// anew.
pub proof fn reports_are_gathered(s: FileStage, obs: ObservationView, path: Seq<char>)
    requires
        s.wf(),
        path.len() > 0,
        obs.payload.str_at("path"@) == Some(path),
    ensures
        s.after(obs).current_window == Some((obs.timestamp.mono_ns as int / 500_000_000) as u64),
        s.after(obs).last_ts == Some(obs.timestamp),
        exists|n: PathRecordView|
            n.path == path && takes_report(n, gathered(s, obs), obs) && #[trigger] is_gathered(
                n,
                gathered(s, obs),
                s.after(obs).buffer,
            ),
{
    let base = gathered(s, obs);
    let after = s.after(obs).buffer;
    let p = is_path(path);
    first_where_is_first(base, p);
    let at = match first_where(base, p) {
        Some(i) => i,
        None => base.len() as int,
    };
    let n = after[at];
    assert(after == with_report(base, path, obs));
    assert forall|j: int| 0 <= j < base.len() && j != at implies (#[trigger] base[j]).path != path by {
        if at < base.len() {
            if j < at {
                assert(path_key()(base[j]) != path_key()(base[at]));
            } else {
                assert(path_key()(base[at]) != path_key()(base[j]));
            }
        } else {
            assert(!p(base[j]));
        }
    }
    assert forall|r: PathRecordView| #[trigger] after.contains(r) <==> r == n || (base.contains(r)
        && r.path != path) by {
        if after.contains(r) && r != n {
            let j = choose|j: int| 0 <= j < after.len() && after[j] == r;
            assert(base[j] == r);
        }
        if base.contains(r) && r.path != path {
            let j = choose|j: int| 0 <= j < base.len() && base[j] == r;
            assert(after[j] == r);
        }
        assert(after[at] == n);
    }
    assert forall|old: PathRecordView| #[trigger]
        base.contains(old) && old.path == n.path implies joins_report(n, old, obs) by {
        let j = choose|j: int| 0 <= j < base.len() && base[j] == old;
        assert(j == at);
    }
    if forall|old: PathRecordView| #[trigger] base.contains(old) ==> old.path != n.path {
        if at < base.len() {
            assert(base.contains(base[at]));
        }
        assert(n.event_ids =~= match obs.payload.u64_at("event_id"@) {
            Some(id) if id != 0 => seq![id],
            _ => Seq::<u64>::empty(),
        });
        assert(begins_with_report(n, obs));
    }
    assert(takes_report(n, base, obs));
    assert(n.path == path);
    assert(is_gathered(n, base, after));
}

/// What is left at the end brings one change for every path that was gathered.
pub proof fn the_rest_is_told(s: FileStage, i: int)
    requires
        s.wf(),
    ensures
        s.flushed().len() == s.buffer.len(),
        0 <= i < s.buffer.len() ==> tells_path(s.flushed()[i], s.buffer[i]),
{
    if 0 <= i < s.buffer.len() {
        change_tells_path(s.buffer[i], s.last_ts->0);
    }
}

// ---------- enrichment -------------------------------------------------------------

/// What is read of fields behind others.
pub(crate) proof fn fields_join(a: Seq<(Seq<char>, JsonView)>, b: Seq<(Seq<char>, JsonView)>, key: Seq<char>)
    ensures
        entry(a + b, key) == match entry(a, key) {
            Some(v) => Some(v),
            None => entry(b, key),
        },
    decreases a.len(),
{
    if a.len() == 0 {
        assert(a + b =~= b);
    } else {
        assert((a + b).skip(1) =~= a.skip(1) + b);
        fields_join(a.skip(1), b, key);
    }
}

proof fn field_if_reads(key: Seq<char>, v: Option<JsonView>, k: Seq<char>)
    ensures
        entry(field_if(key, v), k) == if k == key {
            v
        } else {
            None
        },
{
    reveal_with_fuel(entry, 2);
}

/// Whether a value tells what the index knows of a process.
pub open spec fn tells_entry(p: JsonView, e: ProcessEntryView, ancestors: Seq<AncestorEntryView>) -> bool {
    &&& p.u32_at("pid"@) == Some(e.pid)
    &&& p.u64_at("start_unix_secs"@) == Some(e.start_unix_secs)
    &&& p.str_at("comm"@) == e.comm
    &&& p.str_at("name"@) == e.name
    &&& p.str_at("exec_path"@) == e.exec_path
    &&& p.u32_at("ppid"@) == e.ppid
    &&& p.u32_at("uid"@) == e.uid
    &&& p.bool_at("alive"@) == Some(e.alive)
    &&& p.get("ancestors"@) matches Some(JsonView::Array(v)) && v.len() == ancestors.len()
        && forall|i: int|
        0 <= i < v.len() ==> tells_ancestor(#[trigger] v[i], ancestors[i])
}

/// Whether a value tells an ancestor.
pub open spec fn tells_ancestor(p: JsonView, a: AncestorEntryView) -> bool {
    &&& p.u32_at("pid"@) == Some(a.pid)
    &&& p.str_at("comm"@) == a.comm
    &&& p.str_at("name"@) == a.name
    &&& p.str_at("exec_path"@) == a.exec_path
}

proof fn context_names_differ()
    ensures
        "pid"@.len() == 3,
        "uid"@.len() == 3,
        "pid"@[0] == 'p',
        "uid"@[0] == 'u',
        "start_unix_secs"@.len() == 15,
        "comm"@.len() == 4,
        "name"@.len() == 4,
        "ppid"@.len() == 4,
        "comm"@[0] == 'c',
        "name"@[0] == 'n',
        "ppid"@[0] == 'p',
        "exec_path"@.len() == 9,
        "ancestors"@.len() == 9,
        "exec_path"@[0] == 'e',
        "ancestors"@[0] == 'a',
        "alive"@.len() == 5,
{
    reveal_strlit("pid");
    reveal_strlit("uid");
    reveal_strlit("start_unix_secs");
    reveal_strlit("comm");
    reveal_strlit("name");
    reveal_strlit("ppid");
    reveal_strlit("exec_path");
    reveal_strlit("ancestors");
    reveal_strlit("alive");
}

proof fn context_reads(e: ProcessEntryView, ancestors: Seq<AncestorEntryView>, k: Seq<char>)
    ensures
        ({
            let f = process_context(e, ancestors)->Object_0;
            let text = |s: Option<Seq<char>>| crate::reconstructor::some_text(s);
            let number = |n: Option<u32>| crate::reconstructor::some_number(n);
            entry(f, k) == if k == "pid"@ {
                Some(JsonView::Int(e.pid as int))
            } else if k == "start_unix_secs"@ {
                Some(JsonView::Int(e.start_unix_secs as int))
            } else if k == "comm"@ {
                text(e.comm)
            } else if k == "name"@ {
                text(e.name)
            } else if k == "exec_path"@ {
                text(e.exec_path)
            } else if k == "ppid"@ {
                number(e.ppid)
            } else if k == "uid"@ {
                number(e.uid)
            } else if k == "alive"@ {
                Some(JsonView::Bool(e.alive))
            } else if k == "ancestors"@ {
                Some(crate::reconstructor::ancestors_json(ancestors))
            } else {
                None
            }
        }),
{
    context_names_differ();
    let a = seq![
        ("pid"@, JsonView::Int(e.pid as int)),
        ("start_unix_secs"@, JsonView::Int(e.start_unix_secs as int)),
    ];
    let c = field_if("comm"@, crate::reconstructor::some_text(e.comm));
    let n = field_if("name"@, crate::reconstructor::some_text(e.name));
    let x = field_if("exec_path"@, crate::reconstructor::some_text(e.exec_path));
    let p = field_if("ppid"@, crate::reconstructor::some_number(e.ppid));
    let u = field_if("uid"@, crate::reconstructor::some_number(e.uid));
    let z = seq![
        ("alive"@, JsonView::Bool(e.alive)),
        ("ancestors"@, crate::reconstructor::ancestors_json(ancestors)),
    ];
    fields_join(a, c, k);
    fields_join(a + c, n, k);
    fields_join(a + c + n, x, k);
    fields_join(a + c + n + x, p, k);
    fields_join(a + c + n + x + p, u, k);
    fields_join(a + c + n + x + p + u, z, k);
    field_if_reads("comm"@, crate::reconstructor::some_text(e.comm), k);
    field_if_reads("name"@, crate::reconstructor::some_text(e.name), k);
    field_if_reads("exec_path"@, crate::reconstructor::some_text(e.exec_path), k);
    field_if_reads("ppid"@, crate::reconstructor::some_number(e.ppid), k);
    field_if_reads("uid"@, crate::reconstructor::some_number(e.uid), k);
    pair_reads(a, k);
    pair_reads(z, k);
}

pub(crate) proof fn pair_reads(a: Seq<(Seq<char>, JsonView)>, k: Seq<char>)
    requires
        a.len() == 2,
    ensures
        entry(a, k) == if k == a[0].0 {
            Some(a[0].1)
        } else if k == a[1].0 {
            Some(a[1].1)
        } else {
            None
        },
{
    reveal_with_fuel(entry, 3);
}

/// What is put under a key is read under it, and every other key as before.
pub proof fn field_put_is_read(
    fields: Seq<(Seq<char>, JsonView)>,
    key: Seq<char>,
    value: JsonView,
    k: Seq<char>,
)
    ensures
        entry(with_field(fields, key, value), k) == if k == key {
            Some(value)
        } else {
            entry(fields, k)
        },
    decreases fields.len(),
{
    let p = is_field(key);
    first_where_is_first(fields, p);
    let after = with_field(fields, key, value);
    if fields.len() == 0 {
        reveal_with_fuel(entry, 2);
        assert(after =~= seq![(key, value)]);
    } else if p(fields[0]) {
        assert(first_where(fields, p) == Some(0int));
        assert(after.skip(1) =~= fields.skip(1));
    } else {
        let t = fields.skip(1);
        field_put_is_read(t, key, value, k);
        first_where_is_first(t, p);
        match (first_where(fields, p), first_where(t, p)) {
            (Some(i), Some(j)) => {
                assert(t[j] == fields[j + 1]);
                if i < j + 1 {
                    assert(t[i - 1] == fields[i]);
                    assert(!p(t[i - 1]));
                }
                if i > j + 1 {
                    assert(!p(fields[j + 1]));
                }
            },
            (Some(i), None) => {
                assert(t[i - 1] == fields[i]);
                assert(!p(t[i - 1]));
            },
            (None, Some(j)) => {
                assert(!p(fields[j + 1]));
            },
            (None, None) => {},
        }
        assert(after.skip(1) =~= with_field(t, key, value));
        assert(after[0] == fields[0]);
    }
}

/// An event of a connection or a lookup that names a process which the index
/// knows tells, under `process`, what the index knows of it, and is else
/// unchanged. Every other event is unchanged.
pub proof fn known_processes_are_told(t: TableView, ev: EventView, k: Seq<char>)
    ensures
        ({
            let out = enriched_event(t, ev);
            let named = ev.kind == EventKind::ConnectionOpened || ev.kind
                == EventKind::ConnectionClosed || ev.kind == EventKind::ConnectionCompleted
                || ev.kind == EventKind::DnsQuery;
            let known = named && ev.payload is Object && ev.pid is Some && t.by_pid(
                ev.pid->0,
            ) is Some;
            &&& out.kind == ev.kind && out.pid == ev.pid && out.timestamp == ev.timestamp
                && out.schema_version == ev.schema_version
            &&& !known ==> out == ev
            &&& known ==> (out.payload.get("process"@) matches Some(p) && tells_entry(
                p,
                t.by_pid(ev.pid->0)->0,
                t.ancestors(ev.pid->0),
            ))
            &&& known && k != "process"@ ==> out.payload.get(k) == ev.payload.get(k)
        }),
{
    let pid = ev.pid->0;
    if ev.payload is Object && ev.pid is Some && t.by_pid(pid) is Some {
        let e = t.by_pid(pid)->0;
        let up = t.ancestors(pid);
        let fields = ev.payload->Object_0;
        let p = process_context(e, up);
        field_put_is_read(fields, "process"@, p, "process"@);
        field_put_is_read(fields, "process"@, p, k);
        context_names_differ();
        context_reads(e, up, "pid"@);
        context_reads(e, up, "start_unix_secs"@);
        context_reads(e, up, "comm"@);
        context_reads(e, up, "name"@);
        context_reads(e, up, "exec_path"@);
        context_reads(e, up, "ppid"@);
        context_reads(e, up, "uid"@);
        context_reads(e, up, "alive"@);
        context_reads(e, up, "ancestors"@);
        let v = crate::reconstructor::ancestors_json(up)->Array_0;
        assert forall|i: int| 0 <= i < v.len() implies tells_ancestor(#[trigger] v[i], up[i]) by {
            let f = v[i]->Object_0;
            field_is_read(f, 0);
            field_is_read(f, 1);
            field_is_read(f, 2);
            field_is_read(f, 3);
        }
        assert(tells_entry(p, e, up));
    }
}

/// Whether an entry is listed as the parent that another names: the parent is
/// neither the kernel nor the first process, and the index knows it.
pub open spec fn is_parent_of(a: AncestorEntryView, e: ProcessEntryView, t: TableView) -> bool {
    e.ppid matches Some(p) && p >= 2 && (t.by_pid(p) matches Some(up) && a.pid == up.pid && a.comm
        == up.comm && a.name == up.name && a.exec_path == up.exec_path)
}

proof fn resolved_has_pid(t: TableView, pid: u32)
    ensures
        t.by_pid(pid) matches Some(e) ==> e.pid == pid,
{
    first_where_is_first(t.latest, has_pid(pid));
    match t.latest_of(pid) {
        Some(k) => {
            first_where_is_first(t.entries, has_key(k));
        },
        None => {},
    }
}

proof fn climb_follows(t: TableView, e: ProcessEntryView, seen: Seq<u32>, n: nat, i: int)
    requires
        followed(e.ppid) is Some,
    ensures
        ({
            let all = t.climb(followed(e.ppid)->0, seen, n);
            &&& 0 < all.len() ==> is_parent_of(all[0], e, t)
            &&& 0 <= i && i + 1 < all.len() ==> (t.by_pid(all[i].pid) matches Some(x)
                && is_parent_of(all[i + 1], x, t))
            &&& all.len() == 0 ==> n == 0 || seen.contains(e.ppid->0) || t.by_pid(
                e.ppid->0,
            ) is None
            &&& 0 < all.len() < n ==> (t.by_pid(all.last().pid) matches Some(x) && (x.ppid is None
                || x.ppid->0 <= 1 || t.by_pid(x.ppid->0) is None || seen.contains(x.ppid->0)
                || exists|k: int| 0 <= k < all.len() && (#[trigger] all[k]).pid == x.ppid->0))
        }),
    decreases n,
{
    let p = followed(e.ppid)->0;
    let all = t.climb(p, seen, n);
    resolved_has_pid(t, p);
    if n > 0 && !seen.contains(p) {
        match t.by_pid(p) {
            Some(x) => {
                match followed(x.ppid) {
                    Some(q) => {
                        let rest = t.climb(q, seen.push(p), (n - 1) as nat);
                        assert forall|k: int| 0 <= k < rest.len() implies #[trigger] rest[k]
                            == all[k + 1] by {}
                        climb_follows(t, x, seen.push(p), (n - 1) as nat, i - 1);
                        climb_follows(t, x, seen.push(p), (n - 1) as nat, 0);
                        assert(all[0].pid == p);
                        if rest.len() > 0 {
                            assert(all.last() == rest.last());
                            if rest.len() < n - 1 {
                                let y = t.by_pid(rest.last().pid)->0;
                                if seen.push(p).contains(y.ppid->0) && !seen.contains(y.ppid->0) {
                                    let m = choose|m: int|
                                        0 <= m < seen.push(p).len() && seen.push(p)[m]
                                            == y.ppid->0;
                                    if m < seen.len() {
                                        assert(seen[m] == y.ppid->0);
                                    }
                                    assert(all[0].pid == y.ppid->0);
                                }
                                if exists|k: int|
                                    0 <= k < rest.len() && (#[trigger] rest[k]).pid
                                        == y.ppid->0 {
                                    let k = choose|k: int|
                                        0 <= k < rest.len() && (#[trigger] rest[k]).pid
                                            == y.ppid->0;
                                    assert(all[k + 1].pid == y.ppid->0);
                                }
                            }
                        } else {
                            assert(all.last() == all[0]);
                            if seen.push(p).contains(q) && !seen.contains(q) {
                                let m = choose|m: int|
                                    0 <= m < seen.push(p).len() && seen.push(p)[m] == q;
                                if m < seen.len() {
                                    assert(seen[m] == q);
                                }
                                assert(all[0].pid == q);
                            }
                        }
                    },
                    None => {
                        assert(all.last() == all[0]);
                    },
                }
            },
            None => {},
        }
    }
}

/// A process is known from its birth on, with all that was told of it, unless a
/// later start of the same number is known; its death changes only that it is no
/// longer alive; no other event changes what is known.
pub proof fn births_and_deaths_are_known(t: TableView, ev: EventView, pid: u32, start: u64)
    requires
        t.wf(),
        ev.pid == Some(pid),
        ev.payload.u64_at("start_unix_secs"@) == Some(start),
    ensures
        ({
            let before = t.by_pid(pid);
            let after = table_after(t, ev).by_pid(pid);
            &&& ev.kind == EventKind::ProcessBirth && !(before is Some
                && before->0.start_unix_secs > start) ==> after is Some && after->0.pid == pid
                && after->0.start_unix_secs == start && after->0.alive && after->0.ppid
                == ev.payload.u32_at("ppid"@) && after->0.uid == ev.payload.u32_at("uid"@)
                && after->0.comm == ev.payload.str_at("comm"@) && after->0.name
                == ev.payload.str_at("name"@) && after->0.exec_path == ev.payload.str_at(
                "exec_path"@,
            )
            &&& ev.kind == EventKind::ProcessBirth && before is Some && before->0.start_unix_secs
                > start ==> after == before
            &&& ev.kind == EventKind::ProcessDeath && before is Some && before->0.pid == pid
                && before->0.start_unix_secs == start ==> after == Some(
                ProcessEntryView { alive: false, ..before->0 },
            )
            &&& ev.kind == EventKind::ProcessDeath && (before is None || before->0.start_unix_secs
                != start) ==> after == before
            &&& ev.kind != EventKind::ProcessBirth && ev.kind != EventKind::ProcessDeath ==> after
                == before
        }),
{
    if ev.kind == EventKind::ProcessBirth {
        let e = entry_of_birth(ev)->0;
        inserted_resolves(t, e, pid);
        first_where_is_first(t.latest, has_pid(pid));
        match t.latest_of(pid) {
            Some(k) => {
                first_where_is_first(t.entries, has_key(k));
                assert(t.by_key(k) is Some);
                let n = first_where(t.entries, has_key(k))->0;
                assert(entry_key(t.entries[n]) == k);
            },
            None => {},
        }
    }
    if ev.kind == EventKind::ProcessDeath {
        died_stays_queryable(t, ProcKey { pid, start_unix_secs: start }, pid);
        match t.latest_of(pid) {
            Some(k) => {
                first_where_is_first(t.latest, has_pid(pid));
                first_where_is_first(t.entries, has_key(k));
            },
            None => {},
        }
    }
}

/// The ancestors of a process are its parent, the parent's parent and so on, as
/// the index knows them. The list ends where a parent is the kernel or the first
/// process, is unknown, or was met before, and after thirty-two.
pub proof fn ancestors_are_parents(t: TableView, pid: u32, i: int)
    ensures
        ({
            let all = t.ancestors(pid);
            &&& 0 < all.len() ==> (t.by_pid(pid) matches Some(e) && is_parent_of(all[0], e, t))
            &&& 0 <= i && i + 1 < all.len() ==> (t.by_pid(all[i].pid) matches Some(x)
                && is_parent_of(all[i + 1], x, t))
            &&& all.len() == 0 ==> t.by_pid(pid) is None || t.by_pid(pid)->0.ppid is None
                || t.by_pid(pid)->0.ppid->0 <= 1 || t.by_pid(pid)->0.ppid == Some(pid) || t.by_pid(
                t.by_pid(pid)->0.ppid->0,
            ) is None
            &&& 0 < all.len() < 32 ==> (t.by_pid(all.last().pid) matches Some(x) && (x.ppid is None
                || x.ppid->0 <= 1 || t.by_pid(x.ppid->0) is None || x.ppid == Some(pid) || exists|
                k: int,
            |
                0 <= k < all.len() && (#[trigger] all[k]).pid == x.ppid->0))
        }),
{
    match t.by_pid(pid) {
        Some(e) => {
            if followed(e.ppid) is Some {
                climb_follows(t, e, seq![pid], 32, i);
                assert forall|q: u32| seq![pid].contains(q) implies q == pid by {
                    let k = choose|k: int| 0 <= k < 1 && seq![pid][k] == q;
                }
            }
        },
        None => {},
    }
}

/// Each source reaches its own stage and leaves the others as they were; a
/// reading of the machine reaches none.
pub proof fn sources_reach_their_stages(p: PipelineView, obs: ObservationView)
    ensures
        obs.source != Source::Process ==> p.after(obs).process == p.process,
        obs.source == Source::Process ==> p.after(obs).process == p.process.after(obs) && p.raw(obs)
            == p.process.emitted(obs),
        obs.source != Source::Network ==> p.after(obs).network == p.network,
        obs.source == Source::Network && obs.payload.str_at("kind"@) != Some("dns_query"@) ==> p.after(
            obs,
        ).network == p.network.after(obs) && p.raw(obs) == p.network.emitted(obs),
        obs.source == Source::Network && obs.payload.str_at("kind"@) == Some("dns_query"@) ==> p.raw(
            obs,
        ).len() == 1 && Some(p.raw(obs)[0]) == query_event(obs),
        obs.source != Source::FileSystem ==> p.after(obs).files == p.files,
        obs.source == Source::FileSystem ==> p.after(obs).files == p.files.after(obs) && p.raw(obs)
            == p.files.emitted(obs),
        obs.source == Source::Window ==> p.raw(obs).len() <= 1 && (focus_event(obs) matches Some(e)
            ==> p.raw(obs) == seq![e]) && (focus_event(obs) is None ==> p.raw(obs).len() == 0),
        obs.source == Source::System ==> p.raw(obs).len() == 0,
{
}

} // verus!
