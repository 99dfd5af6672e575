//! Name lookups from the log of the system's resolver: one JSON document per
//! line, of which only the starts of queries matter.
//!
//! The name that is looked up may be masked; its hash always stands in the
//! record, so that lookups of the same name can be told to belong together.

use vstd::prelude::*;
use vstd::string::*;

use crate::json::{put, Json, JsonView};
use crate::json_parse::{json_document, parse_json};
use crate::netstat::u32_of;
use crate::observation::{Observation, ObservationView, Source, Timestamp};
use crate::text::{
    chars_of, contains_text, find, find_chars, find_from, find_is_first, has_prefix, holds,
    parse_i32, parse_signed, rfind, rfind_chars, rfind_is_last, split_at_first, split_first,
    starts_with, string_of, trim, trim_text, u32_from_text,
};

verus! {

/// The source of name lookups. It holds nothing.
#[derive(Debug)]
pub struct DnsAdapter;

impl DnsAdapter {
    /// The source.
    pub fn new() -> Self {
        DnsAdapter
    }
}

impl Default for DnsAdapter {
    fn default() -> Self {
        DnsAdapter
    }
}

/// One query.
#[derive(Debug)]
pub struct Query {
    pub qname: String,
    pub qtype: String,
    pub name_hash: String,
    pub interface_index: i32,
    pub client_pid: u32,
    pub client_process_name: String,
    pub masked: bool,
}

/// What a `Query` holds.
pub struct QueryView {
    pub qname: Seq<char>,
    pub qtype: Seq<char>,
    pub name_hash: Seq<char>,
    pub interface_index: i32,
    pub client_pid: u32,
    pub client_process_name: Seq<char>,
    pub masked: bool,
}

impl DeepView for Query {
    type V = QueryView;

    open spec fn deep_view(&self) -> QueryView {
        QueryView {
            qname: self.qname@,
            qtype: self.qtype@,
            name_hash: self.name_hash@,
            interface_index: self.interface_index,
            client_pid: self.client_pid,
            client_process_name: self.client_process_name@,
            masked: self.masked,
        }
    }
}

/// What stands between the first occurrence of one text and the next one of
/// another behind it.
pub open spec fn between(s: Seq<char>, start: Seq<char>, end: Seq<char>) -> Option<Seq<char>> {
    match find(s, start) {
        Some(i) => match find_from(s, end, i + start.len()) {
            Some(j) => Some(s.subrange(i + start.len(), j)),
            None => None,
        },
        None => None,
    }
}

/// A text without any of a character at its start.
pub open spec fn without_leading(s: Seq<char>, c: char) -> Seq<char>
    decreases s.len(),
{
    if s.len() > 0 && s[0] == c {
        without_leading(s.skip(1), c)
    } else {
        s
    }
}

/// A text without any of a character at its end.
pub open spec fn without_trailing(s: Seq<char>, c: char) -> Seq<char>
    decreases s.len(),
{
    if s.len() > 0 && s.last() == c {
        without_trailing(s.drop_last(), c)
    } else {
        s
    }
}

/// The `i32` that a text writes.
pub open spec fn i32_of(s: Seq<char>) -> Option<i32> {
    match parse_signed(s, i32::MIN as int, i32::MAX as int) {
        Some(n) => Some(n as i32),
        None => None,
    }
}

/// What stands behind the last occurrence of a text, trimmed; nothing without
/// one.
pub open spec fn behind_last(s: Seq<char>, p: Seq<char>) -> Seq<char> {
    match rfind(s, p) {
        Some(i) => trim(s.skip(i + p.len())),
        None => Seq::empty(),
    }
}

/// The query that a message writes; none where a field is missing or no
/// number.
pub open spec fn query_of(msg: Seq<char>) -> Option<QueryView> {
    match (
        between(msg, "qname: "@, ", qtype:"@),
        between(msg, "qtype: "@, ","@),
        between(msg, "interface index: "@, ","@),
        between(msg, "client pid: "@, ","@),
    ) {
        (Some(qname), Some(qtype), Some(index), Some(client)) => match (
            i32_of(index),
            split_first(client, ' '),
        ) {
            (Some(interface_index), Some((pid, rest))) => match u32_of(pid) {
                Some(client_pid) => Some(
                    QueryView {
                        qname,
                        qtype,
                        name_hash: behind_last(msg, "name hash: "@),
                        interface_index,
                        client_pid,
                        client_process_name: without_trailing(
                            without_leading(trim(rest), '('),
                            ')',
                        ),
                        masked: has_prefix(qname, "<mask.hash"@),
                    },
                ),
                None => None,
            },
            _ => None,
        },
        _ => None,
    }
}

/// The observation of a query: of the process that asked.
pub open spec fn query_observation(q: QueryView, at: Timestamp) -> ObservationView {
    ObservationView {
        timestamp: at,
        source: Source::Network,
        pid: Some(q.client_pid),
        payload: JsonView::Object(
            seq![
                ("kind"@, JsonView::Str("dns_query"@)),
                ("qname"@, JsonView::Str(q.qname)),
                ("qtype"@, JsonView::Str(q.qtype)),
                ("name_hash"@, JsonView::Str(q.name_hash)),
                ("interface_index"@, JsonView::Int(q.interface_index as int)),
                ("client_process_name"@, JsonView::Str(q.client_process_name)),
                ("masked"@, JsonView::Bool(q.masked)),
            ],
        ),
        tags: None,
    }
}

/// The query of a record: none unless its message is the start of one.
pub open spec fn record_query(v: JsonView) -> Option<QueryView> {
    match v.str_at("eventMessage"@) {
        Some(msg) if holds(msg, "DNSServiceQueryRecord START"@) => query_of(msg),
        _ => None,
    }
}

/// The query of a line: none of a blank one, nor of one that is no JSON
/// document.
pub open spec fn line_query(line: Seq<char>, document: Option<JsonView>) -> Option<QueryView> {
    match document {
        Some(v) if trim(line).len() > 0 => record_query(v),
        _ => None,
    }
}

/// The observation of a query that is there.
pub open spec fn opt_query_observation(q: Option<QueryView>, at: Timestamp) -> Option<
    ObservationView,
> {
    match q {
        Some(v) => Some(query_observation(v, at)),
        None => None,
    }
}

/// Whether masking is known of after a query.
pub open spec fn masking_known(before: bool, q: Option<QueryView>) -> bool {
    before || (q matches Some(v) && v.masked)
}

fn field_between(s: &str, start: &str, end: &str) -> (r: Option<String>)
    ensures
        r.deep_view() == between(s@, start@, end@),
{
    let cs: Vec<char> = chars_of(s);
    let a: Vec<char> = chars_of(start);
    let b: Vec<char> = chars_of(end);
    let n: usize = cs.len();
    match find_chars(cs.as_slice(), a.as_slice(), 0) {
        Some(i) => {
            proof {
                find_is_first(s@, start@, 0);
            }
            let from: usize = i + a.len();
            match find_chars(cs.as_slice(), b.as_slice(), from) {
                Some(j) => {
                    proof {
                        find_is_first(s@, end@, from as int);
                    }
                    Some(string_of(cs.as_slice(), from, j))
                },
                None => None,
            }
        },
        None => None,
    }
}

/// A text without any of one character at its start and of another at its end.
fn strip_marks(s: &str, first: char, last: char) -> (r: String)
    ensures
        r@ == without_trailing(without_leading(s@, first), last),
{
    let cs: Vec<char> = chars_of(s);
    let n: usize = cs.len();
    let mut from: usize = 0;
    assert(s@.skip(0) =~= s@);
    while from < n && cs[from] == first
        invariant
            cs@ == s@,
            n == cs@.len(),
            from <= n,
            without_leading(s@, first) == without_leading(s@.skip(from as int), first),
        decreases n - from,
    {
        assert(s@.skip(from as int)[0] == cs@[from as int]);
        assert(s@.skip(from as int).skip(1) =~= s@.skip(from + 1));
        from = from + 1;
    }
    let ghost t = s@.skip(from as int);
    assert(without_leading(s@, first) == t) by {
        if from < n {
            assert(t[0] == cs@[from as int]);
        }
    }
    let mut to: usize = n;
    assert(s@.subrange(from as int, n as int) =~= t);
    while to > from && cs[to - 1] == last
        invariant
            cs@ == s@,
            n == cs@.len(),
            from <= to <= n,
            without_trailing(t, last) == without_trailing(
                s@.subrange(from as int, to as int),
                last,
            ),
        decreases to,
    {
        let ghost u = s@.subrange(from as int, to as int);
        assert(u.last() == cs@[to - 1]);
        assert(u.drop_last() =~= s@.subrange(from as int, to - 1));
        to = to - 1;
    }
    assert(without_trailing(t, last) == s@.subrange(from as int, to as int)) by {
        if to > from {
            assert(s@.subrange(from as int, to as int).last() == cs@[to - 1]);
        }
    }
    string_of(cs.as_slice(), from, to)
}

fn text_behind_last(s: &str, p: &str) -> (r: String)
    ensures
        r@ == behind_last(s@, p@),
{
    let cs: Vec<char> = chars_of(s);
    let ps: Vec<char> = chars_of(p);
    let n: usize = cs.len();
    match rfind_chars(cs.as_slice(), ps.as_slice()) {
        Some(i) => {
            proof {
                rfind_is_last(s@, p@, s@.len() - p@.len());
            }
            let from: usize = i + ps.len();
            let t = string_of(cs.as_slice(), from, n);
            assert(t@ =~= s@.skip(i + p@.len()));
            trim_text(t.as_str())
        },
        None => String::new(),
    }
}

/// Reads the query that a message writes.
pub fn extract_query(msg: &str) -> (r: Option<Query>)
    ensures
        r.deep_view() == query_of(msg@),
{
    let qname: String = match field_between(msg, "qname: ", ", qtype:") {
        Some(s) => s,
        None => return None,
    };
    let qtype: String = match field_between(msg, "qtype: ", ",") {
        Some(s) => s,
        None => return None,
    };
    let index: String = match field_between(msg, "interface index: ", ",") {
        Some(s) => s,
        None => return None,
    };
    let index_chars: Vec<char> = chars_of(index.as_str());
    let interface_index: Option<i32> = parse_i32(index_chars.as_slice());
    let client: String = match field_between(msg, "client pid: ", ",") {
        Some(s) => s,
        None => return None,
    };
    let interface_index: i32 = match interface_index {
        Some(n) => n,
        None => return None,
    };
    let (pid, rest) = match split_at_first(client.as_str(), ' ') {
        Some((a, b)) => (a, b),
        None => return None,
    };
    let client_pid: u32 = match u32_from_text(pid.as_str()) {
        Some(p) => p,
        None => return None,
    };
    let masked: bool = starts_with(qname.as_str(), "<mask.hash");
    Some(
        Query {
            qname,
            qtype,
            name_hash: text_behind_last(msg, "name hash: "),
            interface_index,
            client_pid,
            client_process_name: strip_marks(trim_text(rest.as_str()).as_str(), '(', ')'),
            masked,
        },
    )
}

/// The observation of a query.
pub fn observe_query(q: &Query, at: Timestamp) -> (r: Observation)
    ensures
        r.deep_view() == query_observation(q.deep_view(), at),
{
    let mut f: Vec<(String, Json)> = Vec::new();
    put(&mut f, "kind", Json::text("dns_query"));
    put(&mut f, "qname", Json::text(q.qname.as_str()));
    put(&mut f, "qtype", Json::text(q.qtype.as_str()));
    put(&mut f, "name_hash", Json::text(q.name_hash.as_str()));
    put(&mut f, "interface_index", Json::I64(q.interface_index as i64));
    put(&mut f, "client_process_name", Json::text(q.client_process_name.as_str()));
    put(&mut f, "masked", Json::Bool(q.masked));
    assert(f.deep_view() =~= query_observation(q.deep_view(), at).payload->Object_0);
    Observation {
        timestamp: at,
        source: Source::Network,
        pid: Some(q.client_pid),
        payload: Json::object(f),
        tags: None,
    }
}

/// The observation of a record, and whether masking is known of after it.
pub fn observe_record(v: &Json, at: Timestamp, warned: &mut bool) -> (r: Option<Observation>)
    ensures
        r.deep_view() == opt_query_observation(record_query(v@), at),
        *final(warned) == masking_known(*old(warned), record_query(v@)),
{
    let msg: &str = match v.str_at("eventMessage") {
        Some(s) => s,
        None => return None,
    };
    if !contains_text(msg, "DNSServiceQueryRecord START") {
        return None;
    }
    match extract_query(msg) {
        Some(q) => {
            if q.masked {
                *warned = true;
            }
            Some(observe_query(&q, at))
        },
        None => None,
    }
}

/// Reads one line of the log. `warned` is set by the first masked query, so
/// that masking is reported once.
pub fn parse_line(line: &str, at: Timestamp, warned: &mut bool) -> (r: Option<Observation>)
    ensures
        r.deep_view() == opt_query_observation(line_query(line@, json_document(line@)), at),
        *final(warned) == masking_known(*old(warned), line_query(line@, json_document(line@))),
{
    if trim_text(line).as_str().is_empty() {
        return None;
    }
    match parse_json(line) {
        Some(v) => observe_record(&v, at, warned),
        None => None,
    }
}

} // verus!
