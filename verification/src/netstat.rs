//! Socket rows from the table that `netstat -n -v` prints.
//!
//! The last eight columns of a row are stable, and the owner stands before
//! them as `name:pid`. A name may hold spaces, so the words to the left of the
//! owner that are no numbers belong to it.

use vstd::prelude::*;
use vstd::string::*;

use crate::json::{int_of_u64, opt_int, opt_str, put, Json, JsonView};
use crate::observation::{Observation, ObservationView, Source, Timestamp};
use crate::seqs::{filter_map_start, filter_map_step, push_item, take_all};
use crate::text::{
    has_prefix, holds, is_all_digits, is_number, join_texts, joined, lines, lines_of, parse_unsigned,
    split_at_last, split_last, starts_with, trim, trim_text, u32_from_text, u64_from_text, words,
    words_of,
};

verus! {

/// The columns behind the owner: state options gencnt flags flags1 usecnt
/// rtncnt fltrs.
pub const TRAILING_COLS: usize = 8;

/// One socket.
#[derive(Debug)]
pub struct NetstatRow {
    pub proto: String,
    pub local_addr: String,
    pub foreign_addr: String,
    pub state: Option<String>,
    pub rxbytes: Option<u64>,
    pub txbytes: Option<u64>,
    pub process_name: String,
    pub pid: Option<u32>,
}

/// What a `NetstatRow` holds.
pub struct NetstatRowView {
    pub proto: Seq<char>,
    pub local_addr: Seq<char>,
    pub foreign_addr: Seq<char>,
    pub state: Option<Seq<char>>,
    pub rxbytes: Option<u64>,
    pub txbytes: Option<u64>,
    pub process_name: Seq<char>,
    pub pid: Option<u32>,
}

impl DeepView for NetstatRow {
    type V = NetstatRowView;

    open spec fn deep_view(&self) -> NetstatRowView {
        NetstatRowView {
            proto: self.proto@,
            local_addr: self.local_addr@,
            foreign_addr: self.foreign_addr@,
            state: self.state.deep_view(),
            rxbytes: self.rxbytes,
            txbytes: self.txbytes,
            process_name: self.process_name@,
            pid: self.pid,
        }
    }
}

/// The `u64` that a word writes.
pub open spec fn u64_of(s: Seq<char>) -> Option<u64> {
    match parse_unsigned(s, u64::MAX as nat) {
        Some(n) => Some(n as u64),
        None => None,
    }
}

/// The `u32` that a word writes.
pub open spec fn u32_of(s: Seq<char>) -> Option<u32> {
    match parse_unsigned(s, u32::MAX as nat) {
        Some(n) => Some(n as u32),
        None => None,
    }
}

/// Whether a word is an owner: a name, a colon, and digits.
pub open spec fn is_owner(tok: Seq<char>) -> bool {
    match split_last(tok, ':') {
        Some((name, pid)) => name.len() > 0 && is_number(pid),
        None => false,
    }
}

/// The name and the process id of an owner.
pub open spec fn owner_of(tok: Seq<char>) -> (Seq<char>, Option<u32>) {
    match split_last(tok, ':') {
        Some((name, pid)) => (name, u32_of(pid)),
        None => (tok, None),
    }
}

/// The last position below `n` of an owner.
pub open spec fn last_owner(toks: Seq<Seq<char>>, n: int) -> Option<int>
    decreases n,
{
    if n <= 0 {
        None
    } else if is_owner(toks[n - 1]) {
        Some(n - 1)
    } else {
        last_owner(toks, n - 1)
    }
}

/// Where an owner's name begins: to the left of `k` as far as words are no
/// numbers.
pub open spec fn name_start(toks: Seq<Seq<char>>, k: int) -> int
    decreases k,
{
    if k > 0 && !is_number(toks[k - 1]) {
        name_start(toks, k - 1)
    } else {
        k
    }
}

/// The row that the words of a line write. The four words before the owner are
/// numbers, of which the first two are the bytes received and sent; a single
/// word between the addresses and them is the state.
pub open spec fn row_of(toks: Seq<Seq<char>>) -> Option<NetstatRowView> {
    let n = toks.len();
    if n < TRAILING_COLS + 6 || !(has_prefix(toks[0], "tcp"@) || has_prefix(toks[0], "udp"@)) {
        None
    } else {
        match last_owner(toks, n - TRAILING_COLS) {
            None => None,
            Some(p) => {
                let k = name_start(toks, p);
                if k < 4 {
                    None
                } else {
                    Some(
                        NetstatRowView {
                            proto: toks[0],
                            local_addr: toks[3],
                            foreign_addr: toks[4],
                            state: if k == 10 {
                                Some(toks[5])
                            } else {
                                None
                            },
                            rxbytes: u64_of(toks[k - 4]),
                            txbytes: u64_of(toks[k - 3]),
                            process_name: joined(
                                toks.subrange(k, p).push(owner_of(toks[p]).0),
                                " "@,
                            ),
                            pid: owner_of(toks[p]).1,
                        },
                    )
                }
            },
        }
    }
}

/// The lines behind the header; none without a header.
pub open spec fn table(ls: Seq<Seq<char>>) -> Seq<Seq<char>>
    decreases ls.len(),
{
    if ls.len() == 0 {
        Seq::empty()
    } else if has_prefix(ls[0], "Proto"@) {
        ls.skip(1)
    } else {
        table(ls.skip(1))
    }
}

/// The row of a line.
pub open spec fn line_row() -> spec_fn(Seq<char>) -> Option<NetstatRowView> {
    |l: Seq<char>| row_of(words(l))
}

fn token_is_name_pid(tok: &str) -> (r: bool)
    ensures
        r == is_owner(tok@),
{
    match split_at_last(tok, ':') {
        Some((name, pid)) => !name.as_str().is_empty() && is_all_digits(pid.as_str()),
        None => false,
    }
}

fn split_name_pid(tok: &str) -> (r: (String, Option<u32>))
    ensures
        (r.0@, r.1) == owner_of(tok@),
{
    match split_at_last(tok, ':') {
        Some((name, pid)) => (name, u32_from_text(pid.as_str())),
        None => (tok.to_owned(), None),
    }
}

/// The words from `from` up to `to`, and then a last one, with spaces between
/// them.
fn join_name(toks: &Vec<String>, from: usize, to: usize, last: &str) -> (r: String)
    requires
        from <= to <= toks@.len(),
    ensures
        r@ == joined(toks.deep_view().subrange(from as int, to as int).push(last@), " "@),
{
    let ghost tv = toks.deep_view();
    let mut parts: Vec<String> = Vec::new();
    let mut i: usize = from;
    assert(parts.deep_view() =~= tv.subrange(from as int, from as int));
    while i < to
        invariant
            tv == toks.deep_view(),
            from <= i <= to <= toks@.len(),
            parts.deep_view() == tv.subrange(from as int, i as int),
        decreases to - i,
    {
        push_item(&mut parts, toks[i].clone());
        assert(tv.subrange(from as int, i as int).push(tv[i as int]) =~= tv.subrange(
            from as int,
            i + 1,
        ));
        i = i + 1;
    }
    push_item(&mut parts, last.to_owned());
    join_texts(&parts, " ")
}

/// Reads one line of the table.
pub fn parse_row(line: &str) -> (r: Option<NetstatRow>)
    ensures
        r.deep_view() == row_of(words(line@)),
{
    let toks: Vec<String> = words_of(line);
    let ghost tv = toks.deep_view();
    let n: usize = toks.len();
    if n < TRAILING_COLS + 6 {
        return None;
    }
    assert(tv[0] == toks@[0]@);
    if !(starts_with(toks[0].as_str(), "tcp") || starts_with(toks[0].as_str(), "udp")) {
        return None;
    }
    let mut i: usize = n - TRAILING_COLS;
    let mut found: bool = false;
    while i > 0 && !found
        invariant
            tv == toks.deep_view(),
            n == toks@.len(),
            i <= n - TRAILING_COLS,
            !found ==> last_owner(tv, n - TRAILING_COLS) == last_owner(tv, i as int),
            found ==> last_owner(tv, n - TRAILING_COLS) == Some(i as int),
        decreases i,
            if found {
                0int
            } else {
                1int
            },
    {
        assert(tv[i - 1] == toks@[i - 1]@);
        if token_is_name_pid(toks[i - 1].as_str()) {
            found = true;
        }
        i = i - 1;
    }
    if !found {
        return None;
    }
    let p: usize = i;
    assert(tv[p as int] == toks@[p as int]@);
    let (owner, pid) = split_name_pid(toks[p].as_str());
    let mut k: usize = p;
    while k > 0 && !is_all_digits(toks[k - 1].as_str())
        invariant
            tv == toks.deep_view(),
            n == toks@.len(),
            p < n,
            k <= p,
            name_start(tv, p as int) == name_start(tv, k as int),
        decreases k,
    {
        assert(tv[k - 1] == toks@[k - 1]@);
        k = k - 1;
    }
    assert(k > 0 ==> tv[k - 1] == toks@[k - 1]@);
    assert(name_start(tv, p as int) == k);
    if k < 4 {
        return None;
    }
    let process_name = join_name(&toks, k, p, owner.as_str());
    assert(tv[k - 3] == toks@[k - 3]@);
    assert(tv[k - 4] == toks@[k - 4]@);
    assert(tv[3] == toks@[3]@ && tv[4] == toks@[4]@ && tv[5] == toks@[5]@);
    Some(
        NetstatRow {
            proto: toks[0].clone(),
            local_addr: toks[3].clone(),
            foreign_addr: toks[4].clone(),
            state: if k == 10 {
                Some(toks[5].clone())
            } else {
                None
            },
            rxbytes: u64_from_text(toks[k - 4].as_str()),
            txbytes: u64_from_text(toks[k - 3].as_str()),
            process_name,
            pid,
        },
    )
}

/// Reads the table: the lines behind the header that are rows.
pub fn parse_netstat(output: &str) -> (r: Vec<NetstatRow>)
    ensures
        r.deep_view() == table(lines(output@)).filter_map(line_row()),
{
    let ls: Vec<String> = lines_of(output);
    let ghost all = ls.deep_view();
    let mut i: usize = 0;
    let mut header: bool = false;
    assert(all.skip(0) =~= all);
    while i < ls.len() && !header
        invariant
            all == ls.deep_view(),
            i <= ls@.len(),
            !header ==> table(all) == table(all.skip(i as int)),
            header ==> table(all) == all.skip(i as int),
        decreases ls@.len() - i,
    {
        assert(all.skip(i as int)[0] == ls@[i as int]@);
        assert(all.skip(i as int).skip(1) =~= all.skip(i + 1));
        if starts_with(ls[i].as_str(), "Proto") {
            header = true;
        }
        i = i + 1;
    }
    let ghost rest = table(all);
    assert(rest =~= all.skip(i as int));
    let from: usize = i;
    let mut out: Vec<NetstatRow> = Vec::new();
    proof {
        filter_map_start(rest, line_row());
        assert(out.deep_view() =~= Seq::<NetstatRowView>::empty());
    }
    while i < ls.len()
        invariant
            all == ls.deep_view(),
            from <= i <= ls@.len(),
            rest == all.skip(from as int),
            out.deep_view() == rest.take(i - from).filter_map(line_row()),
        decreases ls@.len() - i,
    {
        proof {
            filter_map_step(rest, line_row(), i - from);
            assert(rest[i - from] == ls@[i as int]@);
        }
        match parse_row(ls[i].as_str()) {
            Some(row) => push_item(&mut out, row),
            None => {},
        }
        i = i + 1;
    }
    proof {
        take_all(rest);
    }
    out
}

/// The position of the first owner among words.
pub open spec fn first_owner(toks: Seq<Seq<char>>, i: int) -> Option<int>
    decreases toks.len() - i,
{
    if i < 0 || i >= toks.len() {
        None
    } else if is_owner(toks[i]) {
        Some(i)
    } else {
        first_owner(toks, i + 1)
    }
}

/// The name and the process id that a chunk of a row begins with; the whole
/// chunk where it has no owner.
pub open spec fn process_in(chunk: Seq<char>) -> (Seq<char>, Option<u32>) {
    let toks = words(chunk);
    match first_owner(toks, 0) {
        Some(i) => (joined(toks.take(i).push(owner_of(toks[i]).0), " "@), owner_of(toks[i]).1),
        None => (trim(chunk), None),
    }
}

/// The name and the process id that a chunk of a row begins with.
pub fn extract_process(chunk: &str) -> (r: (String, Option<u32>))
    ensures
        (r.0@, r.1) == process_in(chunk@),
{
    let toks: Vec<String> = words_of(chunk);
    let ghost tv = toks.deep_view();
    let mut i: usize = 0;
    while i < toks.len()
        invariant
            tv == toks.deep_view(),
            tv == words(chunk@),
            i <= toks@.len(),
            first_owner(tv, 0) == first_owner(tv, i as int),
        decreases toks@.len() - i,
    {
        assert(tv[i as int] == toks@[i as int]@);
        if token_is_name_pid(toks[i].as_str()) {
            let (tail, pid) = split_name_pid(toks[i].as_str());
            let name = join_name(&toks, 0, i, tail.as_str());
            assert(tv.subrange(0, i as int) =~= tv.take(i as int));
            return (name, pid);
        }
        i = i + 1;
    }
    (trim_text(chunk), None)
}

/// The observation of a socket.
pub open spec fn observation_of(row: NetstatRowView, at: Timestamp) -> ObservationView {
    ObservationView {
        timestamp: at,
        source: Source::Network,
        pid: row.pid,
        payload: JsonView::Object(
            seq![
                ("proto"@, JsonView::Str(row.proto)),
                ("local_addr"@, JsonView::Str(row.local_addr)),
                ("foreign_addr"@, JsonView::Str(row.foreign_addr)),
                ("state"@, opt_str(row.state)),
                ("rxbytes"@, opt_int(int_of_u64(row.rxbytes))),
                ("txbytes"@, opt_int(int_of_u64(row.txbytes))),
                ("process_name"@, JsonView::Str(row.process_name)),
            ],
        ),
        tags: None,
    }
}

/// The observation of a socket.
pub fn row_to_observation(row: &NetstatRow, at: Timestamp) -> (r: Observation)
    ensures
        r.deep_view() == observation_of(row.deep_view(), at),
{
    let mut f: Vec<(String, Json)> = Vec::new();
    put(&mut f, "proto", Json::text(row.proto.as_str()));
    put(&mut f, "local_addr", Json::text(row.local_addr.as_str()));
    put(&mut f, "foreign_addr", Json::text(row.foreign_addr.as_str()));
    put(&mut f, "state", Json::opt_text(&row.state));
    put(&mut f, "rxbytes", Json::opt_u64(row.rxbytes));
    put(&mut f, "txbytes", Json::opt_u64(row.txbytes));
    put(&mut f, "process_name", Json::text(row.process_name.as_str()));
    assert(f.deep_view() =~= observation_of(row.deep_view(), at).payload->Object_0);
    Observation {
        timestamp: at,
        source: Source::Network,
        pid: row.pid,
        payload: Json::object(f),
        tags: None,
    }
}

} // verus!
