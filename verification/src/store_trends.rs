//! How events spread over the hours of the day and over windows of time.

use vstd::prelude::*;
use vstd::string::*;

use crate::events::EventKind;
use crate::json::{Json, JsonView};
use crate::json_path::{cut_at_nul, lookup, lookup_from, up_to_nul};
use crate::json_text::{json_text, text_of_json};
use crate::order::{text_before, text_lt};
use crate::seqs::{
    count_where, count_where_step, filter_map_start, filter_map_step, push_item, take_all, uniques,
};
use crate::store::{EventRow, EventRowView, Store, StoreError};
use crate::text::{chars_of, flat, push_char, str_eq, Parts};

verus! {

// ---------- hours of the day -----------------------------------------------------

/// How many events of a kind fell in an hour of the day.
#[derive(Debug)]
pub struct HourlyKindCount {
    pub kind: String,
    pub hour_of_day: u8,
    pub count: u64,
}

/// What an `HourlyKindCount` holds.
pub struct HourlyKindCountView {
    pub kind: Seq<char>,
    pub hour_of_day: u8,
    pub count: u64,
}

impl DeepView for HourlyKindCount {
    type V = HourlyKindCountView;

    open spec fn deep_view(&self) -> HourlyKindCountView {
        HourlyKindCountView {
            kind: self.kind@,
            hour_of_day: self.hour_of_day,
            count: self.count,
        }
    }
}

impl Clone for HourlyKindCount {
    fn clone(&self) -> (r: Self)
        ensures
            r.deep_view() == self.deep_view(),
    {
        HourlyKindCount {
            kind: self.kind.clone(),
            hour_of_day: self.hour_of_day,
            count: self.count,
        }
    }
}

/// The UTC hour of the day of a time.
pub open spec fn hour_of(ts: i64) -> int {
    (ts as int / 3_600_000_000_000) % 24
}

/// The event kinds in the order of their names.
pub open spec fn kinds_by_name() -> Seq<EventKind> {
    seq![
        EventKind::AppFocus,
        EventKind::ConnectionClosed,
        EventKind::ConnectionCompleted,
        EventKind::ConnectionOpened,
        EventKind::DnsQuery,
        EventKind::FileChanged,
        EventKind::ProcessBirth,
        EventKind::ProcessDeath,
    ]
}

/// Every kind with every hour, in the order of the profile: by kind, then by
/// hour.
pub open spec fn cells() -> Seq<(EventKind, int)> {
    Seq::new(192, |i: int| (kinds_by_name()[i / 24], i % 24))
}

/// Whether an event at or after a time is of a kind and an hour.
pub open spec fn in_cell(from: i64, kind: EventKind, hour: int) -> spec_fn(EventRowView) -> bool {
    |r: EventRowView| r.ts_unix_ns >= from && r.kind == kind && hour_of(r.ts_unix_ns) == hour
}

/// The count of a kind and an hour, if there is any event of them.
pub open spec fn cell_count(rows: Seq<EventRowView>, from: i64) -> spec_fn(
    (EventKind, int),
) -> Option<HourlyKindCountView> {
    |c: (EventKind, int)|
        {
            let n = count_where(rows, in_cell(from, c.0, c.1));
            if n > 0 {
                Some(
                    HourlyKindCountView {
                        kind: c.0.spec_name(),
                        hour_of_day: c.1 as u8,
                        count: n as u64,
                    },
                )
            } else {
                None
            }
        }
}

/// The UTC hour of the day of a time.
fn event_hour(ts: i64) -> (r: u8)
    ensures
        r == hour_of(ts),
        r < 24,
{
    let n: i128 = ts as i128;
    // Counted from a midnight before every time, which is 24 * 106752 hours
    // before the epoch.
    let h: i128 = (n + 9_223_372_800_000_000_000) / 3_600_000_000_000;
    let r: i128 = h % 24;
    proof {
        let t = ts as int;
        assert((t + 9_223_372_800_000_000_000) / 3_600_000_000_000 == t / 3_600_000_000_000
            + 2_562_048) by (nonlinear_arith);
        assert(2_562_048 == 24 * 106_752);
        assert((t / 3_600_000_000_000 + 2_562_048) % 24 == (t / 3_600_000_000_000) % 24);
    }
    r as u8
}

/// How many events at or after a time are of a kind and an hour.
fn count_cell(rows: &Vec<EventRow>, from: i64, kind: EventKind, hour: u8) -> (r: u64)
    ensures
        r == count_where(rows.deep_view(), in_cell(from, kind, hour as int)),
{
    let ghost all = rows.deep_view();
    let ghost p = in_cell(from, kind, hour as int);
    let mut n: u64 = 0;
    let mut i: usize = 0;
    while i < rows.len()
        invariant
            all == rows.deep_view(),
            p == in_cell(from, kind, hour as int),
            i <= rows@.len(),
            n == count_where(all.take(i as int), p),
        decreases rows@.len() - i,
    {
        proof {
            count_where_step(all, p, i as int);
        }
        let row: &EventRow = &rows[i];
        if row.ts_unix_ns >= from && row.kind == kind && event_hour(row.ts_unix_ns) == hour {
            n = n + 1;
        }
        i = i + 1;
    }
    proof {
        take_all(all);
    }
    n
}

impl Store {
    /// How many events of each kind fell in each UTC hour of the day, over
    /// everything at or after `from_unix_ns`, by kind name and hour.
    pub fn event_hourly_profile(&self, from_unix_ns: i64) -> (r: Result<
        Vec<HourlyKindCount>,
        StoreError,
    >)
        ensures
            r is Ok,
            r->Ok_0.deep_view() == cells().filter_map(cell_count(self@.events, from_unix_ns)),
    {
        let kinds = [
            EventKind::AppFocus,
            EventKind::ConnectionClosed,
            EventKind::ConnectionCompleted,
            EventKind::ConnectionOpened,
            EventKind::DnsQuery,
            EventKind::FileChanged,
            EventKind::ProcessBirth,
            EventKind::ProcessDeath,
        ];
        assert(kinds@ =~= kinds_by_name());
        let ghost all = cells();
        let ghost f = cell_count(self@.events, from_unix_ns);
        let mut out: Vec<HourlyKindCount> = Vec::new();
        let mut i: usize = 0;
        proof {
            filter_map_start(all, f);
            assert(out.deep_view() =~= Seq::<HourlyKindCountView>::empty());
        }
        while i < 192
            invariant
                kinds@ == kinds_by_name(),
                all == cells(),
                f == cell_count(self@.events, from_unix_ns),
                i <= 192,
                out.deep_view() == all.take(i as int).filter_map(f),
            decreases 192 - i,
        {
            proof {
                filter_map_step(all, f, i as int);
            }
            let kind: EventKind = kinds[i / 24];
            let hour: u8 = (i % 24) as u8;
            let n: u64 = count_cell(&self.events, from_unix_ns, kind, hour);
            if n > 0 {
                push_item(
                    &mut out,
                    HourlyKindCount {
                        kind: kind.name().to_owned(),
                        hour_of_day: hour,
                        count: n,
                    },
                );
            }
            i = i + 1;
        }
        proof {
            take_all(all);
        }
        Ok(out)
    }
}

// ---------- windows ------------------------------------------------------------

/// How often a value occurred in a window of time.
#[derive(Debug)]
pub struct FieldWindowCount {
    pub value: String,
    pub window_start_unix_ns: i64,
    pub count: u64,
}

/// What a `FieldWindowCount` holds.
pub struct FieldWindowCountView {
    pub value: Seq<char>,
    pub window_start_unix_ns: i64,
    pub count: u64,
}

impl DeepView for FieldWindowCount {
    type V = FieldWindowCountView;

    open spec fn deep_view(&self) -> FieldWindowCountView {
        FieldWindowCountView {
            value: self.value@,
            window_start_unix_ns: self.window_start_unix_ns,
            count: self.count,
        }
    }
}

impl Clone for FieldWindowCount {
    fn clone(&self) -> (r: Self)
        ensures
            r.deep_view() == self.deep_view(),
    {
        FieldWindowCount {
            value: self.value.clone(),
            window_start_unix_ns: self.window_start_unix_ns,
            count: self.count,
        }
    }
}

/// The size of a number without its sign.
pub open spec fn size(n: i64) -> int {
    if n >= 0 {
        n as int
    } else {
        -n
    }
}

/// The start of the window that a time falls in: the last multiple of the width
/// that is not after it.
pub open spec fn window_start(ts: i64, width: i64) -> int {
    (ts as int / size(width)) * size(width)
}

/// The path that a field's name stands for: from the payload on, up to a NUL.
pub open spec fn field_path(field: Seq<char>) -> Seq<char> {
    seq!['.'] + up_to_nul(field)
}

/// Whether an event is of a kind and came at or after a time.
pub open spec fn is_asked_for(kind: EventKind, from: i64, r: EventRowView) -> bool {
    r.kind == kind && r.ts_unix_ns >= from
}

/// Whether a field's name is no path into some event that is asked for.
pub open spec fn is_bad_path(
    rows: Seq<EventRowView>,
    kind: EventKind,
    field: Seq<char>,
    from: i64,
) -> bool {
    exists|i: int|
        0 <= i < rows.len() && is_asked_for(kind, from, #[trigger] rows[i]) && lookup(
            rows[i].payload,
            field_path(field),
        ) is None
}

/// A text with every single quote twice.
pub open spec fn doubled(s: Seq<char>) -> Seq<char>
    decreases s.len(),
{
    if s.len() == 0 {
        Seq::empty()
    } else if s.last() == '\'' {
        doubled(s.drop_last()) + seq!['\'', '\'']
    } else {
        doubled(s.drop_last()).push(s.last())
    }
}

/// What is said of a name that is no path.
pub open spec fn bad_path_text(field: Seq<char>) -> Seq<char> {
    flat(seq!["bad JSON path: '$."@, doubled(up_to_nul(field)), "'"@])
}

/// The payload's value at a path, of an event of a kind at or after a time,
/// with the event's time; a null counts as no value.
pub open spec fn field_at(kind: EventKind, field: Seq<char>, from: i64) -> spec_fn(
    EventRowView,
) -> Option<(JsonView, i64)> {
    |r: EventRowView|
        match lookup(r.payload, field_path(field)) {
            Some(Some(v)) if is_asked_for(kind, from, r) && v != JsonView::Null => Some(
                (v, r.ts_unix_ns),
            ),
            _ => None,
        }
}

/// The text that a value is counted under: a text itself, and a list or an
/// object as JSON. A number or a truth value has none.
pub open spec fn counted_text(v: JsonView) -> Option<Seq<char>> {
    match v {
        JsonView::Str(s) => Some(s),
        JsonView::Array(_) | JsonView::Object(_) => Some(json_text(v)),
        _ => None,
    }
}

/// Whether one value and window comes before another: by text, then by time.
pub open spec fn cell_before(a: (Seq<char>, i64), b: (Seq<char>, i64)) -> bool {
    text_lt(a.0, b.0) || (a.0 == b.0 && a.1 < b.1)
}

/// Puts a value and window behind the last one that does not come after it.
pub open spec fn insert_cell(s: Seq<(Seq<char>, i64)>, x: (Seq<char>, i64)) -> Seq<
    (Seq<char>, i64),
>
    decreases s.len(),
{
    if s.len() == 0 || !cell_before(x, s.last()) {
        s.push(x)
    } else {
        insert_cell(s.drop_last(), x).push(s.last())
    }
}

/// The values and windows in order.
pub open spec fn sort_cells(s: Seq<(Seq<char>, i64)>) -> Seq<(Seq<char>, i64)>
    decreases s.len(),
{
    if s.len() == 0 {
        Seq::empty()
    } else {
        insert_cell(sort_cells(s.drop_last()), s.last())
    }
}

/// The value and window of every field.
pub open spec fn field_cells(fields: Seq<(JsonView, i64)>, width: i64) -> Seq<(Seq<char>, i64)> {
    Seq::new(
        fields.len(),
        |i: int| (counted_text(fields[i].0)->0, window_start(fields[i].1, width) as i64),
    )
}

/// Whether a field has a text that it is counted under, and a window whose
/// start can be told.
pub open spec fn is_countable(field: (JsonView, i64), width: i64) -> bool {
    width != 0 && counted_text(field.0) is Some && window_start(field.1, width) >= i64::MIN
}

/// Whether every field can be counted.
pub open spec fn all_countable(fields: Seq<(JsonView, i64)>, width: i64) -> bool {
    forall|i: int| 0 <= i < fields.len() ==> is_countable(#[trigger] fields[i], width)
}

/// Whether a value and window is the given one.
pub open spec fn same_cell(c: (Seq<char>, i64)) -> spec_fn((Seq<char>, i64)) -> bool {
    |d: (Seq<char>, i64)| d == c
}

/// How often each value occurred in each window, in order.
pub open spec fn window_counts(cs: Seq<(Seq<char>, i64)>) -> Seq<FieldWindowCountView> {
    let order = sort_cells(uniques(cs));
    Seq::new(
        order.len(),
        |i: int|
            FieldWindowCountView {
                value: order[i].0,
                window_start_unix_ns: order[i].1,
                count: count_where(cs, same_cell(order[i])) as u64,
            },
    )
}

/// The start of the window that a time falls in, where it can be told.
fn start_of_window(ts: i64, width: i64) -> (r: Option<i64>)
    requires
        width != 0,
    ensures
        match r {
            Some(t) => t == window_start(ts, width),
            None => window_start(ts, width) < i64::MIN,
        },
{
    let w: i128 = if width >= 0 {
        width as i128
    } else {
        -(width as i128)
    };
    let t: i128 = ts as i128;
    let back: i128 = if t >= 0 {
        t % w
    } else {
        let m: i128 = (-t) % w;
        if m == 0 {
            0
        } else {
            w - m
        }
    };
    let start: i128 = t - back;
    proof {
        window_is_below(t as int, w as int, back as int);
    }
    if start < i64::MIN as i128 {
        None
    } else {
        Some(start as i64)
    }
}

/// A time less what it is past a multiple of a width is the last multiple that
/// is not after it.
proof fn window_is_below(t: int, w: int, back: int)
    requires
        w > 0,
        t >= 0 ==> back == t % w,
        t < 0 ==> back == if (-t) % w == 0 {
            0
        } else {
            w - (-t) % w
        },
    ensures
        t - back == (t / w) * w,
        0 <= back < w,
{
    vstd::arithmetic::div_mod::lemma_fundamental_div_mod(t, w);
    vstd::arithmetic::div_mod::lemma_mod_bound(t, w);
    assert((t / w) * w == w * (t / w)) by (nonlinear_arith);
    if t < 0 {
        let n = -t;
        vstd::arithmetic::div_mod::lemma_fundamental_div_mod(n, w);
        vstd::arithmetic::div_mod::lemma_mod_bound(n, w);
        let q = n / w;
        if n % w == 0 {
            assert(t == w * (-q)) by (nonlinear_arith)
                requires
                    t == -n,
                    n == w * q,
            ;
            vstd::arithmetic::div_mod::lemma_fundamental_div_mod_converse(t, w, -q, 0);
        } else {
            assert(t == w * (-q - 1) + (w - n % w)) by (nonlinear_arith)
                requires
                    t == -n,
                    n == w * q + n % w,
            ;
            vstd::arithmetic::div_mod::lemma_fundamental_div_mod_converse(
                t,
                w,
                -q - 1,
                w - n % w,
            );
        }
    }
}

/// What is said of a name that is no path.
fn bad_path_message(field: &str) -> (r: String)
    ensures
        r@ == bad_path_text(field@),
{
    let cut: String = cut_at_nul(field);
    let cs: Vec<char> = chars_of(cut.as_str());
    let mut twice: String = String::new();
    let mut i: usize = 0;
    assert(twice@ =~= doubled(cs@.take(0)));
    while i < cs.len()
        invariant
            i <= cs@.len(),
            twice@ == doubled(cs@.take(i as int)),
        decreases cs@.len() - i,
    {
        assert(cs@.take(i + 1).drop_last() =~= cs@.take(i as int));
        push_char(&mut twice, cs[i]);
        if cs[i] == '\'' {
            push_char(&mut twice, '\'');
            assert(twice@ =~= doubled(cs@.take(i as int)) + seq!['\'', '\'']);
        }
        i = i + 1;
    }
    proof {
        take_all(cs@);
    }
    let mut t = Parts::new();
    t.add("bad JSON path: '$.");
    t.add(twice.as_str());
    t.add("'");
    t.finish()
}

/// The path that a field's name stands for.
fn path_of(field: &str) -> (r: Vec<char>)
    ensures
        r@ == field_path(field@),
{
    let cut: String = cut_at_nul(field);
    let mut rest: Vec<char> = chars_of(cut.as_str());
    let mut r: Vec<char> = Vec::new();
    r.push('.');
    r.append(&mut rest);
    assert(r@ =~= field_path(field@));
    r
}

/// The text that a value is counted under.
fn text_to_count(v: &Json) -> (r: Option<String>)
    ensures
        r.deep_view() == counted_text(v@),
{
    match v {
        Json::Str(s) => Some(s.clone()),
        Json::Array(_) | Json::Object(_) => Some(text_of_json(v)),
        _ => None,
    }
}

/// Whether two values and windows are the same.
fn cell_eq(a: &(String, i64), b: &(String, i64)) -> (r: bool)
    ensures
        r == (a.deep_view() == b.deep_view()),
{
    str_eq(a.0.as_str(), b.0.as_str()) && a.1 == b.1
}

/// Whether one value and window comes before another.
fn cell_precedes(a: &(String, i64), b: &(String, i64)) -> (r: bool)
    ensures
        r == cell_before(a.deep_view(), b.deep_view()),
{
    text_before(a.0.as_str(), b.0.as_str()) || (str_eq(a.0.as_str(), b.0.as_str()) && a.1 < b.1)
}

/// The values and windows, each once, in the order of their first occurrence.
fn unique_cells(v: &Vec<(String, i64)>) -> (r: Vec<(String, i64)>)
    ensures
        r.deep_view() == uniques(v.deep_view()),
{
    let ghost all = v.deep_view();
    let mut out: Vec<(String, i64)> = Vec::new();
    let mut i: usize = 0;
    assert(out.deep_view() =~= uniques(all.take(0)));
    while i < v.len()
        invariant
            all == v.deep_view(),
            i <= v@.len(),
            out.deep_view() == uniques(all.take(i as int)),
        decreases v@.len() - i,
    {
        assert(all.take(i + 1).drop_last() =~= all.take(i as int));
        let ghost x = all[i as int];
        let ghost have = out.deep_view();
        let mut k: usize = 0;
        let mut seen: bool = false;
        while k < out.len()
            invariant
                i < v@.len(),
                x == v@[i as int].deep_view(),
                have == out.deep_view(),
                k <= out@.len(),
                seen ==> have.contains(x),
                !seen ==> forall|j: int| 0 <= j < k ==> have[j] != x,
            decreases out@.len() - k,
        {
            assert(have[k as int] == out@[k as int].deep_view());
            if cell_eq(&out[k], &v[i]) {
                seen = true;
            }
            k = k + 1;
        }
        if !seen {
            push_item(&mut out, (v[i].0.clone(), v[i].1));
        }
        i = i + 1;
    }
    proof {
        take_all(all);
    }
    out
}

/// Where everything from `pos` on comes after `x` and what stands before it
/// does not, insertion happens at `pos`.
proof fn insert_cell_at(s: Seq<(Seq<char>, i64)>, x: (Seq<char>, i64), pos: int)
    requires
        0 <= pos <= s.len(),
        pos > 0 ==> !cell_before(x, s[pos - 1]),
        forall|i: int| pos <= i < s.len() ==> cell_before(x, #[trigger] s[i]),
    ensures
        insert_cell(s, x) == s.insert(pos, x),
    decreases s.len(),
{
    if pos == s.len() {
        assert(s.insert(pos, x) =~= s.push(x));
    } else {
        assert(cell_before(x, s[s.len() - 1]));
        let t = s.drop_last();
        assert forall|i: int| pos <= i < t.len() implies cell_before(x, #[trigger] t[i]) by {
            assert(t[i] == s[i]);
        }
        insert_cell_at(t, x, pos);
        assert(s.insert(pos, x) =~= t.insert(pos, x).push(s.last()));
    }
}

/// The values and windows in order.
fn sorted_cells(v: &Vec<(String, i64)>) -> (r: Vec<(String, i64)>)
    ensures
        r.deep_view() == sort_cells(v.deep_view()),
{
    let ghost all = v.deep_view();
    let mut out: Vec<(String, i64)> = Vec::new();
    let mut i: usize = 0;
    assert(out.deep_view() =~= sort_cells(all.take(0)));
    while i < v.len()
        invariant
            all == v.deep_view(),
            i <= v@.len(),
            out.deep_view() == sort_cells(all.take(i as int)),
        decreases v@.len() - i,
    {
        assert(all.take(i + 1).drop_last() =~= all.take(i as int));
        let ghost x = all[i as int];
        let ghost have = out.deep_view();
        let mut pos: usize = out.len();
        while pos > 0 && cell_precedes(&v[i], &out[pos - 1])
            invariant
                i < v@.len(),
                x == v@[i as int].deep_view(),
                have == out.deep_view(),
                pos <= out@.len(),
                forall|j: int| pos <= j < have.len() ==> cell_before(x, #[trigger] have[j]),
            decreases pos,
        {
            pos = pos - 1;
            assert(have[pos as int] == out@[pos as int].deep_view());
        }
        proof {
            if pos > 0 {
                assert(have[pos - 1] == out@[pos - 1].deep_view());
            }
            insert_cell_at(have, x, pos as int);
        }
        out.insert(pos, (v[i].0.clone(), v[i].1));
        assert(out.deep_view() =~= have.insert(pos as int, x));
        i = i + 1;
    }
    proof {
        take_all(all);
    }
    out
}

impl Store {
    /// How often each text at a path of the payload occurred, among the events
    /// of a kind at or after `from_unix_ns`, per window of `window_ns`; by text
    /// and window. Events without the path are passed over. A list or an object
    /// there counts as its JSON text. A name that is no path, a number or a truth
    /// value, a window of no width, or one whose start no `i64` holds, is an
    /// error.
    pub fn event_field_window_counts(
        &self,
        kind: EventKind,
        json_field: &str,
        from_unix_ns: i64,
        window_ns: i64,
    ) -> (r: Result<Vec<FieldWindowCount>, StoreError>)
        ensures
            ({
                let fields = self@.events.filter_map(field_at(kind, json_field@, from_unix_ns));
                if is_bad_path(self@.events, kind, json_field@, from_unix_ns) {
                    r matches Err(StoreError::Sql(m)) && m@ == bad_path_text(json_field@)
                } else if all_countable(fields, window_ns) {
                    r is Ok && r->Ok_0.deep_view() == window_counts(field_cells(fields, window_ns))
                } else {
                    r matches Err(StoreError::Sql(m)) && m@ == "Invalid column type"@
                }
            }),
    {
        let ghost all = self.events.deep_view();
        let ghost f = field_at(kind, json_field@, from_unix_ns);
        let ghost fields = all.filter_map(f);
        let mut cs: Vec<(String, i64)> = Vec::new();
        let path: Vec<char> = path_of(json_field);
        let mut bad: bool = false;
        let mut i: usize = 0;
        let ghost mut got: Seq<(JsonView, i64)> = Seq::empty();
        proof {
            filter_map_start(all, f);
            assert(cs.deep_view() =~= field_cells(got, window_ns));
        }
        while i < self.events.len()
            invariant
                all == self.events.deep_view(),
                f == field_at(kind, json_field@, from_unix_ns),
                path@ == field_path(json_field@),
                i <= self.events@.len(),
                forall|k: int|
                    0 <= k < i && is_asked_for(kind, from_unix_ns, #[trigger] all[k]) ==> lookup(
                        all[k].payload,
                        field_path(json_field@),
                    ) is Some,
                got == all.take(i as int).filter_map(f),
                bad == !all_countable(got, window_ns),
                !bad ==> cs.deep_view() == field_cells(got, window_ns),
            decreases self.events@.len() - i,
        {
            let ghost before = got;
            proof {
                filter_map_step(all, f, i as int);
            }
            let row: &EventRow = &self.events[i];
            if row.kind == kind && row.ts_unix_ns >= from_unix_ns {
                assert(path@.skip(0) =~= path@);
                assert(all[i as int] == row.deep_view());
                match lookup_from(&row.payload, &path, 0) {
                    None => {
                        assert(is_asked_for(kind, from_unix_ns, self@.events[i as int]));
                        return Err(StoreError::Sql(bad_path_message(json_field)));
                    },
                    Some(Some(v)) => {
                        if !v.is_null() {
                            let ghost field = (v@, row.ts_unix_ns);
                            proof {
                                got = before.push(field);
                                assert(got[before.len() as int] == field);
                                assert forall|k: int| 0 <= k < before.len() implies got[k]
                                    == #[trigger] before[k] by {}
                                assert(all_countable(got, window_ns) == (all_countable(
                                    before,
                                    window_ns,
                                ) && is_countable(field, window_ns))) by {
                                    if all_countable(got, window_ns) {
                                        assert forall|k: int|
                                            0 <= k < before.len() implies is_countable(
                                            #[trigger] before[k],
                                            window_ns,
                                        ) by {
                                            assert(is_countable(got[k], window_ns));
                                        }
                                        assert(is_countable(
                                            got[before.len() as int],
                                            window_ns,
                                        ));
                                    }
                                }
                            }
                            let start: Option<i64> = if window_ns == 0 {
                                None
                            } else {
                                start_of_window(row.ts_unix_ns, window_ns)
                            };
                            match (text_to_count(v), start) {
                                (Some(s), Some(t)) => {
                                    assert(is_countable(field, window_ns));
                                    if !bad {
                                        push_item(&mut cs, (s, t));
                                        assert(cs.deep_view() =~= field_cells(got, window_ns));
                                    }
                                },
                                _ => {
                                    bad = true;
                                },
                            }
                        }
                    },
                    Some(None) => {},
                }
            }
            i = i + 1;
        }
        proof {
            take_all(all);
        }
        if bad {
            return Err(StoreError::Sql("Invalid column type".to_owned()));
        }
        let u = unique_cells(&cs);
        let order = sorted_cells(&u);
        let ghost cv = cs.deep_view();
        let ghost ov = order.deep_view();
        let ghost want = window_counts(cv);
        let mut out: Vec<FieldWindowCount> = Vec::new();
        let mut k: usize = 0;
        assert(out.deep_view() =~= want.take(0));
        while k < order.len()
            invariant
                cv == cs.deep_view(),
                ov == order.deep_view(),
                ov == sort_cells(uniques(cv)),
                want == window_counts(cv),
                k <= order@.len(),
                out.deep_view() == want.take(k as int),
            decreases order@.len() - k,
        {
            let c: &(String, i64) = &order[k];
            assert(ov[k as int] == c.deep_view());
            let ghost p = same_cell(c.deep_view());
            let mut n: u64 = 0;
            let mut j: usize = 0;
            while j < cs.len()
                invariant
                    cv == cs.deep_view(),
                    p == same_cell(c.deep_view()),
                    j <= cs@.len(),
                    n == count_where(cv.take(j as int), p),
                decreases cs@.len() - j,
            {
                proof {
                    count_where_step(cv, p, j as int);
                }
                assert(cv[j as int] == cs@[j as int].deep_view());
                if cell_eq(&cs[j], c) {
                    n = n + 1;
                }
                j = j + 1;
            }
            proof {
                take_all(cv);
            }
            push_item(
                &mut out,
                FieldWindowCount { value: c.0.clone(), window_start_unix_ns: c.1, count: n },
            );
            assert(want.take(k as int).push(want[k as int]) =~= want.take(k + 1));
            k = k + 1;
        }
        proof {
            take_all(want);
        }
        Ok(out)
    }
}

} // verus!
