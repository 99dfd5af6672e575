//! The members of a JSON text, as they are written: a document that names a
//! field of a record twice is not that record, which only its text can tell.

use vstd::prelude::*;
use vstd::string::*;

use crate::json::{Json, JsonView};
use crate::json_parse::{json_document, parse_json};
use crate::seqs::{convert, push_item, whole};
use crate::text::{chars_of, push_char, str_eq, string_of, trim, trim_text};

verus! {

// ---------- commas and colons ------------------------------------------------------

/// How far into brackets and quotes a text leads.
pub struct Depth {
    pub brackets: int,
    pub quoted: bool,
    pub escaped: bool,
}

impl Depth {
    /// One character further on.
    pub open spec fn after(self, c: char) -> Depth {
        if self.quoted {
            if self.escaped {
                Depth { escaped: false, ..self }
            } else if c == '\\' {
                Depth { escaped: true, ..self }
            } else if c == '"' {
                Depth { quoted: false, ..self }
            } else {
                self
            }
        } else if c == '"' {
            Depth { quoted: true, ..self }
        } else if c == '{' || c == '[' {
            Depth { brackets: self.brackets + 1, ..self }
        } else if c == '}' || c == ']' {
            Depth { brackets: self.brackets - 1, ..self }
        } else {
            self
        }
    }

    /// Whether it is outside all brackets and quotes.
    pub open spec fn is_outside(self) -> bool {
        self.brackets == 0 && !self.quoted
    }
}

/// How far into brackets and quotes a text leads.
pub open spec fn depth_after(s: Seq<char>) -> Depth
    decreases s.len(),
{
    if s.len() == 0 {
        Depth { brackets: 0, quoted: false, escaped: false }
    } else {
        depth_after(s.drop_last()).after(s.last())
    }
}

/// The pieces that a separator outside brackets and quotes ends, and what
/// follows the last.
pub open spec fn cut(s: Seq<char>, sep: char) -> (Seq<Seq<char>>, Seq<char>)
    decreases s.len(),
{
    if s.len() == 0 {
        (Seq::empty(), Seq::empty())
    } else {
        let (done, rest) = cut(s.drop_last(), sep);
        if s.last() == sep && depth_after(s.drop_last()).is_outside() {
            (done.push(rest), Seq::empty())
        } else {
            (done, rest.push(s.last()))
        }
    }
}

/// The pieces of a text between separators outside brackets and quotes.
pub open spec fn pieces_outside(s: Seq<char>, sep: char) -> Seq<Seq<char>> {
    cut(s, sep).0.push(cut(s, sep).1)
}

/// Whether a text begins with a bracket.
pub open spec fn opens(s: Seq<char>, bracket: char) -> bool {
    trim(s).len() >= 2 && trim(s)[0] == bracket
}

/// What stands in the brackets of a text.
pub open spec fn inside(s: Seq<char>) -> Seq<char> {
    trim(s).subrange(1, trim(s).len() - 1)
}

/// The texts between the commas of a text in brackets; none of any other text.
pub open spec fn items(s: Seq<char>, bracket: char) -> Seq<Seq<char>> {
    if opens(s, bracket) && trim(inside(s)).len() > 0 {
        pieces_outside(inside(s), ',')
    } else {
        Seq::empty()
    }
}

/// A member's key and value: what stands before its first colon, and behind its
/// last.
pub open spec fn member() -> spec_fn(Seq<char>) -> (Seq<char>, Seq<char>) {
    |s: Seq<char>| (pieces_outside(s, ':')[0], pieces_outside(s, ':').last())
}

/// The members of an object: the texts of their keys and values.
pub open spec fn members(s: Seq<char>) -> Seq<(Seq<char>, Seq<char>)> {
    items(s, '{').map_values(member())
}

/// The pieces of a text between separators outside brackets and quotes.
pub fn split_outside(s: &str, sep: char) -> (r: Vec<String>)
    ensures
        r.deep_view() == pieces_outside(s@, sep),
{
    let cs: Vec<char> = chars_of(s);
    let mut out: Vec<String> = Vec::new();
    let mut piece: String = String::new();
    let mut brackets: i128 = 0;
    let mut quoted: bool = false;
    let mut escaped: bool = false;
    let mut i: usize = 0;
    assert(out.deep_view() =~= Seq::<Seq<char>>::empty());
    assert(piece@ =~= Seq::<char>::empty());
    while i < cs.len()
        invariant
            i <= cs@.len(),
            -(i as int) <= brackets <= i,
            depth_after(cs@.take(i as int)) == (Depth {
                brackets: brackets as int,
                quoted,
                escaped,
            }),
            cut(cs@.take(i as int), sep) == (out.deep_view(), piece@),
        decreases cs@.len() - i,
    {
        let c: char = cs[i];
        assert(cs@.take(i + 1).drop_last() =~= cs@.take(i as int));
        if c == sep && brackets == 0 && !quoted {
            let mut next: String = String::new();
            core::mem::swap(&mut piece, &mut next);
            push_item(&mut out, next);
            assert(piece@ =~= Seq::<char>::empty());
        } else {
            push_char(&mut piece, c);
        }
        if quoted {
            if escaped {
                escaped = false;
            } else if c == '\\' {
                escaped = true;
            } else if c == '"' {
                quoted = false;
            }
        } else if c == '"' {
            quoted = true;
        } else if c == '{' || c == '[' {
            brackets = brackets + 1;
        } else if c == '}' || c == ']' {
            brackets = brackets - 1;
        }
        i = i + 1;
    }
    assert(cs@.take(cs@.len() as int) =~= s@);
    push_item(&mut out, piece);
    out
}

/// The texts between the commas of a text in brackets.
pub fn items_of(s: &str, bracket: char) -> (r: Vec<String>)
    ensures
        r.deep_view() == items(s@, bracket),
{
    let t: String = trim_text(s);
    let cs: Vec<char> = chars_of(t.as_str());
    let n: usize = cs.len();
    if n >= 2 && cs[0] == bracket {
        let inner: String = string_of(cs.as_slice(), 1, n - 1);
        assert(inner@ =~= inside(s@));
        if !trim_text(inner.as_str()).as_str().is_empty() {
            return split_outside(inner.as_str(), ',');
        }
    }
    let none: Vec<String> = Vec::new();
    assert(none.deep_view() =~= Seq::<Seq<char>>::empty());
    none
}

fn member_of(s: &String) -> (r: (String, String))
    ensures
        r.deep_view() == member()(s.deep_view()),
{
    let p: Vec<String> = split_outside(s.as_str(), ':');
    let ghost pv = p.deep_view();
    assert(pv.len() == p@.len());
    assert(pv[0] == p@[0]@ && pv[pv.len() - 1] == p@[p@.len() - 1]@);
    (p[0].clone(), p[p.len() - 1].clone())
}

/// The members of an object: the texts of their keys and values.
pub fn members_of(s: &str) -> (r: Vec<(String, String)>)
    ensures
        r.deep_view() == members(s@),
{
    convert(whole(&items_of(s, '{')), member_of, Ghost(member()))
}

// ---------- names ------------------------------------------------------------------

/// The name that a key writes.
pub open spec fn name_of(key: Seq<char>) -> Option<Seq<char>> {
    match json_document(key) {
        Some(JsonView::Str(s)) => Some(s),
        _ => None,
    }
}

/// The names of the members of an object.
pub open spec fn names_of(ms: Seq<(Seq<char>, Seq<char>)>) -> Seq<Option<Seq<char>>> {
    ms.map_values(|m: (Seq<char>, Seq<char>)| name_of(m.0))
}

/// Whether one of some fields stands twice among some names.
pub open spec fn has_twice(names: Seq<Option<Seq<char>>>, fields: Seq<Seq<char>>) -> bool {
    exists|i: int, j: int|
        0 <= i < j < names.len() && #[trigger] names[i] == #[trigger] names[j] && (
        names[i] matches Some(n) && fields.contains(n))
}

/// Whether a text is an object that names one of some fields twice.
pub open spec fn repeats(s: Seq<char>, fields: Seq<Seq<char>>) -> bool {
    has_twice(names_of(members(s)), fields)
}

/// The text of the first member with a name.
pub open spec fn first_named(
    ms: Seq<(Seq<char>, Seq<char>)>,
    name: Seq<char>,
) -> Option<Seq<char>>
    decreases ms.len(),
{
    if ms.len() == 0 {
        None
    } else if name_of(ms[0].0) == Some(name) {
        Some(ms[0].1)
    } else {
        first_named(ms.skip(1), name)
    }
}

/// The text of a record's field: by its name in an object, by its place in a
/// list.
pub open spec fn part(s: Seq<char>, name: Seq<char>, place: int) -> Option<Seq<char>> {
    if opens(s, '[') {
        if place < items(s, '[').len() {
            Some(items(s, '[')[place])
        } else {
            None
        }
    } else {
        first_named(members(s), name)
    }
}

/// Whether a record's field, itself a record, names one of its fields twice.
pub open spec fn part_repeats(
    s: Seq<char>,
    name: Seq<char>,
    place: int,
    fields: Seq<Seq<char>>,
) -> bool {
    part(s, name, place) matches Some(t) && repeats(t, fields)
}

/// Whether a record's field, a choice written as an object, has more than one
/// member.
pub open spec fn choice_repeats(s: Seq<char>, name: Seq<char>, place: int) -> bool {
    part(s, name, place) matches Some(t) && members(t).len() > 1
}

/// Whether a record's field, a list of records, has one that names one of its
/// fields twice.
pub open spec fn item_repeats(
    s: Seq<char>,
    name: Seq<char>,
    place: int,
    fields: Seq<Seq<char>>,
) -> bool {
    part(s, name, place) matches Some(t) && any_repeats(items(t, '['), fields)
}

/// Whether one of some texts is an object that names one of some fields twice.
pub open spec fn any_repeats(s: Seq<Seq<char>>, fields: Seq<Seq<char>>) -> bool {
    exists|i: int| 0 <= i < s.len() && repeats(#[trigger] s[i], fields)
}

fn read_name(m: &(String, String)) -> (r: Option<String>)
    ensures
        r.deep_view() == (|m: (Seq<char>, Seq<char>)| name_of(m.0))(m.deep_view()),
{
    match parse_json(m.0.as_str()) {
        Some(Json::Str(s)) => Some(s),
        _ => None,
    }
}

fn is_among(fields: &[&str], name: &str) -> (r: bool)
    ensures
        r == fields.deep_view().contains(name@),
{
    let ghost all = fields.deep_view();
    let mut i: usize = 0;
    while i < fields.len()
        invariant
            all == fields.deep_view(),
            i <= fields@.len(),
            forall|k: int| 0 <= k < i ==> #[trigger] all[k] != name@,
        decreases fields@.len() - i,
    {
        assert(all[i as int] == fields@[i as int]@);
        if str_eq(fields[i], name) {
            return true;
        }
        i = i + 1;
    }
    false
}

/// Whether one of some fields stands twice among some names.
pub fn stands_twice(names: &Vec<Option<String>>, fields: &[&str]) -> (r: bool)
    ensures
        r == has_twice(names.deep_view(), fields.deep_view()),
{
    let ghost all = names.deep_view();
    let ghost fs = fields.deep_view();
    let mut i: usize = 0;
    while i < names.len()
        invariant
            all == names.deep_view(),
            fs == fields.deep_view(),
            i <= names@.len(),
            forall|a: int, b: int|
                0 <= a < i && a < b < all.len() && #[trigger] all[a] == #[trigger] all[b] ==> !(
                all[a] matches Some(n) && fs.contains(n)),
        decreases names@.len() - i,
    {
        assert(all[i as int] == names@[i as int].deep_view());
        match &names[i] {
            Some(n) => {
                if is_among(fields, n.as_str()) {
                    let mut j: usize = i + 1;
                    while j < names.len()
                        invariant
                            all == names.deep_view(),
                            fs == fields.deep_view(),
                            i < j <= names@.len(),
                            all[i as int] == Some(n@),
                            fs.contains(n@),
                            forall|b: int| i < b < j ==> #[trigger] all[b] != all[i as int],
                        decreases names@.len() - j,
                    {
                        assert(all[j as int] == names@[j as int].deep_view());
                        match &names[j] {
                            Some(m) => {
                                if str_eq(n.as_str(), m.as_str()) {
                                    assert(all[i as int] == all[j as int]);
                                    return true;
                                }
                            },
                            None => {},
                        }
                        j = j + 1;
                    }
                }
            },
            None => {},
        }
        i = i + 1;
    }
    false
}

/// Whether a text is an object that names one of some fields twice.
pub(crate) fn names_twice(s: &str, fields: &[&str]) -> (r: bool)
    ensures
        r == repeats(s@, fields.deep_view()),
{
    let ms: Vec<(String, String)> = members_of(s);
    let names: Vec<Option<String>> = convert(
        whole(&ms),
        read_name,
        Ghost(|m: (Seq<char>, Seq<char>)| name_of(m.0)),
    );
    assert(names.deep_view() =~= names_of(ms.deep_view()));
    stands_twice(&names, fields)
}

fn find_named(ms: &Vec<(String, String)>, name: &str) -> (r: Option<String>)
    ensures
        r.deep_view() == first_named(ms.deep_view(), name@),
{
    let ghost all = ms.deep_view();
    let mut i: usize = 0;
    assert(all.skip(0) =~= all);
    while i < ms.len()
        invariant
            all == ms.deep_view(),
            i <= ms@.len(),
            first_named(all, name@) == first_named(all.skip(i as int), name@),
        decreases ms@.len() - i,
    {
        assert(all[i as int] == ms@[i as int].deep_view());
        assert(all.skip(i as int)[0] == all[i as int]);
        assert(all.skip(i as int).skip(1) =~= all.skip(i + 1));
        match read_name(&ms[i]) {
            Some(n) => {
                if str_eq(n.as_str(), name) {
                    return Some(ms[i].1.clone());
                }
            },
            None => {},
        }
        i = i + 1;
    }
    None
}

/// The text of a record's field.
fn part_of(s: &str, name: &str, place: usize) -> (r: Option<String>)
    ensures
        r.deep_view() == part(s@, name@, place as int),
{
    let t: String = trim_text(s);
    let cs: Vec<char> = chars_of(t.as_str());
    if cs.len() >= 2 && cs[0] == '[' {
        let v: Vec<String> = items_of(s, '[');
        assert(v.deep_view().len() == v@.len());
        if place < v.len() {
            assert(v.deep_view()[place as int] == v@[place as int]@);
            Some(v[place].clone())
        } else {
            None
        }
    } else {
        find_named(&members_of(s), name)
    }
}

/// Whether a record's field, itself a record, names one of its fields twice.
pub(crate) fn part_names_twice(s: &str, name: &str, place: usize, fields: &[&str]) -> (r: bool)
    ensures
        r == part_repeats(s@, name@, place as int, fields.deep_view()),
{
    match part_of(s, name, place) {
        Some(t) => names_twice(t.as_str(), fields),
        None => false,
    }
}

/// Whether a record's field, a choice written as an object, has more than one
/// member.
pub(crate) fn choice_names_twice(s: &str, name: &str, place: usize) -> (r: bool)
    ensures
        r == choice_repeats(s@, name@, place as int),
{
    match part_of(s, name, place) {
        Some(t) => {
            let ms: Vec<(String, String)> = members_of(t.as_str());
            assert(ms.deep_view().len() == ms@.len());
            ms.len() > 1
        },
        None => false,
    }
}

/// Whether one of some texts is an object that names one of some fields twice.
fn one_names_twice(v: &Vec<String>, fields: &[&str]) -> (r: bool)
    ensures
        r == any_repeats(v.deep_view(), fields.deep_view()),
{
    let ghost all = v.deep_view();
    let mut i: usize = 0;
    while i < v.len()
        invariant
            all == v.deep_view(),
            i <= v@.len(),
            forall|k: int| 0 <= k < i ==> !repeats(#[trigger] all[k], fields.deep_view()),
        decreases v@.len() - i,
    {
        assert(all[i as int] == v@[i as int]@);
        if names_twice(v[i].as_str(), fields) {
            assert(repeats(all[i as int], fields.deep_view()));
            return true;
        }
        i = i + 1;
    }
    false
}

/// Whether a record's field, a list of records, has one that names one of its
/// fields twice.
pub(crate) fn item_names_twice(s: &str, name: &str, place: usize, fields: &[&str]) -> (r: bool)
    ensures
        r == item_repeats(s@, name@, place as int, fields.deep_view()),
{
    match part_of(s, name, place) {
        Some(t) => one_names_twice(&items_of(t.as_str(), '['), fields),
        None => false,
    }
}

} // verus!
