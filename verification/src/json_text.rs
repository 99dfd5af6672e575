//! JSON values as text, without spaces.

use vstd::prelude::*;
use vstd::string::*;

use crate::json::{json_view, Json, JsonView};
use crate::json_parse::{quoted, write_quoted};
use crate::order::{text_before, text_lt};
use crate::seqs::push_item;
use crate::text::{flat, i64_text, join_texts, joined, signed_decimal, u64_text, Parts};

verus! {

/// A value as text: lists in square and objects in curly brackets, with commas
/// and colons and nothing else between. The fields of an object stand in the
/// order of their keys. Texts are quoted as `serde_json` quotes them.
pub open spec fn json_text(j: JsonView) -> Seq<char>
    decreases j,
{
    match j {
        JsonView::Null => "null"@,
        JsonView::Bool(b) => if b {
            "true"@
        } else {
            "false"@
        },
        JsonView::Int(n) => signed_decimal(n),
        JsonView::Real(t) => t,
        JsonView::Str(s) => quoted(s),
        JsonView::Array(v) => flat(seq!["["@, joined(item_texts(v), ","@), "]"@]),
        JsonView::Object(v) => flat(
            seq!["{"@, joined(seconds(by_key(field_texts(v))), ","@), "}"@],
        ),
    }
}

/// The values of a list as texts.
pub open spec fn item_texts(v: Seq<JsonView>) -> Seq<Seq<char>>
    decreases v,
{
    Seq::new(
        v.len(),
        |i: int|
            if 0 <= i < v.len() {
                json_text(v[i])
            } else {
                Seq::empty()
            },
    )
}

/// The keys of an object, each with its key and value as text.
pub open spec fn field_texts(v: Seq<(Seq<char>, JsonView)>) -> Seq<(Seq<char>, Seq<char>)>
    decreases v,
{
    Seq::new(
        v.len(),
        |i: int|
            if 0 <= i < v.len() {
                (v[i].0, flat(seq![quoted(v[i].0), ":"@, json_text(v[i].1)]))
            } else {
                (Seq::empty(), Seq::empty())
            },
    )
}

/// Puts a keyed text behind the last whose key does not come after its own.
pub open spec fn insert_by_key(
    s: Seq<(Seq<char>, Seq<char>)>,
    x: (Seq<char>, Seq<char>),
) -> Seq<(Seq<char>, Seq<char>)>
    decreases s.len(),
{
    if s.len() == 0 || !text_lt(x.0, s.last().0) {
        s.push(x)
    } else {
        insert_by_key(s.drop_last(), x).push(s.last())
    }
}

/// Keyed texts in the order of their keys.
pub open spec fn by_key(s: Seq<(Seq<char>, Seq<char>)>) -> Seq<(Seq<char>, Seq<char>)>
    decreases s.len(),
{
    if s.len() == 0 {
        Seq::empty()
    } else {
        insert_by_key(by_key(s.drop_last()), s.last())
    }
}

/// The texts of keyed texts.
pub open spec fn seconds(s: Seq<(Seq<char>, Seq<char>)>) -> Seq<Seq<char>> {
    s.map_values(|x: (Seq<char>, Seq<char>)| x.1)
}

/// Where everything from `pos` on comes after `x` and what stands before it
/// does not, insertion happens at `pos`.
proof fn insert_by_key_at(s: Seq<(Seq<char>, Seq<char>)>, x: (Seq<char>, Seq<char>), pos: int)
    requires
        0 <= pos <= s.len(),
        pos > 0 ==> !text_lt(x.0, s[pos - 1].0),
        forall|i: int| pos <= i < s.len() ==> text_lt(x.0, (#[trigger] s[i]).0),
    ensures
        insert_by_key(s, x) == s.insert(pos, x),
    decreases s.len(),
{
    if pos == s.len() {
        assert(s.insert(pos, x) =~= s.push(x));
    } else {
        assert(text_lt(x.0, s[s.len() - 1].0));
        let t = s.drop_last();
        assert forall|i: int| pos <= i < t.len() implies text_lt(x.0, (#[trigger] t[i]).0) by {
            assert(t[i] == s[i]);
        }
        insert_by_key_at(t, x, pos);
        assert(s.insert(pos, x) =~= t.insert(pos, x).push(s.last()));
    }
}

/// Puts a keyed text among others.
fn put_by_key(v: &mut Vec<(String, String)>, x: (String, String))
    ensures
        final(v).deep_view() == insert_by_key(old(v).deep_view(), x.deep_view()),
{
    let ghost all = v.deep_view();
    let ghost xv = x.deep_view();
    let mut pos: usize = v.len();
    while pos > 0 && text_before(x.0.as_str(), v[pos - 1].0.as_str())
        invariant
            *v == *old(v),
            all == v.deep_view(),
            xv == x.deep_view(),
            pos <= v@.len(),
            forall|i: int| pos <= i < all.len() ==> text_lt(xv.0, (#[trigger] all[i]).0),
        decreases pos,
    {
        pos = pos - 1;
        assert(all[pos as int] == v@[pos as int].deep_view());
    }
    proof {
        if pos > 0 {
            assert(all[pos - 1] == v@[pos - 1].deep_view());
        }
        insert_by_key_at(all, xv, pos as int);
    }
    v.insert(pos, x);
    assert(v.deep_view() =~= all.insert(pos as int, xv));
}

/// The texts of keyed texts.
fn texts_of(v: &Vec<(String, String)>) -> (r: Vec<String>)
    ensures
        r.deep_view() == seconds(v.deep_view()),
{
    let ghost want = seconds(v.deep_view());
    let mut out: Vec<String> = Vec::new();
    let mut i: usize = 0;
    assert(out.deep_view() =~= want.take(0));
    while i < v.len()
        invariant
            want == seconds(v.deep_view()),
            i <= v@.len(),
            out.deep_view() == want.take(i as int),
        decreases v@.len() - i,
    {
        assert(v.deep_view()[i as int] == v@[i as int].deep_view());
        push_item(&mut out, v[i].1.clone());
        assert(want.take(i + 1) =~= want.take(i as int).push(want[i as int]));
        i = i + 1;
    }
    assert(want.take(want.len() as int) =~= want);
    out
}

/// A value as text.
#[verifier::loop_isolation(false)]
pub fn text_of_json(j: &Json) -> (r: String)
    ensures
        r@ == json_text(j@),
    decreases *j,
{
    match j {
        Json::Null => "null".to_owned(),
        Json::Bool(b) => if *b {
            "true".to_owned()
        } else {
            "false".to_owned()
        },
        Json::U64(n) => u64_text(*n),
        Json::I64(n) => i64_text(*n),
        Json::Real(t) => t.clone(),
        Json::Str(s) => write_quoted(s.as_str()),
        Json::Array(v) => {
            let ghost jv = j@->Array_0;
            let ghost want = item_texts(jv);
            let mut parts: Vec<String> = Vec::new();
            let mut i: usize = 0;
            assert(parts.deep_view() =~= want.take(0));
            while i < v.len()
                invariant
                    *j == Json::Array(*v),
                    i <= v@.len(),
                    parts.deep_view() == want.take(i as int),
                decreases v@.len() - i,
            {
                assert(decreases_to!(*v => v[i as int]));
                assert(jv[i as int] == json_view(v[i as int]));
                push_item(&mut parts, text_of_json(&v[i]));
                assert(want.take(i + 1) =~= want.take(i as int).push(want[i as int]));
                i = i + 1;
            }
            assert(want.take(want.len() as int) =~= want);
            let mut t = Parts::new();
            t.add("[");
            t.add(join_texts(&parts, ",").as_str());
            t.add("]");
            t.finish()
        },
        Json::Object(v) => {
            let ghost jv = j@->Object_0;
            let ghost want = field_texts(jv);
            let mut parts: Vec<(String, String)> = Vec::new();
            let mut i: usize = 0;
            assert(parts.deep_view() =~= by_key(want.take(0)));
            while i < v.len()
                invariant
                    *j == Json::Object(*v),
                    i <= v@.len(),
                    parts.deep_view() == by_key(want.take(i as int)),
                decreases v@.len() - i,
            {
                let f: &(String, Json) = &v[i];
                assert(decreases_to!(*v => v[i as int]));
                assert(jv[i as int] == (f.0@, json_view(f.1)));
                let mut p = Parts::new();
                p.add(write_quoted(f.0.as_str()).as_str());
                p.add(":");
                p.add(text_of_json(&f.1).as_str());
                put_by_key(&mut parts, (f.0.clone(), p.finish()));
                assert(want.take(i + 1).drop_last() =~= want.take(i as int));
                i = i + 1;
            }
            assert(want.take(want.len() as int) =~= want);
            let mut t = Parts::new();
            t.add("{");
            t.add(join_texts(&texts_of(&parts), ",").as_str());
            t.add("}");
            t.finish()
        },
    }
}

} // verus!
