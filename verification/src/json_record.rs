//! Records written as JSON: as an object by the names of their fields, or as a
//! list of their values in the order of the fields.

use vstd::prelude::*;
use vstd::string::*;

use crate::json::{put, Json, JsonView};

verus! {

/// A record by the names of its fields. Of a list with at least `least` and at
/// most all of the values, each value goes under its name; any other list is no
/// record. Anything else stays as it is.
pub open spec fn record(j: JsonView, names: Seq<Seq<char>>, least: int) -> JsonView {
    match j {
        JsonView::Array(v) => if least <= v.len() <= names.len() {
            JsonView::Object(Seq::new(v.len(), |i: int| (names[i], v[i])))
        } else {
            JsonView::Null
        },
        other => other,
    }
}

/// A list of values as a record.
pub(crate) fn record_of(v: &Vec<Json>, names: &[&str], least: usize) -> (r: Json)
    ensures
        r@ == record(JsonView::Array(v.deep_view()), names.deep_view(), least as int),
{
    let ghost all = v.deep_view();
    let ghost ns = names.deep_view();
    if v.len() < least || v.len() > names.len() {
        return Json::Null;
    }
    let ghost want = Seq::new(all.len(), |i: int| (ns[i], all[i]));
    let mut f: Vec<(String, Json)> = Vec::new();
    let mut i: usize = 0;
    assert(f.deep_view() =~= want.take(0));
    while i < v.len()
        invariant
            all == v.deep_view(),
            ns == names.deep_view(),
            v@.len() <= names@.len(),
            want == Seq::new(all.len(), |i: int| (ns[i], all[i])),
            i <= v@.len(),
            f.deep_view() == want.take(i as int),
        decreases v@.len() - i,
    {
        assert(all[i as int] == v@[i as int]@);
        assert(ns[i as int] == names@[i as int]@);
        put(&mut f, names[i], v[i].clone());
        assert(want.take(i + 1) =~= want.take(i as int).push(want[i as int]));
        i = i + 1;
    }
    assert(want.take(want.len() as int) =~= want);
    assert(f.deep_view() =~= want);
    Json::object(f)
}

/// The name of a choice without values: a text, or an object that has nothing
/// but null under the name.
pub open spec fn choice_of(j: JsonView) -> Option<Seq<char>> {
    match j {
        JsonView::Str(s) => Some(s),
        JsonView::Object(f) => if f.len() == 1 && f[0].1 == JsonView::Null {
            Some(f[0].0)
        } else {
            None
        },
        _ => None,
    }
}

/// The name of a choice without values.
pub(crate) fn read_choice(j: &Json) -> (r: Option<String>)
    ensures
        r.deep_view() == choice_of(j@),
{
    match j {
        Json::Str(s) => Some(s.clone()),
        Json::Object(f) => if f.len() == 1 && f[0].1.is_null() {
            assert(j@->Object_0[0] == (f@[0].0@, f@[0].1@));
            Some(f[0].0.clone())
        } else {
            assert(f@.len() == 1 ==> j@->Object_0[0] == (f@[0].0@, f@[0].1@));
            None
        },
        _ => None,
    }
}

} // verus!
