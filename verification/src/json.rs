//! Structured payloads: a JSON value, what it holds, and how fields are read
//! from it.

use vstd::prelude::*;
use vstd::string::*;

use crate::text::str_eq;

verus! {

/// A JSON value. Numbers with a fraction or an exponent keep their text.
#[derive(Debug)]
pub enum Json {
    Null,
    Bool(bool),
    U64(u64),
    I64(i64),
    Real(String),
    Str(String),
    Array(Vec<Json>),
    Object(Vec<(String, Json)>),
}

/// What a JSON value holds.
pub enum JsonView {
    Null,
    Bool(bool),
    Int(int),
    Real(Seq<char>),
    Str(Seq<char>),
    Array(Seq<JsonView>),
    Object(Seq<(Seq<char>, JsonView)>),
}

/// What a JSON value holds, taken recursively.
pub open spec fn json_view(j: Json) -> JsonView
    decreases j,
{
    match j {
        Json::Null => JsonView::Null,
        Json::Bool(b) => JsonView::Bool(b),
        Json::U64(n) => JsonView::Int(n as int),
        Json::I64(n) => JsonView::Int(n as int),
        Json::Real(s) => JsonView::Real(s@),
        Json::Str(s) => JsonView::Str(s@),
        Json::Array(v) => JsonView::Array(
            Seq::new(
                v@.len(),
                |i: int|
                    if 0 <= i < v@.len() {
                        json_view(v[i])
                    } else {
                        JsonView::Null
                    },
            ),
        ),
        Json::Object(v) => JsonView::Object(
            Seq::new(
                v@.len(),
                |i: int|
                    if 0 <= i < v@.len() {
                        (v[i].0@, json_view(v[i].1))
                    } else {
                        (Seq::empty(), JsonView::Null)
                    },
            ),
        ),
    }
}

impl View for Json {
    type V = JsonView;

    open spec fn view(&self) -> JsonView {
        json_view(*self)
    }
}

impl DeepView for Json {
    type V = JsonView;

    open spec fn deep_view(&self) -> JsonView {
        json_view(*self)
    }
}

/// The value of the first entry with the key.
pub open spec fn entry(fields: Seq<(Seq<char>, JsonView)>, key: Seq<char>) -> Option<JsonView>
    decreases fields.len(),
{
    if fields.len() == 0 {
        None
    } else if fields[0].0 == key {
        Some(fields[0].1)
    } else {
        entry(fields.skip(1), key)
    }
}

impl JsonView {
    /// The value under a key of an object.
    pub open spec fn get(self, key: Seq<char>) -> Option<JsonView> {
        match self {
            JsonView::Object(fields) => entry(fields, key),
            _ => None,
        }
    }

    /// The text of a string.
    pub open spec fn as_str(self) -> Option<Seq<char>> {
        match self {
            JsonView::Str(s) => Some(s),
            _ => None,
        }
    }

    /// An integer that a `u64` holds.
    pub open spec fn as_u64(self) -> Option<u64> {
        match self {
            JsonView::Int(n) => if 0 <= n <= u64::MAX {
                Some(n as u64)
            } else {
                None
            },
            _ => None,
        }
    }

    /// An integer that an `i64` holds.
    pub open spec fn as_i64(self) -> Option<i64> {
        match self {
            JsonView::Int(n) => if i64::MIN <= n <= i64::MAX {
                Some(n as i64)
            } else {
                None
            },
            _ => None,
        }
    }

    /// An integer that a `u32` holds.
    pub open spec fn as_u32(self) -> Option<u32> {
        match self {
            JsonView::Int(n) => if 0 <= n <= u32::MAX {
                Some(n as u32)
            } else {
                None
            },
            _ => None,
        }
    }

    /// A truth value.
    pub open spec fn as_bool(self) -> Option<bool> {
        match self {
            JsonView::Bool(b) => Some(b),
            _ => None,
        }
    }

    /// The elements of an array.
    pub open spec fn as_array(self) -> Option<Seq<JsonView>> {
        match self {
            JsonView::Array(v) => Some(v),
            _ => None,
        }
    }

    /// The string under a key.
    pub open spec fn str_at(self, key: Seq<char>) -> Option<Seq<char>> {
        match self.get(key) {
            Some(v) => v.as_str(),
            None => None,
        }
    }

    /// The `u64` under a key.
    pub open spec fn u64_at(self, key: Seq<char>) -> Option<u64> {
        match self.get(key) {
            Some(v) => v.as_u64(),
            None => None,
        }
    }

    /// The `u32` under a key.
    pub open spec fn u32_at(self, key: Seq<char>) -> Option<u32> {
        match self.get(key) {
            Some(v) => v.as_u32(),
            None => None,
        }
    }

    /// The truth value under a key.
    pub open spec fn bool_at(self, key: Seq<char>) -> Option<bool> {
        match self.get(key) {
            Some(v) => v.as_bool(),
            None => None,
        }
    }
}

/// A string, or null where there is none.
pub open spec fn opt_str(s: Option<Seq<char>>) -> JsonView {
    match s {
        Some(t) => JsonView::Str(t),
        None => JsonView::Null,
    }
}

/// An integer, or null where there is none.
pub open spec fn opt_int(n: Option<int>) -> JsonView {
    match n {
        Some(i) => JsonView::Int(i),
        None => JsonView::Null,
    }
}

/// An optional `u64` as an optional integer.
pub open spec fn int_of_u64(n: Option<u64>) -> Option<int> {
    match n {
        Some(i) => Some(i as int),
        None => None,
    }
}

/// An optional `u32` as an optional integer.
pub open spec fn int_of_u32(n: Option<u32>) -> Option<int> {
    match n {
        Some(i) => Some(i as int),
        None => None,
    }
}

/// The elements of an array of strings.
pub open spec fn str_array(s: Seq<Seq<char>>) -> JsonView {
    JsonView::Array(Seq::new(s.len(), |i: int| JsonView::Str(s[i])))
}

/// The view of an object is the object of its fields' views.
pub(crate) proof fn object_view(v: Vec<(String, Json)>)
    ensures
        json_view(Json::Object(v)) == JsonView::Object(v.deep_view()),
{
    assert(json_view(Json::Object(v))->Object_0 =~= v.deep_view());
}

/// The view of an array is the array of its elements' views.
pub(crate) proof fn array_view(v: Vec<Json>)
    ensures
        json_view(Json::Array(v)) == JsonView::Array(v.deep_view()),
{
    assert(json_view(Json::Array(v))->Array_0 =~= v.deep_view());
}

/// A field, where there is a value for it.
pub open spec fn field(key: Seq<char>, value: Option<JsonView>) -> Seq<(Seq<char>, JsonView)> {
    match value {
        Some(v) => seq![(key, v)],
        None => Seq::empty(),
    }
}

/// Adds a field at the end of an object under construction.
pub fn put(fields: &mut Vec<(String, Json)>, key: &str, value: Json)
    ensures
        final(fields).deep_view() == old(fields).deep_view().push((key@, value@)),
{
    fields.push((key.to_owned(), value));
    assert(fields.deep_view() =~= old(fields).deep_view().push((key@, value@)));
}

/// Copies an optional string.
pub fn copy_opt(s: &Option<String>) -> (r: Option<String>)
    ensures
        r == *s,
        r.deep_view() == s.deep_view(),
{
    match s {
        Some(t) => Some(t.clone()),
        None => None,
    }
}

/// Copies a list of strings.
pub fn copy_strings(v: &Vec<String>) -> (r: Vec<String>)
    ensures
        r@ == v@,
        r.deep_view() == v.deep_view(),
{
    let mut out: Vec<String> = Vec::new();
    let mut i: usize = 0;
    while i < v.len()
        invariant
            i <= v@.len(),
            out@ == v@.take(i as int),
        decreases v@.len() - i,
    {
        out.push(v[i].clone());
        i = i + 1;
        assert(out@ =~= v@.take(i as int));
    }
    assert(out@ =~= v@);
    assert(out.deep_view() =~= v.deep_view());
    out
}

/// Copies a value in full.
#[verifier::loop_isolation(false)]
fn copy_json(j: &Json) -> (r: Json)
    ensures
        r@ == j@,
    decreases *j,
{
    match j {
        Json::Null => Json::Null,
        Json::Bool(b) => Json::Bool(*b),
        Json::U64(n) => Json::U64(*n),
        Json::I64(n) => Json::I64(*n),
        Json::Real(s) => Json::Real(s.clone()),
        Json::Str(s) => Json::Str(s.clone()),
        Json::Array(v) => {
            let mut out: Vec<Json> = Vec::new();
            let mut i: usize = 0;
            while i < v.len()
                invariant
                    *j == Json::Array(*v),
                    i <= v@.len(),
                    out@.len() == i,
                    forall|k: int| 0 <= k < i ==> json_view(#[trigger] out@[k]) == json_view(v@[k]),
                decreases v@.len() - i,
            {
                assert(decreases_to!(*v => v[i as int]));
                out.push(copy_json(&v[i]));
                i = i + 1;
            }
            let r = Json::Array(out);
            assert(json_view(r)->Array_0 =~= json_view(*j)->Array_0);
            r
        },
        Json::Object(v) => {
            let mut out: Vec<(String, Json)> = Vec::new();
            let mut i: usize = 0;
            while i < v.len()
                invariant
                    *j == Json::Object(*v),
                    i <= v@.len(),
                    out@.len() == i,
                    forall|k: int|
                        0 <= k < i ==> (#[trigger] out@[k]).0@ == v@[k].0@ && json_view(out@[k].1)
                            == json_view(v@[k].1),
                decreases v@.len() - i,
            {
                let f: &(String, Json) = &v[i];
                assert(decreases_to!(*v => v[i as int]));
                out.push((f.0.clone(), copy_json(&f.1)));
                i = i + 1;
            }
            let r = Json::Object(out);
            assert(json_view(r)->Object_0 =~= json_view(*j)->Object_0);
            r
        },
    }
}

impl Clone for Json {
    fn clone(&self) -> (r: Self)
        ensures
            r@ == self@,
    {
        copy_json(self)
    }
}

impl Json {
    /// A string value.
    pub fn text(s: &str) -> (r: Json)
        ensures
            r@ == JsonView::Str(s@),
    {
        Json::Str(s.to_owned())
    }

    /// A string, or null.
    pub fn opt_text(s: &Option<String>) -> (r: Json)
        ensures
            r@ == opt_str(s.deep_view()),
    {
        match s {
            Some(t) => Json::Str(t.clone()),
            None => Json::Null,
        }
    }

    /// A number, or null.
    pub fn opt_u64(n: Option<u64>) -> (r: Json)
        ensures
            r@ == opt_int(int_of_u64(n)),
    {
        match n {
            Some(i) => Json::U64(i),
            None => Json::Null,
        }
    }

    /// A number, or null.
    pub fn opt_u32(n: Option<u32>) -> (r: Json)
        ensures
            r@ == opt_int(int_of_u32(n)),
    {
        match n {
            Some(i) => Json::U64(i as u64),
            None => Json::Null,
        }
    }

    /// An array of strings.
    pub fn text_array(v: &Vec<String>) -> (r: Json)
        ensures
            r@ == str_array(v.deep_view()),
    {
        let mut out: Vec<Json> = Vec::new();
        let mut i: usize = 0;
        while i < v.len()
            invariant
                i <= v@.len(),
                out@.len() == i,
                forall|k: int| 0 <= k < i ==> json_view(#[trigger] out@[k]) == JsonView::Str(v@[k]@),
            decreases v@.len() - i,
        {
            out.push(Json::Str(v[i].clone()));
            i = i + 1;
        }
        let r = Json::Array(out);
        assert(json_view(r)->Array_0 =~= str_array(v.deep_view())->Array_0);
        r
    }

    /// An array of the given values.
    pub fn array(v: Vec<Json>) -> (r: Json)
        ensures
            r@ == JsonView::Array(v.deep_view()),
    {
        proof {
            array_view(v);
        }
        Json::Array(v)
    }

    /// An object of the given fields.
    pub fn object(fields: Vec<(String, Json)>) -> (r: Json)
        ensures
            r@ == JsonView::Object(fields.deep_view()),
    {
        proof {
            object_view(fields);
        }
        Json::Object(fields)
    }

    /// The value under a key, if this is an object that has it.
    pub fn get(&self, key: &str) -> (r: Option<&Json>)
        ensures
            r.deep_view() == self@.get(key@),
    {
        match self {
            Json::Object(v) => {
                proof {
                    object_view(*v);
                }
                let ghost all = v.deep_view();
                let mut i: usize = 0;
                assert(all.skip(0) =~= all);
                while i < v.len()
                    invariant
                        self@ == JsonView::Object(all),
                        all == v.deep_view(),
                        i <= v@.len(),
                        entry(all, key@) == entry(all.skip(i as int), key@),
                    decreases v@.len() - i,
                {
                    let f: &(String, Json) = &v[i];
                    assert(all.skip(i as int)[0] == (f.0@, f.1@));
                    if str_eq(f.0.as_str(), key) {
                        return Some(&f.1);
                    }
                    assert(all.skip(i as int).skip(1) =~= all.skip(i + 1));
                    i = i + 1;
                }
                None
            },
            _ => None,
        }
    }

    /// The text of a string value.
    pub fn as_str(&self) -> (r: Option<&str>)
        ensures
            r.deep_view() == self@.as_str(),
    {
        match self {
            Json::Str(s) => Some(s.as_str()),
            _ => None,
        }
    }

    /// The number, if it is an integer that a `u64` holds.
    pub fn as_u64(&self) -> (r: Option<u64>)
        ensures
            r == self@.as_u64(),
    {
        match self {
            Json::U64(n) => Some(*n),
            Json::I64(n) => if *n >= 0 {
                Some(*n as u64)
            } else {
                None
            },
            _ => None,
        }
    }

    /// The number, if it is an integer that an `i64` holds.
    pub fn as_i64(&self) -> (r: Option<i64>)
        ensures
            r == self@.as_i64(),
    {
        match self {
            Json::U64(n) => if *n <= i64::MAX as u64 {
                Some(*n as i64)
            } else {
                None
            },
            Json::I64(n) => Some(*n),
            _ => None,
        }
    }

    /// The truth value.
    pub fn as_bool(&self) -> (r: Option<bool>)
        ensures
            r == self@.as_bool(),
    {
        match self {
            Json::Bool(b) => Some(*b),
            _ => None,
        }
    }

    /// The elements of an array.
    pub fn as_array(&self) -> (r: Option<&Vec<Json>>)
        ensures
            r.deep_view() == self@.as_array(),
    {
        match self {
            Json::Array(v) => {
                proof {
                    array_view(*v);
                }
                Some(v)
            },
            _ => None,
        }
    }

    /// Whether this is null.
    pub fn is_null(&self) -> (r: bool)
        ensures
            r == (self@ == JsonView::Null),
    {
        match self {
            Json::Null => true,
            _ => false,
        }
    }

    /// The string under a key.
    pub fn str_at(&self, key: &str) -> (r: Option<&str>)
        ensures
            r.deep_view() == self@.str_at(key@),
    {
        match self.get(key) {
            Some(v) => v.as_str(),
            None => None,
        }
    }

    /// The string under a key, owned.
    pub fn string_at(&self, key: &str) -> (r: Option<String>)
        ensures
            r.deep_view() == self@.str_at(key@),
    {
        match self.str_at(key) {
            Some(s) => Some(s.to_owned()),
            None => None,
        }
    }

    /// The `u64` under a key.
    pub fn u64_at(&self, key: &str) -> (r: Option<u64>)
        ensures
            r == self@.u64_at(key@),
    {
        match self.get(key) {
            Some(v) => v.as_u64(),
            None => None,
        }
    }

    /// The `u32` under a key; a larger number counts as absent.
    pub fn u32_at(&self, key: &str) -> (r: Option<u32>)
        ensures
            r == self@.u32_at(key@),
    {
        match self.u64_at(key) {
            Some(n) => if n <= u32::MAX as u64 {
                Some(n as u32)
            } else {
                None
            },
            None => None,
        }
    }

    /// The truth value under a key.
    pub fn bool_at(&self, key: &str) -> (r: Option<bool>)
        ensures
            r == self@.bool_at(key@),
    {
        match self.get(key) {
            Some(v) => v.as_bool(),
            None => None,
        }
    }
}

} // verus!
