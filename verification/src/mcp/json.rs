use vstd::prelude::*;

use crate::num::{all_digits, digits_from, digits_value};
use crate::text::{chars_of, decimal_string, decimal_text, signed_decimal_string, signed_decimal_text, str_eq};

verus! {

/// A JSON value. A number is held as the text JSON writes it (`42`, `-3`,
/// `2.5e3`).
#[derive(Debug, PartialEq)]
pub enum Json {
    Null,
    Bool(bool),
    Number(String),
    Str(String),
    Array(Vec<Json>),
    Object(Vec<(String, Json)>),
}

/// A JSON value as plain values.
pub enum JsonView {
    Null,
    Bool(bool),
    Number(Seq<char>),
    Str(Seq<char>),
    Array(Seq<JsonView>),
    Object(Seq<(Seq<char>, JsonView)>),
}

/// The plain value of a JSON value.
pub open spec fn json_view(j: Json) -> JsonView
    decreases j, 0int,
{
    match j {
        Json::Null => JsonView::Null,
        Json::Bool(b) => JsonView::Bool(b),
        Json::Number(n) => JsonView::Number(n@),
        Json::Str(s) => JsonView::Str(s@),
        Json::Array(v) => JsonView::Array(json_views(v@, v@.len() as int)),
        Json::Object(fields) => JsonView::Object(field_views(fields@, fields@.len() as int)),
    }
}

/// The plain values of the first `n` elements.
pub open spec fn json_views(s: Seq<Json>, n: int) -> Seq<JsonView>
    decreases s, n,
{
    if n <= 0 || n > s.len() {
        Seq::empty()
    } else {
        json_views(s, n - 1).push(json_view(s[n - 1]))
    }
}

/// The plain values of the first `n` fields.
pub open spec fn field_views(s: Seq<(String, Json)>, n: int) -> Seq<(Seq<char>, JsonView)>
    decreases s, n,
{
    if n <= 0 || n > s.len() {
        Seq::empty()
    } else {
        field_views(s, n - 1).push((s[n - 1].0@, json_view(s[n - 1].1)))
    }
}

impl View for Json {
    type V = JsonView;

    open spec fn view(&self) -> JsonView {
        json_view(*self)
    }
}

/// Element `k` of the plain values is the plain value of element `k`.
pub proof fn lemma_json_views_index(s: Seq<Json>, n: int, k: int)
    requires
        0 <= k < n <= s.len(),
    ensures
        json_views(s, n).len() == n,
        json_views(s, n)[k] == json_view(s[k]),
    decreases n,
{
    lemma_json_views_len(s, n);
    if k < n - 1 {
        lemma_json_views_index(s, n - 1, k);
    }
}

proof fn lemma_json_views_len(s: Seq<Json>, n: int)
    requires
        0 <= n <= s.len(),
    ensures
        json_views(s, n).len() == n,
    decreases n,
{
    if n > 0 {
        lemma_json_views_len(s, n - 1);
    }
}

/// Field `k` of the plain values is the plain value of field `k`.
pub proof fn lemma_field_views_index(s: Seq<(String, Json)>, n: int, k: int)
    requires
        0 <= k < n <= s.len(),
    ensures
        field_views(s, n).len() == n,
        field_views(s, n)[k] == (s[k].0@, json_view(s[k].1)),
    decreases n,
{
    lemma_field_views_len(s, n);
    if k < n - 1 {
        lemma_field_views_index(s, n - 1, k);
    }
}

proof fn lemma_field_views_len(s: Seq<(String, Json)>, n: int)
    requires
        0 <= n <= s.len(),
    ensures
        field_views(s, n).len() == n,
    decreases n,
{
    if n > 0 {
        lemma_field_views_len(s, n - 1);
    }
}

/// Among fields `k..`, the value of the first named `key`.
pub open spec fn field_from(fields: Seq<(Seq<char>, JsonView)>, key: Seq<char>, k: int) -> Option<JsonView>
    decreases fields.len() - k,
{
    if k < 0 || k >= fields.len() {
        None
    } else if fields[k].0 == key {
        Some(fields[k].1)
    } else {
        field_from(fields, key, k + 1)
    }
}

/// The value of field `key` of an object; nothing for other values.
pub open spec fn get_field(j: JsonView, key: Seq<char>) -> Option<JsonView> {
    match j {
        JsonView::Object(fields) => field_from(fields, key, 0),
        _ => None,
    }
}

/// The text of a string value.
pub open spec fn as_str_spec(j: Option<JsonView>) -> Option<Seq<char>> {
    match j {
        Some(JsonView::Str(s)) => Some(s),
        _ => None,
    }
}

/// The value of a number written as plain decimal digits that fits in
/// `u64` (what `serde_json::Value::as_u64` reads); nothing for any other
/// value.
pub open spec fn as_u64_spec(j: Option<JsonView>) -> Option<u64> {
    match j {
        Some(JsonView::Number(t)) => if all_digits(t) && digits_value(t) <= u64::MAX {
            Some(digits_value(t) as u64)
        } else {
            None
        },
        _ => None,
    }
}

/// The field is absent or `null`.
pub open spec fn absent_or_null(j: Option<JsonView>) -> bool {
    j is None || j == Some(JsonView::Null)
}

impl Json {
    /// The value of field `key` of an object; `None` for other values.
    pub fn get(&self, key: &str) -> (r: Option<&Json>)
        ensures
            match r {
                Some(v) => get_field(self@, key@) == Some(v@),
                None => get_field(self@, key@) is None,
            },
    {
        match self {
            Json::Object(fields) => {
                let ghost fv = field_views(fields@, fields@.len() as int);
                proof {
                    lemma_field_views_len(fields@, fields@.len() as int);
                }
                assert(self@ == JsonView::Object(fv));
                let mut k: usize = 0;
                while k < fields.len()
                    invariant
                        self@ == JsonView::Object(fv),
                        k <= fields@.len(),
                        fv == field_views(fields@, fields@.len() as int),
                        fv.len() == fields@.len(),
                        field_from(fv, key@, k as int) == field_from(fv, key@, 0),
                    decreases fields@.len() - k,
                {
                    proof {
                        lemma_field_views_index(fields@, fields@.len() as int, k as int);
                    }
                    if str_eq(fields[k].0.as_str(), key) {
                        return Some(&fields[k].1);
                    }
                    k = k + 1;
                }
                None
            },
            _ => None,
        }
    }

    /// The text of a string value.
    pub fn as_str(&self) -> (r: Option<&str>)
        ensures
            match r {
                Some(s) => as_str_spec(Some(self@)) == Some(s@),
                None => as_str_spec(Some(self@)) is None,
            },
    {
        match self {
            Json::Str(s) => Some(s.as_str()),
            _ => None,
        }
    }

    /// The value of a non-negative integer number that fits in `u64`.
    pub fn as_u64(&self) -> (r: Option<u64>)
        ensures
            r == as_u64_spec(Some(self@)),
    {
        match self {
            Json::Number(t) => {
                let cs = chars_of(t.as_str());
                proof {
                    assert(cs@.skip(0) =~= cs@);
                }
                digits_from(cs.as_slice(), 0, u64::MAX)
            },
            _ => None,
        }
    }

    /// Whether this is `null`.
    pub fn is_null(&self) -> (b: bool)
        ensures
            b == (self@ == JsonView::Null),
    {
        match self {
            Json::Null => true,
            _ => false,
        }
    }

    /// A string value.
    pub fn string(s: &str) -> (j: Json)
        ensures
            j@ == JsonView::Str(s@),
    {
        Json::Str(String::from_str(s))
    }

    /// A number value for `n`.
    pub fn unsigned(n: u64) -> (j: Json)
        ensures
            j@ == JsonView::Number(decimal_text(n as nat)),
    {
        Json::Number(decimal_string(n))
    }

    /// A number value for `n`.
    pub fn signed(n: i64) -> (j: Json)
        ensures
            j@ == JsonView::Number(signed_decimal_text(n as int)),
    {
        Json::Number(signed_decimal_string(n))
    }

    /// An array of the given values.
    pub fn array(items: Vec<Json>) -> (j: Json)
        ensures
            j@ == JsonView::Array(json_views(items@, items@.len() as int)),
    {
        Json::Array(items)
    }

    /// An object of the given fields, in order.
    pub fn object(fields: Vec<(String, Json)>) -> (j: Json)
        ensures
            j@ == JsonView::Object(field_views(fields@, fields@.len() as int)),
    {
        Json::Object(fields)
    }
}

/// The plain values of a list of values.
pub open spec fn views_of(s: Seq<Json>) -> Seq<JsonView> {
    json_views(s, s.len() as int)
}

/// The plain values of a list of fields.
pub open spec fn fields_of(s: Seq<(String, Json)>) -> Seq<(Seq<char>, JsonView)> {
    field_views(s, s.len() as int)
}

/// Appending a value appends its plain value.
pub proof fn lemma_views_push(s: Seq<Json>, j: Json)
    ensures
        views_of(s.push(j)) == views_of(s).push(json_view(j)),
{
    assert(s.push(j).drop_last() =~= s);
    lemma_json_views_prefix(s.push(j), s, s.len() as int);
}

proof fn lemma_json_views_prefix(s: Seq<Json>, t: Seq<Json>, n: int)
    requires
        0 <= n <= t.len(),
        n <= s.len(),
        forall|k: int| 0 <= k < n ==> s[k] == t[k],
    ensures
        json_views(s, n) == json_views(t, n),
    decreases n,
{
    if n > 0 {
        lemma_json_views_prefix(s, t, n - 1);
    }
}

/// Appending a field appends its plain value.
pub proof fn lemma_fields_push(s: Seq<(String, Json)>, f: (String, Json))
    ensures
        fields_of(s.push(f)) == fields_of(s).push((f.0@, json_view(f.1))),
{
    lemma_field_views_prefix(s.push(f), s, s.len() as int);
}

proof fn lemma_field_views_prefix(s: Seq<(String, Json)>, t: Seq<(String, Json)>, n: int)
    requires
        0 <= n <= t.len(),
        n <= s.len(),
        forall|k: int| 0 <= k < n ==> s[k] == t[k],
    ensures
        field_views(s, n) == field_views(t, n),
    decreases n,
{
    if n > 0 {
        lemma_field_views_prefix(s, t, n - 1);
    }
}

/// A copy of `j`.
pub fn json_clone(j: &Json) -> (r: Json)
    ensures
        r@ == j@,
    decreases j,
{
    match j {
        Json::Null => Json::Null,
        Json::Bool(b) => Json::Bool(*b),
        Json::Number(t) => Json::Number(String::from_str(t.as_str())),
        Json::Str(t) => Json::Str(String::from_str(t.as_str())),
        Json::Array(items) => {
            let mut out: Vec<Json> = Vec::new();
            let mut k: usize = 0;
            while k < items.len()
                invariant
                    *j == Json::Array(*items),
                    k <= items@.len(),
                    views_of(out@) == json_views(items@, k as int),
                decreases items@.len() - k,
            {
                proof {
                    assert(*j == Json::Array(*items));
                    assert(decreases_to!(*j => (*j)->Array_0));
                    assert(decreases_to!(items => items@));
                    assert(decreases_to!(items@ => items@[k as int]));
                }
                let c = json_clone(&items[k]);
                proof {
                    lemma_views_push(out@, c);
                }
                out.push(c);
                k = k + 1;
            }
            Json::Array(out)
        },
        Json::Object(fields) => {
            let mut out: Vec<(String, Json)> = Vec::new();
            let mut k: usize = 0;
            while k < fields.len()
                invariant
                    *j == Json::Object(*fields),
                    k <= fields@.len(),
                    fields_of(out@) == field_views(fields@, k as int),
                decreases fields@.len() - k,
            {
                proof {
                    assert(*j == Json::Object(*fields));
                    assert(decreases_to!(*j => (*j)->Object_0));
                    assert(decreases_to!(fields => fields@));
                    assert(decreases_to!(fields@ => fields@[k as int]));
                    assert(decreases_to!(fields@[k as int] => fields@[k as int].1));
                }
                let c = json_clone(&fields[k].1);
                let f = (String::from_str(fields[k].0.as_str()), c);
                proof {
                    lemma_fields_push(out@, f);
                }
                out.push(f);
                k = k + 1;
            }
            Json::Object(out)
        },
    }
}

/// Appends field `key: value` to an object's fields.
pub fn push_field(fields: &mut Vec<(String, Json)>, key: &str, value: Json)
    ensures
        fields_of(final(fields)@) == fields_of(old(fields)@).push((key@, value@)),
{
    let f = (String::from_str(key), value);
    proof {
        lemma_fields_push(fields@, f);
    }
    fields.push(f);
}

/// Appends `value` to an array's items.
pub fn push_item(items: &mut Vec<Json>, value: Json)
    ensures
        views_of(final(items)@) == views_of(old(items)@).push(value@),
{
    proof {
        lemma_views_push(items@, value);
    }
    items.push(value);
}

/// As many plain values as values.
pub proof fn lemma_views_len(s: Seq<Json>)
    ensures
        views_of(s).len() == s.len(),
{
    lemma_json_views_len(s, s.len() as int);
}

} // verus!
