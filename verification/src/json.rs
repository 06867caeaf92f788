//! A JSON document as plain values, and key lookup and update on objects.
//!
//! Objects keep their members in a sequence; a key names its first member.

use vstd::prelude::*;

use serde_json::Value;

use crate::text::str_eq;

verus! {

/// A JSON value.
pub enum Json {
    /// `null`.
    Null,
    /// `true` or `false`.
    Bool(bool),
    /// A number, by its text.
    Number(String),
    /// A string.
    Str(String),
    /// An array.
    Array(Vec<Json>),
    /// An object, by its members in order.
    Object(Vec<(String, Json)>),
}

/// A JSON value with its strings taken by their characters.
pub enum JsonView {
    /// `null`.
    Null,
    /// `true` or `false`.
    Bool(bool),
    /// A number, by its text.
    Number(Seq<char>),
    /// A string.
    Str(Seq<char>),
    /// An array.
    Array(Seq<JsonView>),
    /// An object, by its members in order.
    Object(Seq<(Seq<char>, JsonView)>),
}

/// The view of a JSON value.
pub open spec fn json_view(j: Json) -> JsonView
    decreases j, 1int,
{
    match j {
        Json::Null => JsonView::Null,
        Json::Bool(b) => JsonView::Bool(b),
        Json::Number(n) => JsonView::Number(n@),
        Json::Str(s) => JsonView::Str(s@),
        Json::Array(v) => JsonView::Array(items_view(v@)),
        Json::Object(v) => JsonView::Object(members_view(v@)),
    }
}

/// The views of array items.
pub open spec fn items_view(s: Seq<Json>) -> Seq<JsonView>
    decreases s, 0int,
{
    Seq::new(s.len(), |i: int| if 0 <= i < s.len() { json_view(s[i]) } else { JsonView::Null })
}

/// The views of object members.
pub open spec fn members_view(s: Seq<(String, Json)>) -> Seq<(Seq<char>, JsonView)>
    decreases s, 0int,
{
    Seq::new(
        s.len(),
        |i: int|
            if 0 <= i < s.len() {
                (s[i].0@, json_view(s[i].1))
            } else {
                (Seq::empty(), JsonView::Null)
            },
    )
}

impl View for Json {
    type V = JsonView;

    open spec fn view(&self) -> JsonView {
        json_view(*self)
    }
}

/// An object's members by their views.
pub type Members = Seq<(Seq<char>, JsonView)>;

/// Index of the first member named `key`, or -1.
pub open spec fn find(fs: Members, key: Seq<char>) -> int
    decreases fs.len(),
{
    if fs.len() == 0 {
        -1
    } else {
        let k = find(fs.drop_last(), key);
        if k >= 0 {
            k
        } else if fs.last().0 == key {
            fs.len() - 1
        } else {
            -1
        }
    }
}

/// What `find` gives: the first index holding `key`, or -1 when none does.
pub proof fn lemma_find(fs: Members, key: Seq<char>)
    ensures
        -1 <= find(fs, key) < fs.len(),
        find(fs, key) >= 0 ==> fs[find(fs, key)].0 == key,
        forall|j: int| 0 <= j < fs.len() && (find(fs, key) < 0 || j < find(fs, key)) ==> #[trigger] fs[j].0 != key,
    decreases fs.len(),
{
    if fs.len() > 0 {
        lemma_find(fs.drop_last(), key);
        assert forall|j: int| 0 <= j < fs.len() - 1 implies #[trigger] fs[j] == fs.drop_last()[j] by {}
    }
}

/// The value of the first member named `key`.
pub open spec fn get(fs: Members, key: Seq<char>) -> Option<JsonView> {
    if find(fs, key) >= 0 {
        Some(fs[find(fs, key)].1)
    } else {
        None
    }
}

/// `fs` with the first member named `key` holding `v`, or with `(key, v)`
/// appended when none is named so.
pub open spec fn put(fs: Members, key: Seq<char>, v: JsonView) -> Members {
    if find(fs, key) >= 0 {
        fs.update(find(fs, key), (key, v))
    } else {
        fs.push((key, v))
    }
}

/// The member `key` of an object; none for other values.
pub open spec fn field(v: JsonView, key: Seq<char>) -> Option<JsonView> {
    match v {
        JsonView::Object(fs) => get(fs, key),
        _ => None,
    }
}

/// After `put`, `key` holds `v` and every other key what it held.
pub proof fn lemma_put(fs: Members, key: Seq<char>, v: JsonView, other: Seq<char>)
    ensures
        get(put(fs, key, v), key) == Some(v),
        other != key ==> get(put(fs, key, v), other) == get(fs, other),
        find(fs, key) >= 0 ==> find(put(fs, key, v), key) == find(fs, key),
        find(fs, key) < 0 ==> find(put(fs, key, v), key) == fs.len(),
        other != key ==> find(put(fs, key, v), other) == find(fs, other),
{
    let t = put(fs, key, v);
    lemma_find(fs, key);
    lemma_find(fs, other);
    lemma_find(t, key);
    lemma_find(t, other);
    if find(fs, key) >= 0 {
        let i = find(fs, key);
        lemma_find_is(t, key, i);
        if other != key {
            if find(fs, other) >= 0 {
                lemma_find_is(t, other, find(fs, other));
            } else {
                lemma_find_none(t, other);
            }
        }
    } else {
        lemma_find_is(t, key, fs.len() as int);
        if other != key {
            if find(fs, other) >= 0 {
                lemma_find_is(t, other, find(fs, other));
            } else {
                lemma_find_none(t, other);
            }
        }
    }
}

/// An index holding `key` with none before it is what `find` gives.
pub proof fn lemma_find_is(fs: Members, key: Seq<char>, i: int)
    requires
        0 <= i < fs.len(),
        fs[i].0 == key,
        forall|j: int| 0 <= j < i ==> #[trigger] fs[j].0 != key,
    ensures
        find(fs, key) == i,
{
    lemma_find(fs, key);
    if find(fs, key) < 0 || find(fs, key) > i {
        assert(fs[i].0 != key);
    }
}

/// When no member is named `key`, `find` gives -1.
pub proof fn lemma_find_none(fs: Members, key: Seq<char>)
    requires
        forall|j: int| 0 <= j < fs.len() ==> #[trigger] fs[j].0 != key,
    ensures
        find(fs, key) == -1,
{
    lemma_find(fs, key);
}

/// Setting a key to the value it already holds changes nothing.
pub proof fn lemma_put_same(fs: Members, key: Seq<char>, v: JsonView)
    requires
        get(fs, key) == Some(v),
    ensures
        put(fs, key, v) == fs,
{
    lemma_find(fs, key);
    assert(put(fs, key, v) =~= fs);
}

/// The position of the first member named `key`, by the members' views.
pub fn member_index(fs: &Vec<(String, Json)>, key: &str) -> (r: Option<usize>)
    ensures
        match r {
            Some(i) => i as int == find(members_view(fs@), key@) && i < fs@.len(),
            None => find(members_view(fs@), key@) == -1,
        },
{
    let ghost m = members_view(fs@);
    let mut i: usize = 0;
    while i < fs.len()
        invariant
            i <= fs@.len(),
            m == members_view(fs@),
            forall|j: int| 0 <= j < i ==> #[trigger] m[j].0 != key@,
        decreases fs@.len() - i,
    {
        if str_eq(fs[i].0.as_str(), key) {
            proof {
                lemma_find_is(m, key@, i as int);
            }
            return Some(i);
        }
        i = i + 1;
    }
    proof {
        lemma_find_none(m, key@);
    }
    None
}

/// No two members share a key, as in a parsed document.
pub open spec fn distinct_keys(fs: Members) -> bool {
    forall|i: int, j: int| 0 <= i < j < fs.len() ==> #[trigger] fs[i].0 != #[trigger] fs[j].0
}

/// Looking up in a sequence with one more member at the end.
pub proof fn lemma_get_push(s: Members, m: (Seq<char>, JsonView), e: Seq<char>)
    ensures
        find(s.push(m), e) == if find(s, e) >= 0 {
            find(s, e)
        } else if m.0 == e {
            s.len() as int
        } else {
            -1
        },
        get(s.push(m), e) == if find(s, e) >= 0 {
            get(s, e)
        } else if m.0 == e {
            Some(m.1)
        } else {
            None
        },
{
    assert(s.push(m).drop_last() =~= s);
    lemma_find(s, e);
}

/// Keeping some members of an object with distinct keys: a key names what
/// it named before when that member was kept, and nothing otherwise.
pub proof fn lemma_get_filter(h: Members, p: spec_fn((Seq<char>, JsonView)) -> bool, e: Seq<char>)
    requires
        distinct_keys(h),
    ensures
        get(h.filter(p), e) == match get(h, e) {
            Some(v) => if p((e, v)) {
                Some(v)
            } else {
                None
            },
            None => None,
        },
    decreases h.len(),
{
    lemma_find(h, e);
    if h.len() == 0 {
        reveal(Seq::filter);
        assert(h.filter(p) =~= h);
    } else {
        let s = h.drop_last();
        let m = h.last();
        assert(s.push(m) =~= h);
        assert forall|i: int, j: int| 0 <= i < j < s.len() implies #[trigger] s[i].0 != #[trigger] s[j].0 by {
            assert(s[i] == h[i] && s[j] == h[j]);
        }
        lemma_get_filter(s, p, e);
        s.lemma_filter_push(m, p);
        lemma_get_push(s, m, e);
        lemma_find(s, e);
        lemma_find(s.filter(p), e);
        if p(m) {
            lemma_get_push(s.filter(p), m, e);
        }
        if m.0 == e {
            assert forall|j: int| 0 <= j < s.len() implies #[trigger] s[j].0 != e by {
                assert(s[j] == h[j]);
                assert(h[j].0 != h[h.len() - 1].0);
            }
            lemma_find_none(s, e);
        }
    }
}

impl Json {
    /// The member `key` of an object; none for other values.
    pub fn member(&self, key: &str) -> (r: Option<&Json>)
        ensures
            match r {
                Some(x) => field(self@, key@) == Some(x@),
                None => field(self@, key@) is None,
            },
    {
        match self {
            Json::Object(fs) => match member_index(fs, key) {
                Some(i) => Some(&fs[i].1),
                None => None,
            },
            _ => None,
        }
    }

    /// The items of an array; none for other values.
    pub fn as_array(&self) -> (r: Option<&Vec<Json>>)
        ensures
            match r {
                Some(a) => self@ == JsonView::Array(items_view(a@)),
                None => !(self@ is Array),
            },
    {
        match self {
            Json::Array(a) => Some(a),
            _ => None,
        }
    }

    /// The text of a string; none for other values.
    pub fn as_str(&self) -> (r: Option<&str>)
        ensures
            match r {
                Some(s) => self@ == JsonView::Str(s@),
                None => !(self@ is Str),
            },
    {
        match self {
            Json::Str(s) => Some(s.as_str()),
            _ => None,
        }
    }
}

// ---------------------------------------------------------------------------
// JSON text
// ---------------------------------------------------------------------------

/// A JSON value as serde_json holds it.
#[verifier::external_type_specification]
#[verifier::external_body]
pub struct ExValue(Value);

/// What `serde_json::from_str` makes of a text, as a value of this library
/// (objects by their members in serde_json's key order), or its error
/// message: a function of the text alone.
pub uninterp spec fn json_parse(text: Seq<char>) -> Result<JsonView, Seq<char>>;

/// The text `serde_json::to_string_pretty` prints for a value.
pub uninterp spec fn pretty_json(v: JsonView) -> Seq<char>;

/// A parse result by its views.
pub open spec fn parsed_view(r: Result<Json, String>) -> Result<JsonView, Seq<char>> {
    match r {
        Ok(j) => Ok(j@),
        Err(m) => Err(m@),
    }
}

/// serde_json's value as this library's, variant for variant (a number by
/// its text, an object's members in the map's order). Used only inside
/// `parse_json`.
#[verifier::external_body]
fn json_of(v: &Value) -> Json {
    match v {
        Value::Null => Json::Null,
        Value::Bool(b) => Json::Bool(*b),
        Value::Number(n) => Json::Number(n.to_string()),
        Value::String(s) => Json::Str(s.clone()),
        Value::Array(a) => Json::Array(a.iter().map(json_of).collect()),
        Value::Object(m) => Json::Object(m.iter().map(|(k, v)| (k.clone(), json_of(v))).collect()),
    }
}

/// This library's value as serde_json's, variant for variant (a number read
/// back from its text). Used only inside `print_json`.
#[verifier::external_body]
fn value_of(j: &Json) -> Value {
    match j {
        Json::Null => Value::Null,
        Json::Bool(b) => Value::Bool(*b),
        Json::Number(n) => serde_json::from_str(n).unwrap_or(Value::Null),
        Json::Str(s) => Value::String(s.clone()),
        Json::Array(a) => Value::Array(a.iter().map(value_of).collect()),
        Json::Object(m) => Value::Object(m.iter().map(|(k, v)| (k.clone(), value_of(v))).collect()),
    }
}

/// `serde_json::from_str` into a `serde_json::Value`, converted: the value,
/// or the parse error's message.
#[verifier::external_body]
pub(crate) fn parse_json(text: &str) -> (r: Result<Json, String>)
    ensures
        parsed_view(r) == json_parse(text@),
{
    match serde_json::from_str::<Value>(text) {
        Ok(v) => Ok(json_of(&v)),
        Err(e) => Err(e.to_string()),
    }
}

/// `serde_json::to_string_pretty` of a value (which cannot fail on a
/// `serde_json::Value`).
#[verifier::external_body]
pub(crate) fn print_json(j: &Json) -> (s: String)
    ensures
        s@ == pretty_json(j@),
{
    serde_json::to_string_pretty(&value_of(j)).unwrap_or_default()
}

} // verus!
