//! JSON values as the library reads them, and the JSON parser of
//! `serde_json` that produces them.
use vstd::prelude::*;
use crate::text::{chars_of, decimal};

verus! {

#[verifier::external_type_specification]
#[verifier::external_body]
pub struct ExJsonValue(serde_json::Value);

/// A JSON number: its value where it fits `u64` / `i64`, and its text as
/// `serde_json` writes it.
#[derive(Debug)]
pub struct JsonNumber {
    pub as_u64: Option<u64>,
    pub as_i64: Option<i64>,
    pub text: String,
}

/// A JSON value. Object members are kept in the order the parser hands
/// them out (sorted by key, each key once).
#[derive(Debug)]
pub enum Json {
    Null,
    Bool(bool),
    Num(JsonNumber),
    Str(String),
    Arr(Vec<Json>),
    Obj(Vec<(String, Json)>),
}

/// What `serde_json::from_str::<serde_json::Value>` gives for a text: the
/// value, or `None` when the text is not one JSON value.
pub uninterp spec fn json_parse(s: Seq<char>) -> Option<Json>;

/// What `serde_json::from_str::<String>` gives for a text: the string that
/// a JSON string literal denotes, or `None` when the text is not one.
pub uninterp spec fn json_parse_string(s: Seq<char>) -> Option<Seq<char>>;

/// `serde_json::Value` as a `Json`, one for one. Only `parse_json` uses it.
#[verifier::external_body]
fn json_from_value(v: serde_json::Value) -> Json {
    match v {
        serde_json::Value::Null => Json::Null,
        serde_json::Value::Bool(b) => Json::Bool(b),
        serde_json::Value::Number(n) => Json::Num(JsonNumber { as_u64: n.as_u64(), as_i64: n.as_i64(), text: n.to_string() }),
        serde_json::Value::String(s) => Json::Str(s),
        serde_json::Value::Array(a) => Json::Arr(a.into_iter().map(json_from_value).collect()),
        serde_json::Value::Object(m) => Json::Obj(m.into_iter().map(|(k, x)| (k, json_from_value(x))).collect()),
    }
}

/// `serde_json::from_str::<serde_json::Value>`: the parsed value, named by
/// `json_parse`; a parse error is `None`.
#[verifier::external_body]
pub(crate) fn parse_json(s: &str) -> (r: Option<Json>)
    ensures
        r == json_parse(s@),
{
    serde_json::from_str::<serde_json::Value>(s).ok().map(json_from_value)
}

/// `serde_json::from_str::<String>`: the string a JSON string literal
/// denotes, named by `json_parse_string`; a parse error is `None`.
#[verifier::external_body]
pub(crate) fn parse_json_string(s: &str) -> (r: Option<String>)
    ensures
        match r {
            Some(t) => json_parse_string(s@) == Some(t@),
            None => json_parse_string(s@) is None,
        },
{
    serde_json::from_str::<String>(s).ok()
}

/// The value of the first member named `key`.
pub open spec fn obj_get(members: Seq<(String, Json)>, key: Seq<char>) -> Option<Json>
    decreases members.len(),
{
    if members.len() == 0 {
        None
    } else if members[0].0@ == key {
        Some(members[0].1)
    } else {
        obj_get(members.drop_first(), key)
    }
}

/// Index of the first member named `key`.
pub open spec fn key_index(members: Seq<(String, Json)>, key: Seq<char>) -> Option<int>
    decreases members.len(),
{
    if members.len() == 0 {
        None
    } else if members[0].0@ == key {
        Some(0)
    } else {
        match key_index(members.drop_first(), key) { Some(k) => Some(k + 1), None => None }
    }
}

/// `Value::get(key)` on any value: a member of an object, else nothing.
pub open spec fn get_spec(v: Json, key: Seq<char>) -> Option<Json> {
    match v {
        Json::Obj(m) => obj_get(m@, key),
        _ => None,
    }
}

/// Index of the first member named `key`.
pub fn obj_find(members: &Vec<(String, Json)>, key: &str) -> (r: Option<usize>)
    ensures
        match r {
            Some(i) => i < members.len() && obj_get(members@, key@) == Some(members@[i as int].1)
                && key_index(members@, key@) == Some(i as int) && members@[i as int].0@ == key@,
            None => obj_get(members@, key@) is None && key_index(members@, key@) is None,
        },
{
    let k = String::from_str(key);
    let mut i: usize = 0;
    assert(members@.subrange(0, members.len() as int) =~= members@);
    while i < members.len()
        invariant
            i <= members.len(),
            k@ == key@,
            obj_get(members@, key@) == obj_get(members@.subrange(i as int, members.len() as int), key@),
            key_index(members@, key@) == (match key_index(members@.subrange(i as int, members.len() as int), key@) {
                Some(j) => Some(j + i),
                None => None,
            }),
        decreases members.len() - i,
    {
        assert(members@.subrange(i as int, members.len() as int).drop_first()
            =~= members@.subrange(i + 1, members.len() as int));
        if members[i].0 == k {
            return Some(i);
        }
        i += 1;
    }
    None
}

/// `Value::get(key)`.
pub fn json_get<'a>(v: &'a Json, key: &str) -> (r: Option<&'a Json>)
    ensures
        match r {
            Some(x) => get_spec(*v, key@) == Some(*x),
            None => get_spec(*v, key@) is None,
        },
{
    match v {
        Json::Obj(m) => match obj_find(m, key) {
            Some(i) => Some(&m[i].1),
            None => None,
        },
        _ => None,
    }
}

/// `Value::as_str`.
pub open spec fn as_str_spec(v: Json) -> Option<Seq<char>> {
    match v {
        Json::Str(s) => Some(s@),
        _ => None,
    }
}

/// `Value::as_u64`.
pub open spec fn as_u64_spec(v: Json) -> Option<u64> {
    match v {
        Json::Num(n) => n.as_u64,
        _ => None,
    }
}

/// What `serde_json::Value::to_string` writes for a value (compact JSON).
pub uninterp spec fn json_text(v: Json) -> Seq<char>;

/// A `Json` as `serde_json::Value`, one for one. Only `json_to_text` uses
/// it.
#[verifier::external_body]
fn value_from_json(v: &Json) -> serde_json::Value {
    match v {
        Json::Null => serde_json::Value::Null,
        Json::Bool(b) => serde_json::Value::Bool(*b),
        Json::Num(n) => n.text.parse::<serde_json::Number>().map(serde_json::Value::Number).unwrap_or(serde_json::Value::Null),
        Json::Str(s) => serde_json::Value::String(s.clone()),
        Json::Arr(a) => serde_json::Value::Array(a.iter().map(value_from_json).collect()),
        Json::Obj(m) => serde_json::Value::Object(m.iter().map(|(k, x)| (k.clone(), value_from_json(x))).collect()),
    }
}

/// `serde_json::Value::to_string`: the value written as compact JSON, named
/// by `json_text`.
#[verifier::external_body]
pub(crate) fn json_to_text(v: &Json) -> (r: String)
    ensures
        r@ == json_text(*v),
{
    value_from_json(v).to_string()
}

/// Parses a JSON text (see `json_parse`); `None` when it is not JSON.
pub fn parse_json_text(s: &str) -> (r: Option<Json>)
    ensures
        r == json_parse(s@),
{
    parse_json(s)
}

/// A value written as compact JSON (see `json_text`).
pub fn json_text_of(v: &Json) -> (r: String)
    ensures
        r@ == json_text(*v),
{
    json_to_text(v)
}

/// `b` is a copy of `a`: the same leaves, member names and order.
pub open spec fn same_json(a: Json, b: Json) -> bool
    decreases a,
{
    match a {
        Json::Obj(m) => b matches Json::Obj(m2) && m2@.len() == m@.len()
            && forall|i: int| 0 <= i < m@.len() ==> (#[trigger] m2@[i]).0@ == m@[i].0@ && same_json(m@[i].1, m2@[i].1),
        Json::Arr(x) => b matches Json::Arr(x2) && x2@.len() == x@.len()
            && forall|i: int| 0 <= i < x@.len() ==> same_json(#[trigger] x@[i], x2@[i]),
        _ => b == a,
    }
}

/// A copy of `v` (see `same_json`).
pub fn copy_json(v: &Json) -> (r: Json)
    ensures
        same_json(*v, r),
    decreases v,
{
    match v {
        Json::Null => Json::Null,
        Json::Bool(b) => Json::Bool(*b),
        Json::Num(n) => Json::Num(JsonNumber { as_u64: n.as_u64, as_i64: n.as_i64, text: n.text.clone() }),
        Json::Str(s) => Json::Str(s.clone()),
        Json::Obj(m) => {
            let mut out: Vec<(String, Json)> = Vec::new();
            let mut i: usize = 0;
            while i < m.len()
                invariant
                    *v == Json::Obj(*m),
                    i <= m.len(),
                    out@.len() == i,
                    forall|j: int| 0 <= j < i ==> (#[trigger] out@[j]).0@ == m@[j].0@ && same_json(m@[j].1, out@[j].1),
                decreases m.len() - i,
            {
                proof {
                    vstd::std_specs::vec::axiom_vec_index_decreases(*m, i as int);
                    assert(decreases_to!(*v => (*v)->Obj_0));
                    assert(decreases_to!(m[i as int] => m[i as int].1));
                }
                let y = copy_json(&m[i].1);
                out.push((m[i].0.clone(), y));
                i += 1;
            }
            Json::Obj(out)
        },
        Json::Arr(a) => {
            let mut out: Vec<Json> = Vec::new();
            let mut i: usize = 0;
            while i < a.len()
                invariant
                    *v == Json::Arr(*a),
                    i <= a.len(),
                    out@.len() == i,
                    forall|j: int| 0 <= j < i ==> same_json(#[trigger] a@[j], out@[j]),
                decreases a.len() - i,
            {
                proof {
                    vstd::std_specs::vec::axiom_vec_index_decreases(*a, i as int);
                    assert(decreases_to!(*v => (*v)->Arr_0));
                }
                let y = copy_json(&a[i]);
                out.push(y);
                i += 1;
            }
            Json::Arr(out)
        },
    }
}

} // verus!
