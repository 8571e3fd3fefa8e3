//! JSON values as the protocol code reads and writes them. Parsing and
//! printing are serde_json's; the library holds the result as plain data.
use vstd::prelude::*;

verus! {

/// A JSON value. Numbers are kept as their text (the code never computes
/// with them); an object is a list of entries. Parsed objects come with
/// unique keys in serde_json's map order (sorted by key); objects built
/// here are lists in the order they were built, and printing goes through
/// serde_json's map, which sorts them by key.
#[derive(Debug, PartialEq, Eq)]
pub enum Json {
    Null,
    Bool(bool),
    Number(String),
    Str(String),
    Array(Vec<Json>),
    Object(Vec<(String, Json)>),
}

/// The mathematical form of a `Json`.
pub enum JsonV {
    Null,
    Bool(bool),
    Number(Seq<char>),
    Str(Seq<char>),
    Array(Seq<JsonV>),
    Object(Seq<(Seq<char>, JsonV)>),
}

pub open spec fn json_v(j: Json) -> JsonV
    decreases j, 1int,
{
    match j {
        Json::Null => JsonV::Null,
        Json::Bool(b) => JsonV::Bool(b),
        Json::Number(n) => JsonV::Number(n@),
        Json::Str(s) => JsonV::Str(s@),
        Json::Array(a) => JsonV::Array(json_vs(a@)),
        Json::Object(es) => JsonV::Object(json_es(es@)),
    }
}

pub open spec fn json_vs(s: Seq<Json>) -> Seq<JsonV>
    decreases s, 0int,
{
    if s.len() == 0 {
        Seq::empty()
    } else {
        json_vs(s.drop_last()).push(json_v(s.last()))
    }
}

pub open spec fn json_es(s: Seq<(String, Json)>) -> Seq<(Seq<char>, JsonV)>
    decreases s, 0int,
{
    if s.len() == 0 {
        Seq::empty()
    } else {
        json_es(s.drop_last()).push((s.last().0@, json_v(s.last().1)))
    }
}

impl View for Json {
    type V = JsonV;

    open spec fn view(&self) -> JsonV {
        json_v(*self)
    }
}

/// Index of the entry named `key` (the count when absent).
pub open spec fn key_index(es: Seq<(Seq<char>, JsonV)>, key: Seq<char>) -> nat
    decreases es.len(),
{
    if es.len() == 0 {
        0
    } else if es[0].0 == key {
        0
    } else {
        1 + key_index(es.drop_first(), key)
    }
}

/// `Value::get(key)`: the member of an object, nothing for other values.
pub open spec fn jget(j: JsonV, key: Seq<char>) -> Option<JsonV> {
    match j {
        JsonV::Object(es) => {
            let i = key_index(es, key);
            if i < es.len() {
                Some(es[i as int].1)
            } else {
                None
            }
        },
        _ => None,
    }
}

/// `Value::as_str`.
pub open spec fn jstr(j: Option<JsonV>) -> Option<Seq<char>> {
    match j {
        Some(JsonV::Str(s)) => Some(s),
        _ => None,
    }
}

/// What `serde_json::from_str::<Value>` gives for a text: the value, or the
/// text of the error it reports.
pub uninterp spec fn json_parse(text: Seq<char>) -> Result<JsonV, Seq<char>>;

/// The compact text `Value`'s `Display` (`to_string`) prints for a value.
pub uninterp spec fn json_text(v: JsonV) -> Seq<char>;

#[verifier::external_type_specification]
#[verifier::external_body]
pub struct ExJsonValue(serde_json::Value);

/// Copies a parsed serde_json value into a `Json`, member for member.
#[verifier::external_body]
fn json_from_value(v: &serde_json::Value) -> Json {
    match v {
        serde_json::Value::Null => Json::Null,
        serde_json::Value::Bool(b) => Json::Bool(*b),
        serde_json::Value::Number(n) => Json::Number(n.to_string()),
        serde_json::Value::String(s) => Json::Str(s.clone()),
        serde_json::Value::Array(a) => Json::Array(a.iter().map(json_from_value).collect()),
        serde_json::Value::Object(m) => Json::Object(
            m.iter().map(|(k, x)| (k.clone(), json_from_value(x))).collect(),
        ),
    }
}

/// Copies a `Json` into a serde_json value, member for member (a number
/// text that serde_json does not read as a number becomes null).
#[verifier::external_body]
fn json_to_value(j: &Json) -> serde_json::Value {
    match j {
        Json::Null => serde_json::Value::Null,
        Json::Bool(b) => serde_json::Value::Bool(*b),
        Json::Number(n) => match n.parse::<serde_json::Number>() {
            Ok(x) => serde_json::Value::Number(x),
            Err(_) => serde_json::Value::Null,
        },
        Json::Str(s) => serde_json::Value::String(s.clone()),
        Json::Array(a) => serde_json::Value::Array(a.iter().map(json_to_value).collect()),
        Json::Object(es) => serde_json::Value::Object(
            es.iter().map(|(k, x)| (k.clone(), json_to_value(x))).collect(),
        ),
    }
}

/// `serde_json::from_str::<Value>`: the result is named `json_parse` of the
/// text — the parsed value, or the error's message.
#[verifier::external_body]
pub fn parse_json(text: &str) -> (r: Result<Json, String>)
    ensures
        match r {
            Ok(j) => json_parse(text@) == Ok::<JsonV, Seq<char>>(j@),
            Err(m) => json_parse(text@) == Err::<JsonV, Seq<char>>(m@),
        },
{
    match serde_json::from_str::<serde_json::Value>(text) {
        Ok(v) => Ok(json_from_value(&v)),
        Err(e) => Err(e.to_string()),
    }
}

/// `Value::to_string` (compact JSON text): the result is named `json_text`
/// of the value.
#[verifier::external_body]
pub fn json_to_text(j: &Json) -> (s: String)
    ensures
        s@ == json_text(j@),
{
    json_to_value(j).to_string()
}

} // verus!
