//! The JSON model that every adapter reads.
//!
//! Session files are JSON or JSON-lines. Parsing is delegated to serde_json
//! behind a small trusted boundary; the parsed tree is converted once into
//! [`JsonValue`], a transparent mirror of the document on which all further
//! logic is verified. A number is kept as the decimal text serde_json prints
//! for it, so that timestamp handling stays exact and integer-only.

use vstd::prelude::*;

use crate::strutil::str_eq;

verus! {

/// One parsed JSON value.
pub enum JsonValue {
    Null,
    Bool(bool),
    /// A number, kept as its decimal rendering: plain decimal for integers,
    /// shortest round-trip form for floats.
    Num(String),
    Str(String),
    Arr(Vec<JsonValue>),
    /// Object members in document order; keys are unique after parsing.
    Obj(Vec<(String, JsonValue)>),
}

#[verifier::external_type_specification]
#[verifier::external_body]
pub struct ExSerdeValue(serde_json::Value);

/// The value that parsing a piece of JSON text yields, if any. Parsing is a
/// pure function of the text alone.
pub uninterp spec fn serde_value_of(s: Seq<char>) -> Option<serde_json::Value>;

/// The crate's image of a parsed serde_json tree; a pure function of the
/// tree alone.
pub uninterp spec fn model_of(v: serde_json::Value) -> JsonValue;

/// What a piece of JSON text denotes in the crate's model.
pub open spec fn json_of(s: Seq<char>) -> Option<JsonValue> {
    match serde_value_of(s) {
        Some(v) => Some(model_of(v)),
        None => None,
    }
}

/// Relies on `serde_json::from_str::<Value>`: parsing is deterministic in the
/// input text, returns `Err` exactly when the text is not one well-formed
/// JSON document, and never panics.
#[verifier::external_body]
fn parse_value(s: &str) -> (r: Option<serde_json::Value>)
    ensures
        r == serde_value_of(s@),
{
    serde_json::from_str::<serde_json::Value>(s).ok()
}

/// Relies on the declared shape of `serde_json::Value`: the six variants are
/// mapped one to one, object members in the map's iteration order (sorted,
/// unique keys), numbers as the text `serde_json::Number`'s `Display` prints
/// (plain decimal for integers, shortest round-trip decimal for floats) --
/// all deterministic in the tree alone.
#[verifier::external_body]
fn value_model(v: &serde_json::Value) -> (r: JsonValue)
    ensures
        r == model_of(*v),
{
    match v {
        serde_json::Value::Null => JsonValue::Null,
        serde_json::Value::Bool(b) => JsonValue::Bool(*b),
        serde_json::Value::Number(n) => JsonValue::Num(n.to_string()),
        serde_json::Value::String(s) => JsonValue::Str(s.clone()),
        serde_json::Value::Array(a) => JsonValue::Arr(a.iter().map(value_model).collect()),
        serde_json::Value::Object(o) => JsonValue::Obj(
            o.iter().map(|(k, x)| (k.clone(), value_model(x))).collect(),
        ),
    }
}

/// Parses one JSON document or line into the crate's model.
pub fn parse_json(s: &str) -> (r: Option<JsonValue>)
    ensures
        r == json_of(s@),
{
    match parse_value(s) {
        Some(v) => Some(value_model(&v)),
        None => None,
    }
}

/// The first member of `pairs` named `k`, looking from position `i` on.
pub open spec fn obj_lookup_from(
    pairs: Seq<(String, JsonValue)>,
    k: Seq<char>,
    i: int,
) -> Option<JsonValue>
    decreases pairs.len() - i,
{
    if i < 0 || i >= pairs.len() {
        None
    } else if pairs[i].0@ == k {
        Some(pairs[i].1)
    } else {
        obj_lookup_from(pairs, k, i + 1)
    }
}

/// The member named `k` of an object value; `None` for any other shape.
pub open spec fn jv_get(v: JsonValue, k: Seq<char>) -> Option<JsonValue> {
    match v {
        JsonValue::Obj(pairs) => obj_lookup_from(pairs@, k, 0),
        _ => None,
    }
}

/// The characters of a string value; `None` for any other shape.
pub open spec fn jv_as_str(v: JsonValue) -> Option<Seq<char>> {
    match v {
        JsonValue::Str(s) => Some(s@),
        _ => None,
    }
}

/// The boolean of a boolean value; `None` for any other shape.
pub open spec fn jv_as_bool(v: JsonValue) -> Option<bool> {
    match v {
        JsonValue::Bool(b) => Some(b),
        _ => None,
    }
}

/// The string member named `k`, when `v` is an object and the member a
/// string.
pub open spec fn jv_get_str(v: JsonValue, k: Seq<char>) -> Option<Seq<char>> {
    match jv_get(v, k) {
        Some(m) => jv_as_str(m),
        None => None,
    }
}

impl JsonValue {
    /// The member named `k`, when this value is an object holding one.
    pub fn get<'a>(&'a self, k: &str) -> (r: Option<&'a JsonValue>)
        ensures
            match r {
                Some(m) => jv_get(*self, k@) == Some(*m),
                None => jv_get(*self, k@) is None,
            },
    {
        match self {
            JsonValue::Obj(pairs) => {
                proof {
                    assert(jv_get(*self, k@) == obj_lookup_from(pairs@, k@, 0));
                }
                let n = pairs.len();
                let mut i: usize = 0;
                while i < n
                    invariant
                        i <= n,
                        n == pairs@.len(),
                        jv_get(*self, k@) == obj_lookup_from(pairs@, k@, i as int),
                    decreases n - i,
                {
                    let entry = &pairs[i];
                    if str_eq(entry.0.as_str(), k) {
                        proof {
                            assert(*entry == pairs@[i as int]);
                            assert(obj_lookup_from(pairs@, k@, i as int) == Some(
                                pairs@[i as int].1,
                            ));
                        }
                        return Some(&entry.1);
                    }
                    i = i + 1;
                }
                None
            },
            _ => None,
        }
    }

    /// The characters of this value, when it is a string.
    pub fn as_str_val<'a>(&'a self) -> (r: Option<&'a String>)
        ensures
            match r {
                Some(s) => jv_as_str(*self) == Some(s@),
                None => jv_as_str(*self) is None,
            },
    {
        match self {
            JsonValue::Str(s) => Some(s),
            _ => None,
        }
    }

    /// The boolean of this value, when it is a boolean.
    pub fn as_bool_val(&self) -> (r: Option<bool>)
        ensures
            r == jv_as_bool(*self),
    {
        match self {
            JsonValue::Bool(b) => Some(*b),
            _ => None,
        }
    }

    /// The elements of this value, when it is an array.
    pub fn as_arr<'a>(&'a self) -> (r: Option<&'a Vec<JsonValue>>)
        ensures
            match r {
                Some(items) => *self is Arr && self->Arr_0@ == items@,
                None => !(*self is Arr),
            },
    {
        match self {
            JsonValue::Arr(items) => Some(items),
            _ => None,
        }
    }

    /// The string member named `k`, cloned, when present.
    pub fn get_str(&self, k: &str) -> (r: Option<String>)
        ensures
            match r {
                Some(s) => jv_get_str(*self, k@) == Some(s@),
                None => jv_get_str(*self, k@) is None,
            },
    {
        match self.get(k) {
            Some(m) => match m.as_str_val() {
                Some(s) => Some(s.clone()),
                None => None,
            },
            None => None,
        }
    }
}

} // verus!
