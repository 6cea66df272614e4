//! A JSON document modeled as a tagged sum. Parsing is delegated to
//! `serde_json`; the parsed tree is carried as plain values so that the
//! JSON-LD rules over it can be verified. Numeric payloads are collapsed to a
//! bare marker: no rule of this library reads a number.

#![verifier::loop_isolation(false)]

use vstd::prelude::*;
use crate::strutil;

verus! {

/// A JSON value: null, boolean, number (payload dropped), string, array or
/// object. Object entries keep the parser's iteration order; keys are unique.
#[derive(Debug)]
pub enum JsonValue {
    Null,
    Bool(bool),
    Num,
    Str(String),
    Arr(Vec<JsonValue>),
    Obj(Vec<(String, JsonValue)>),
}

#[verifier::external_type_specification]
#[verifier::external_body]
pub struct ExSerdeValue(serde_json::Value);

/// What `serde_json::from_str::<serde_json::Value>` returns for a given text,
/// with every number collapsed to the bare marker: the parsed value, or the
/// parse error's display text.
pub uninterp spec fn json_parse(s: Seq<char>) -> Result<JsonValue, Seq<char>>;

/// Relies on the shape of `serde_json::Value`: each variant is carried over
/// to the corresponding `JsonValue` variant, numbers to the bare marker,
/// arrays elementwise in order, objects entrywise in iteration order.
#[verifier::external_body]
fn convert_json(v: &serde_json::Value) -> JsonValue {
    match v {
        serde_json::Value::Null => JsonValue::Null,
        serde_json::Value::Bool(b) => JsonValue::Bool(*b),
        serde_json::Value::Number(_) => JsonValue::Num,
        serde_json::Value::String(s) => JsonValue::Str(s.clone()),
        serde_json::Value::Array(a) => JsonValue::Arr(a.iter().map(convert_json).collect()),
        serde_json::Value::Object(o) => JsonValue::Obj(
            o.iter().map(|(k, x)| (k.clone(), convert_json(x))).collect(),
        ),
    }
}

/// Relies on `serde_json::from_str::<serde_json::Value>`: the result is a
/// function of the input text alone, named by `json_parse`; the error case
/// carries the error's display text.
#[verifier::external_body]
pub fn parse_json(s: &str) -> (r: Result<JsonValue, String>)
    ensures
        match r {
            Ok(v) => json_parse(s@) == Ok::<JsonValue, Seq<char>>(v),
            Err(e) => json_parse(s@) == Err::<JsonValue, Seq<char>>(e@),
        },
{
    match serde_json::from_str::<serde_json::Value>(s) {
        Ok(v) => Ok(convert_json(&v)),
        Err(e) => Err(e.to_string()),
    }
}

/// The value under the first entry whose key reads `key`, if any.
pub open spec fn obj_get(entries: Seq<(String, JsonValue)>, key: Seq<char>) -> Option<JsonValue>
    decreases entries.len(),
{
    if entries.len() == 0 {
        None
    } else if entries[0].0@ == key {
        Some(entries[0].1)
    } else {
        obj_get(entries.drop_first(), key)
    }
}

/// Look a key up among an object's entries.
pub fn get_key<'a>(entries: &'a Vec<(String, JsonValue)>, key: &str) -> (r: Option<
    &'a JsonValue,
>)
    ensures
        match r {
            Some(v) => obj_get(entries@, key@) == Some(*v),
            None => obj_get(entries@, key@) is None,
        },
{
    let kc = strutil::str_chars(key);
    proof {
        assert(entries@.skip(0) =~= entries@);
    }
    let mut i: usize = 0;
    while i < entries.len()
        invariant
            0 <= i <= entries@.len(),
            kc@ == key@,
            obj_get(entries@, key@) == obj_get(entries@.skip(i as int), key@),
        decreases entries@.len() - i,
    {
        proof {
            assert(entries@.skip(i as int)[0] == entries@[i as int]);
            assert(entries@.skip(i as int).drop_first() =~= entries@.skip(i + 1));
        }
        let ec = strutil::str_chars(entries[i].0.as_str());
        if strutil::chars_eq(&ec, &kc) {
            return Some(&entries[i].1);
        }
        i += 1;
    }
    None
}

/// The characters of a string equal those of `lit`.
pub fn str_is(s: &Vec<char>, lit: &str) -> (r: bool)
    ensures
        r == (s@ == lit@),
{
    let l = strutil::str_chars(lit);
    strutil::chars_eq(s, &l)
}

} // verus!
