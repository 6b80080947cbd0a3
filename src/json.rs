//! The JSON values the engine reads: decoded responses and structured inputs.
use vstd::prelude::*;

verus! {

/// A decoded JSON value.
///
/// A number is held as its compact text, and an array or an object carries,
/// beside its elements, its own compact text as the JSON encoder writes it:
/// that text is what a container stands for where the engine needs a value
/// as a single string.
#[derive(Debug)]
pub enum JsonValue {
    Null,
    Bool(bool),
    Number(String),
    Str(String),
    Array(Vec<JsonValue>, String),
    Object(Vec<(String, JsonValue)>, String),
}

/// A list of key/value pairs, as character sequences.
pub open spec fn pairs_view(p: Seq<(String, String)>) -> Seq<(Seq<char>, Seq<char>)> {
    p.map_values(|q: (String, String)| (q.0@, q.1@))
}

/// The single-string form of a value: a string passes through verbatim,
/// anything else is its compact JSON text.
pub open spec fn leaf_text(v: JsonValue) -> Seq<char> {
    match v {
        JsonValue::Null => "null"@,
        JsonValue::Bool(b) => if b { "true"@ } else { "false"@ },
        JsonValue::Number(t) => t@,
        JsonValue::Str(s) => s@,
        JsonValue::Array(_, t) => t@,
        JsonValue::Object(_, t) => t@,
    }
}

/// The single-string form of a value (see `leaf_text`).
pub fn json_value_to_string(v: &JsonValue) -> (r: String)
    ensures
        r@ == leaf_text(*v),
{
    match v {
        JsonValue::Null => "null".to_owned(),
        JsonValue::Bool(b) => if *b { "true".to_owned() } else { "false".to_owned() },
        JsonValue::Number(t) => t.clone(),
        JsonValue::Str(s) => s.clone(),
        JsonValue::Array(_, t) => t.clone(),
        JsonValue::Object(_, t) => t.clone(),
    }
}

/// The members of an object whose key is `key`, first one wins.
pub open spec fn first_member(m: Seq<(String, JsonValue)>, key: Seq<char>) -> Option<JsonValue>
    decreases m.len(),
{
    if m.len() == 0 {
        None
    } else if m[0].0@ == key {
        Some(m[0].1)
    } else {
        first_member(m.subrange(1, m.len() as int), key)
    }
}

/// The value of field `key` of `v`, if `v` is an object that has it.
pub open spec fn field(v: JsonValue, key: Seq<char>) -> Option<JsonValue> {
    match v {
        JsonValue::Object(m, _) => first_member(m@, key),
        _ => None,
    }
}

/// Looks up field `key` of `v` (the first member under that key).
pub fn get_field<'a>(v: &'a JsonValue, key: &str) -> (r: Option<&'a JsonValue>)
    ensures
        r matches Some(x) ==> field(*v, key@) == Some(*x),
        r is None ==> field(*v, key@) is None,
{
    match v {
        JsonValue::Object(m, _) => {
            let mut i: usize = 0;
            assert(m@.subrange(0, m@.len() as int) =~= m@);
            assert(field(*v, key@) == first_member(m@, key@));
            while i < m.len()
                invariant
                    i <= m.len(),
                    field(*v, key@) == first_member(m@, key@),
                    first_member(m@, key@) == first_member(m@.subrange(i as int, m@.len() as int), key@),
                decreases m.len() - i,
            {
                let ghost rest = m@.subrange(i as int, m@.len() as int);
                assert(rest.subrange(1, rest.len() as int) =~= m@.subrange(i + 1, m@.len() as int));
                assert(rest[0] == m@[i as int]);
                if crate::text::str_eq(m[i].0.as_str(), key) {
                    assert(first_member(rest, key@) == Some(m@[i as int].1));
                    return Some(&m[i].1);
                }
                i = i + 1;
            }
            None
        },
        _ => None,
    }
}

} // verus!
