//! The document tree the loader reads, and the trusted boundary to the
//! JSON parser.
//!
//! A document is parsed once by `serde_json` into its generic value type
//! and converted, one variant to one variant, into [`JsonValue`], a tree of
//! plain values the verified extraction code can walk. Numbers are kept as
//! their decimal token text and parsed into fixed point by verified code.
use vstd::prelude::*;

verus! {

/// A JSON document tree of plain values. A number carries its decimal
/// token text; an object carries its entries as ordered key-value pairs
/// with unique keys (the parser returns them ordered by key).
pub enum JsonValue {
    Null,
    Bool(bool),
    /// A number, as its decimal token text.
    Num(String),
    Str(String),
    Arr(Vec<JsonValue>),
    Obj(Vec<(String, JsonValue)>),
}

#[verifier::external_type_specification]
#[verifier::external_body]
pub struct ExValue(serde_json::Value);

/// What parsing a given document text yields: the converted tree for valid
/// JSON, nothing otherwise. The parse is a function of the text alone.
pub uninterp spec fn parsed_doc(s: Seq<char>) -> Option<JsonValue>;

/// Relies on the variants of serde_json::Value: each is moved, one arm per
/// variant, into the library's tree. A number becomes its decimal token
/// (integers through itoa, floats through shortest round-trip formatting),
/// a deterministic function of the number's value.
#[verifier::external_body]
fn json_tree(v: &serde_json::Value) -> JsonValue {
    match v {
        serde_json::Value::Null => JsonValue::Null,
        serde_json::Value::Bool(b) => JsonValue::Bool(*b),
        serde_json::Value::Number(n) => JsonValue::Num(n.to_string()),
        serde_json::Value::String(s) => JsonValue::Str(s.clone()),
        serde_json::Value::Array(a) => JsonValue::Arr(a.iter().map(json_tree).collect()),
        serde_json::Value::Object(o) => JsonValue::Obj(
            o.iter().map(|(k, x)| (k.clone(), json_tree(x))).collect(),
        ),
    }
}

/// Relies on serde_json::from_str::<serde_json::Value>: parses a JSON
/// text, deterministically in the text (object entries come back ordered
/// by key); fails exactly on texts that are not valid JSON within the
/// parser's limits.
#[verifier::external_body]
pub(crate) fn parse_document(s: &str) -> (r: Option<JsonValue>)
    ensures
        r == parsed_doc(s@),
{
    match serde_json::from_str::<serde_json::Value>(s) {
        Ok(v) => Some(json_tree(&v)),
        Err(_) => None,
    }
}

/// The value of the first entry with the given key, if any.
pub open spec fn spec_lookup(fields: Seq<(String, JsonValue)>, key: Seq<char>) -> Option<
    JsonValue,
>
    decreases fields.len(),
{
    if fields.len() == 0 {
        None
    } else if fields[0].0@ == key {
        Some(fields[0].1)
    } else {
        spec_lookup(fields.drop_first(), key)
    }
}

/// Finds the value of the first entry with the given key.
pub fn lookup<'a>(fields: &'a Vec<(String, JsonValue)>, key: &str) -> (r: Option<&'a JsonValue>)
    ensures
        match r {
            Some(j) => spec_lookup(fields@, key@) == Some(*j),
            None => spec_lookup(fields@, key@) is None,
        },
{
    let owned_key: String = key.to_owned();
    let n = fields.len();
    let mut i: usize = 0;
    proof {
        assert(fields@.skip(0) =~= fields@);
    }
    while i < n
        invariant
            n == fields@.len(),
            i <= n,
            owned_key@ == key@,
            spec_lookup(fields@, key@) == spec_lookup(fields@.skip(i as int), key@),
        decreases n - i,
    {
        proof {
            assert(fields@.skip(i as int)[0] == fields@[i as int]);
            assert(fields@.skip(i as int).drop_first() =~= fields@.skip(i as int + 1));
        }
        if fields[i].0 == owned_key {
            return Some(&fields[i].1);
        }
        i += 1;
    }
    proof {
        assert(fields@.skip(n as int).len() == 0);
    }
    None
}

} // verus!
