//! JSON helpers built on simd-json: parsing, validation, a structural
//! complexity estimate, minification and (de)serialization glue towards
//! serde_json values.

use vstd::prelude::*;
use vstd::utf8::encode_utf8;

verus! {

#[verifier::external_type_specification]
#[verifier::external_body]
pub struct ExSimdValue(simd_json::value::owned::Value);

#[verifier::external_type_specification]
#[verifier::external_body]
pub struct ExSimdError(simd_json::Error);

/// A JSON operation's failure: the parser refused the input, or the input
/// was not a UTF-8 string where one was required.
#[derive(Debug)]
pub enum JsonError {
    ParseError(simd_json::Error),
    InvalidUtf8,
}

impl From<simd_json::Error> for JsonError {
    fn from(err: simd_json::Error) -> (r: Self) {
        JsonError::ParseError(err)
    }
}

impl vstd::std_specs::convert::FromSpecImpl<simd_json::Error> for JsonError {
    open spec fn obeys_from_spec() -> bool {
        true
    }

    open spec fn from_spec(err: simd_json::Error) -> Self {
        JsonError::ParseError(err)
    }
}

/// Whether a byte buffer parses as JSON under simd-json.
pub uninterp spec fn json_accepts(b: Seq<u8>) -> bool;

/// Relies on simd_json::to_owned_value: succeeds exactly on the buffers
/// simd-json accepts as JSON. The input is copied first because the parser
/// works in place.
#[verifier::external_body]
fn simd_parse(data: &[u8]) -> (r: Result<simd_json::OwnedValue, simd_json::Error>)
    ensures
        r is Ok == json_accepts(data@),
{
    let mut mutable_data = data.to_vec();
    simd_json::to_owned_value(&mut mutable_data)
}

/// Relies on simd_json::serde::to_string: the compact serialized text of a
/// value.
#[verifier::external_body]
fn simd_to_string(value: &simd_json::OwnedValue) -> (r: Result<String, simd_json::Error>) {
    simd_json::serde::to_string(value)
}

/// Relies on simd_json::serde::to_string_pretty: the indented serialized
/// text of a value.
#[verifier::external_body]
fn simd_to_string_pretty(value: &simd_json::OwnedValue) -> (r: Result<String, simd_json::Error>) {
    simd_json::serde::to_string_pretty(value)
}

/// Relies on simd_json::OwnedValue::from(ObjectHash::new): the empty JSON
/// object.
#[verifier::external_body]
pub fn create_json_object() -> (r: simd_json::OwnedValue) {
    simd_json::OwnedValue::Object(Default::default())
}

/// Relies on simd_json::OwnedValue::Array: the empty JSON array.
#[verifier::external_body]
pub fn create_json_array() -> (r: simd_json::OwnedValue) {
    simd_json::OwnedValue::Array(Default::default())
}

/// Relies on serde_json::Value::Null.
#[verifier::external_body]
fn serde_null() -> (r: serde_json::Value) {
    serde_json::Value::Null
}

/// Parse a byte buffer as JSON. Succeeds exactly on what simd-json
/// accepts.
pub fn parse_json_simd(data: &[u8]) -> (r: Result<simd_json::OwnedValue, JsonError>)
    ensures
        r is Ok <==> json_accepts(data@),
        r matches Err(e) ==> e is ParseError,
{
    match simd_parse(data) {
        Ok(v) => Ok(v),
        Err(e) => Err(JsonError::from(e)),
    }
}

/// Parse a JSON body held in an owned buffer.
pub fn parse_json_from_bytes(bytes: &Vec<u8>) -> (r: Result<simd_json::OwnedValue, JsonError>)
    ensures
        r is Ok <==> json_accepts(bytes@),
        r matches Err(e) ==> e is ParseError,
{
    parse_json_simd(bytes.as_slice())
}

/// Parse a JSON string.
pub fn parse_json_from_str(s: &str) -> (r: Result<simd_json::OwnedValue, JsonError>)
    ensures
        r is Ok <==> json_accepts(encode_utf8(s@)),
        r matches Err(e) ==> e is ParseError,
{
    parse_json_simd(s.as_bytes())
}

/// Serialize a parsed value back to compact text.
pub fn serialize_owned_value(value: &simd_json::OwnedValue) -> (r: Result<String, JsonError>)
    ensures
        r matches Err(e) ==> e is ParseError,
{
    match simd_to_string(value) {
        Ok(s) => Ok(s),
        Err(e) => Err(JsonError::from(e)),
    }
}

/// Serialize a parsed value to indented text.
pub fn serialize_owned_value_pretty(value: &simd_json::OwnedValue) -> (r: Result<
    String,
    JsonError,
>)
    ensures
        r matches Err(e) ==> e is ParseError,
{
    match simd_to_string_pretty(value) {
        Ok(s) => Ok(s),
        Err(e) => Err(JsonError::from(e)),
    }
}

/// Whether a byte buffer is valid JSON, without keeping the parse.
pub fn is_valid_json(data: &[u8]) -> (r: bool)
    ensures
        r == json_accepts(data@),
{
    match simd_parse(data) {
        Ok(_) => true,
        Err(_) => false,
    }
}

/// The structural weight of a buffer: how many braces, brackets and commas
/// it holds.
pub open spec fn spec_json_complexity(b: Seq<u8>) -> int
    decreases b.len(),
{
    if b.len() == 0 {
        0
    } else {
        spec_json_complexity(b.drop_last()) + (if is_structural(b.last()) {
            1int
        } else {
            0int
        })
    }
}

/// A structural JSON byte: a brace, a bracket or a comma.
pub open spec fn is_structural(b: u8) -> bool {
    b == 123 || b == 125 || b == 91 || b == 93 || b == 44
}

proof fn lemma_complexity_bound(b: Seq<u8>)
    ensures
        0 <= spec_json_complexity(b) <= b.len(),
    decreases b.len(),
{
    if b.len() > 0 {
        lemma_complexity_bound(b.drop_last());
    }
}

/// Estimate a buffer's complexity by its structural characters.
#[verifier::loop_isolation(false)]
pub fn estimate_json_complexity(data: &[u8]) -> (r: usize)
    ensures
        r == spec_json_complexity(data@),
{
    let n = data.len();
    let mut complexity: usize = 0;
    let mut i: usize = 0;
    while i < n
        invariant
            n == data@.len(),
            0 <= i <= n,
            complexity == spec_json_complexity(data@.subrange(0, i as int)),
            complexity <= i,
        decreases n - i,
    {
        let ghost pre = data@.subrange(0, i + 1);
        assert(pre.drop_last() =~= data@.subrange(0, i as int));
        assert(pre.last() == data@[i as int]);
        proof {
            lemma_complexity_bound(data@.subrange(0, i as int));
        }
        let b = data[i];
        if b == 123 || b == 125 || b == 91 || b == 93 || b == 44 {
            complexity = complexity + 1;
        }
        i = i + 1;
    }
    assert(data@.subrange(0, n as int) =~= data@);
    complexity
}

/// Re-serialize a JSON string without its needless whitespace. Exactly the
/// inputs simd-json refuses fail to parse; serialization may refuse a
/// parsed value on its own.
pub fn minify_json(json_str: &str) -> (r: Result<String, JsonError>)
    ensures
        !json_accepts(encode_utf8(json_str@)) ==> r is Err,
        r is Ok ==> json_accepts(encode_utf8(json_str@)),
        r matches Err(e) ==> e is ParseError,
{
    match parse_json_simd(json_str.as_bytes()) {
        Ok(value) => serialize_owned_value(&value),
        Err(e) => Err(e),
    }
}

/// Bridge a simd-json value to a serde_json value by serializing and
/// reparsing; an unserializable or unreparsable value becomes JSON null.
pub fn simd_to_serde_value(simd_value: simd_json::OwnedValue) -> (r: serde_json::Value) {
    match simd_to_string(&simd_value) {
        Ok(json_str) => {
            match crate::request::parse_json_value(json_str.as_str().as_bytes()) {
                Some(v) => v,
                None => serde_null(),
            }
        },
        Err(_) => serde_null(),
    }
}

} // verus!
