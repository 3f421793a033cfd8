//! The calls into outside crates, and the one into `std` that `vstd` does not specify. Nothing
//! here is proved: each contract is what the called function is relied on for.

use vstd::prelude::*;
use vstd::utf8::*;

use crate::text::told;

verus! {

/// What `serde_json::from_str` into `serde_json::Value` finds wrong with a text; `None` where
/// the text is one JSON value.
pub uninterp spec fn json_fault(text: Seq<char>) -> Option<Seq<char>>;

/// Calls `serde_json::from_str::<serde_json::Value>` and keeps only its error: which texts are
/// JSON, and the message for those that are not, depend on the text alone.
#[verifier::external_body]
pub(crate) fn check_json(text: &str) -> (r: Option<String>)
    ensures
        r.deep_view() == json_fault(text@),
{
    serde_json::from_str::<serde_json::Value>(text).err().map(|e| e.to_string())
}

/// The members of a JSON object, each key with the JSON text of its value, as
/// `serde_json::from_str` reads them; or its message.
pub uninterp spec fn json_members(text: Seq<char>) -> Result<Seq<(Seq<char>, Seq<char>)>, Seq<char>>;

/// Calls `serde_json::from_str` into a `BTreeMap` from `String` to `Box<RawValue>`: the members
/// of an object in the order of their keys, the last one of each key, every value as the text
/// that stands for it. The outcome depends on the text alone.
#[verifier::external_body]
pub(crate) fn read_members(text: &str) -> (r: Result<Vec<(String, String)>, String>)
    ensures
        told(r) == json_members(text@),
{
    serde_json::from_str::<std::collections::BTreeMap<String, Box<serde_json::value::RawValue>>>(text)
        .map(|m| m.into_iter().map(|(k, v)| (k, v.get().to_string())).collect())
        .map_err(|e| e.to_string())
}

/// The elements of a JSON array, each as its JSON text, as `serde_json::from_str` reads them.
pub uninterp spec fn json_elements(text: Seq<char>) -> Option<Seq<Seq<char>>>;

/// Calls `serde_json::from_str` into a `Vec` of `Box<RawValue>`: the elements of an array in
/// order, every one as the text that stands for it. The outcome depends on the text alone.
#[verifier::external_body]
pub(crate) fn read_elements(text: &str) -> (r: Option<Vec<String>>)
    ensures
        r.deep_view() == json_elements(text@),
{
    serde_json::from_str::<Vec<Box<serde_json::value::RawValue>>>(text)
        .ok()
        .map(|v| v.into_iter().map(|e| e.get().to_string()).collect())
}

/// A JSON string or `null`, as `serde_json::from_value` reads it into an `Option<String>`; or
/// its message.
pub uninterp spec fn json_string(text: Seq<char>) -> Result<Option<Seq<char>>, Seq<char>>;

/// Calls `serde_json::from_str` into a `serde_json::Value`, then `serde_json::from_value` into
/// `Option<String>`. The outcome depends on the text alone.
#[verifier::external_body]
pub(crate) fn read_string(text: &str) -> (r: Result<Option<String>, String>)
    ensures
        told(r) == json_string(text@),
{
    serde_json::from_str::<serde_json::Value>(text)
        .and_then(serde_json::from_value::<Option<String>>)
        .map_err(|e| e.to_string())
}

/// A JSON number as `serde_json::from_value` reads it into a `u64`; or its message.
pub uninterp spec fn json_count(text: Seq<char>) -> Result<u64, Seq<char>>;

/// Calls `serde_json::from_str` into a `serde_json::Value`, then `serde_json::from_value` into
/// `u64`. The outcome depends on the text alone.
#[verifier::external_body]
pub(crate) fn read_count(text: &str) -> (r: Result<u64, String>)
    ensures
        told(r) == json_count(text@),
{
    serde_json::from_str::<serde_json::Value>(text)
        .and_then(serde_json::from_value::<u64>)
        .map_err(|e| e.to_string())
}

/// The string or `null` at the front of a text, as `serde_json::Deserializer` reads it into an
/// `Option<String>`; or its message.
pub uninterp spec fn json_front_string(text: Seq<char>) -> Result<Option<Seq<char>>, Seq<char>>;

/// Reads an `Option<String>` with a `serde_json::Deserializer` over the text. What stands behind
/// the value is not looked at. The outcome depends on the text alone.
#[verifier::external_body]
pub(crate) fn read_front_string(text: &str) -> (r: Result<Option<String>, String>)
    ensures
        told(r) == json_front_string(text@),
{
    let mut d = serde_json::Deserializer::from_str(text);
    <Option<String> as serde::Deserialize>::deserialize(&mut d).map_err(|e| e.to_string())
}

/// The string at the front of a text, as `serde_json::Deserializer` reads it into a `String`; or
/// its message.
pub uninterp spec fn json_front_name(text: Seq<char>) -> Result<Seq<char>, Seq<char>>;

/// Reads a `String` with a `serde_json::Deserializer` over the text. What stands behind the value
/// is not looked at. The outcome depends on the text alone.
#[verifier::external_body]
pub(crate) fn read_front_name(text: &str) -> (r: Result<String, String>)
    ensures
        told(r) == json_front_name(text@),
{
    let mut d = serde_json::Deserializer::from_str(text);
    <String as serde::Deserialize>::deserialize(&mut d).map_err(|e| e.to_string())
}

/// What `serde_json::Deserializer` finds wrong with the value at the front of a text that it reads
/// into a `serde_json::Value`.
pub uninterp spec fn json_front_fault(text: Seq<char>) -> Option<Seq<char>>;

/// Reads a `serde_json::Value` with a `serde_json::Deserializer` over the text and keeps only the
/// error. What stands behind the value is not looked at. The outcome depends on the text alone.
#[verifier::external_body]
pub(crate) fn check_front(text: &str) -> (r: Option<String>)
    ensures
        r.deep_view() == json_front_fault(text@),
{
    let mut d = serde_json::Deserializer::from_str(text);
    <serde_json::Value as serde::Deserialize>::deserialize(&mut d).err().map(|e| e.to_string())
}

/// What `serde_json::Deserializer` finds wrong with the array at the front of a text that it reads
/// as one `serde_json::Value` in an array.
pub uninterp spec fn json_nested_fault(text: Seq<char>) -> Option<Seq<char>>;

/// Reads a tuple of one `serde_json::Value` with a `serde_json::Deserializer` over the text and
/// keeps only the error. The outcome depends on the text alone.
#[verifier::external_body]
pub(crate) fn check_nested(text: &str) -> (r: Option<String>)
    ensures
        r.deep_view() == json_nested_fault(text@),
{
    let mut d = serde_json::Deserializer::from_str(text);
    <(serde_json::Value,) as serde::Deserialize>::deserialize(&mut d).err().map(|e| e.to_string())
}

/// The first two of three elements of a JSON array, a string or `null` and a string, as
/// `serde_json::from_str` reads them; or its message.
pub uninterp spec fn json_triple(text: Seq<char>) -> Result<
    (Option<Seq<char>>, Seq<char>),
    Seq<char>,
>;

/// Calls `serde_json::from_str` into a tuple of an `Option<String>`, a `String` and a
/// `serde_json::Value`, of which the last is left out. The outcome depends on the text alone, and
/// it is such a tuple only where the text is an array of three elements.
#[verifier::external_body]
pub(crate) fn read_triple(text: &str) -> (r: Result<(Option<String>, String), String>)
    ensures
        told(r) == json_triple(text@),
        r is Ok ==> json_elements(text@) is Some && json_elements(text@)->0.len() == 3,
{
    serde_json::from_str::<(Option<String>, String, serde_json::Value)>(text)
        .map(|t| (t.0, t.1))
        .map_err(|e| e.to_string())
}

/// The SHA-256 digest of some bytes in lower case hexadecimal, as `sha2` computes it.
pub uninterp spec fn sha256_hex(bytes: Seq<u8>) -> Seq<char>;

/// A text of 64 lower case hexadecimal digits.
pub open spec fn is_digest(s: Seq<char>) -> bool {
    s.len() == 64 && forall|i: int|
        0 <= i < 64 ==> '0' <= #[trigger] s[i] <= '9' || 'a' <= s[i] <= 'f'
}

/// Calls `sha2::Sha256::digest` and writes the digest in hexadecimal: two lower case digits for
/// each of its 32 bytes. It depends on the bytes alone.
#[verifier::external_body]
pub(crate) fn digest_hex(bytes: &Vec<u8>) -> (r: String)
    ensures
        r@ == sha256_hex(bytes@),
        is_digest(r@),
{
    format!("{:x}", <sha2::Sha256 as sha2::Digest>::digest(bytes))
}

/// A text with every quote doubled.
pub open spec fn doubled(t: Seq<char>) -> Seq<char>
    decreases t.len(),
{
    if t.len() == 0 {
        t
    } else if t.last() == '"' {
        doubled(t.drop_last()) + seq!['"', '"']
    } else {
        doubled(t.drop_last()).push(t.last())
    }
}

/// A field holds what would be taken for the end of a field or of a record, or for a quote.
pub open spec fn needs_quotes(t: Seq<char>) -> bool {
    t.contains(',') || t.contains('"') || t.contains('\r') || t.contains('\n')
}

/// A field as it is written: within quotes where it needs them.
pub open spec fn csv_field(t: Seq<char>) -> Seq<char> {
    if needs_quotes(t) {
        seq!['"'] + doubled(t) + seq!['"']
    } else {
        t
    }
}

/// Fields with commas between them.
pub open spec fn csv_fields(fields: Seq<Seq<char>>) -> Seq<char>
    decreases fields.len(),
{
    if fields.len() == 0 {
        Seq::empty()
    } else if fields.len() == 1 {
        csv_field(fields[0])
    } else {
        csv_fields(fields.drop_last()) + seq![','] + csv_field(fields.last())
    }
}

/// One record of a table, line end included. A record that would be an empty line holds a pair of
/// quotes.
pub open spec fn csv_line(fields: Seq<Seq<char>>) -> Seq<u8> {
    let t = csv_fields(fields);
    encode_utf8(
        if t.len() == 0 {
            seq!['"', '"', '\n']
        } else {
            t.push('\n')
        },
    )
}

/// Writes one record with a `csv::Writer` of its own over a `Vec<u8>`, which never fails. As the
/// writer is configured by default, fields are parted by commas, a line feed ends the record, and
/// a field with a comma, a quote, a carriage return or a line feed is put in quotes, its own quotes
/// being doubled.
#[verifier::external_body]
pub(crate) fn write_csv_line(fields: &Vec<String>) -> (r: Vec<u8>)
    ensures
        r@ == csv_line(fields.deep_view()),
{
    let mut writer = csv::Writer::from_writer(Vec::new());
    writer.write_record(fields).expect("a vector takes every record");
    writer.into_inner().expect("a vector takes every byte")
}

/// Bytes as a text, what is not UTF-8 replaced as `String::from_utf8_lossy` does it.
pub uninterp spec fn lossy_text(bytes: Seq<u8>) -> Seq<char>;

/// Calls `String::from_utf8_lossy`: bytes that are UTF-8 are read as they are, in others every
/// ill-formed part gives way to the replacement character.
#[verifier::external_body]
pub(crate) fn read_lossy(bytes: &Vec<u8>) -> (r: String)
    ensures
        r@ == lossy_text(bytes@),
        valid_utf8(bytes@) ==> r@ == decode_utf8(bytes@),
{
    String::from_utf8_lossy(bytes).into_owned()
}

} // verus!
