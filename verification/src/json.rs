//! JSON documents as plain values, and how they stand in pages.
use crate::decode::{decode_html_entities, entities_decoded, percent_decode, percent_decoded};
use crate::patterns::texts_model;
use crate::text::{lower, same, starts_with, to_lower, trim, trimmed};
use vstd::prelude::*;

verus! {

/// A finite number as this library orders and weighs it. Reading digits as
/// binary floating point is left to the caller, who keeps the two in step.
#[derive(Debug, Clone, Copy, PartialEq, Eq, Structural)]
pub struct Reading {
    /// The number's place among all double-precision numbers: positive zero is
    /// at 0, negative zero at -1, and greater numbers have greater places.
    pub place: i64,
    /// What the number adds to a score as a bit rate, in hundredths of a point:
    /// twice the decimal logarithm of the number and one, at most 12 points.
    pub bonus: u16,
}

/// A number of a JSON document.
#[derive(Debug)]
pub struct JsonNumber {
    /// The number in decimal.
    pub text: String,
    /// The number where it is a 64-bit integer.
    pub integer: Option<i64>,
    /// The number as it is ordered and weighed, if it was read and is finite.
    pub reading: Option<Reading>,
}

/// A string of a JSON document.
#[derive(Debug)]
pub struct JsonText {
    pub text: String,
    /// The number that the string writes, if it was read and is finite.
    pub reading: Option<Reading>,
}

/// A member of a JSON object.
#[derive(Debug)]
pub struct JsonMember {
    pub key: String,
    pub value: Json,
}

/// A JSON document. An object's members are in the order in which they are
/// visited.
#[derive(Debug)]
pub enum Json {
    Null,
    Bool(bool),
    Number(JsonNumber),
    Text(JsonText),
    Array(Vec<Json>),
    Object(Vec<JsonMember>),
}

/// What `serde_json::from_str` makes of a text: a document, or the text of the
/// error.
pub uninterp spec fn json_parsed(text: Seq<char>) -> Result<Json, Seq<char>>;

pub open spec fn json_result(parsed: Result<Json, String>) -> Result<Json, Seq<char>> {
    match parsed {
        Ok(json) => Ok(json),
        Err(error) => Err(error@),
    }
}

/// `serde_json::Value`, a parsed document.
#[verifier::external_type_specification]
#[verifier::external_body]
pub struct ExValue(serde_json::Value);

/// Takes a `serde_json::Value` apart, for the function below: each value as
/// the variant of its kind, numbers by their text and their `as_i64`, and the
/// members of an object in the order of its map.
#[verifier::external_body]
fn json_of(value: serde_json::Value) -> (json: Json) {
    match value {
        serde_json::Value::Null => Json::Null,
        serde_json::Value::Bool(flag) => Json::Bool(flag),
        serde_json::Value::Number(number) => Json::Number(
            JsonNumber { text: number.to_string(), integer: number.as_i64(), reading: None },
        ),
        serde_json::Value::String(text) => Json::Text(JsonText { text, reading: None }),
        serde_json::Value::Array(items) => Json::Array(items.into_iter().map(json_of).collect()),
        serde_json::Value::Object(members) => Json::Object(
            members.into_iter().map(|(key, value)| JsonMember { key, value: json_of(value) }).collect(),
        ),
    }
}

/// `serde_json::from_str` into a `serde_json::Value`: the document, or the text
/// of the error, depends on the text alone.
#[verifier::external_body]
pub(crate) fn parse_json(text: &str) -> (parsed: Result<Json, String>)
    ensures
        json_result(parsed) == json_parsed(text@),
{
    serde_json::from_str(text).map(json_of).map_err(|error: serde_json::Error| error.to_string())
}

/// The position of the first member with this name.
pub open spec fn member_at(members: Seq<JsonMember>, key: Seq<char>) -> int
    decreases members.len(),
{
    if members.len() == 0 {
        0
    } else if members[0].key@ == key {
        0
    } else {
        1 + member_at(members.skip(1), key)
    }
}

/// The object has a member with this name.
pub open spec fn has_member(members: Seq<JsonMember>, key: Seq<char>) -> bool {
    member_at(members, key) < members.len()
}

/// The value of the member with this name.
pub open spec fn member(members: Seq<JsonMember>, key: Seq<char>) -> Option<Json> {
    if has_member(members, key) {
        Some(members[member_at(members, key)].value)
    } else {
        None
    }
}

pub proof fn lemma_member_at(members: Seq<JsonMember>, key: Seq<char>)
    ensures
        0 <= member_at(members, key) <= members.len(),
    decreases members.len(),
{
    if members.len() > 0 && members[0].key@ != key {
        lemma_member_at(members.skip(1), key);
    }
}

pub open spec fn optional_json(value: Option<&Json>) -> Option<Json> {
    match value {
        Some(value) => Some(*value),
        None => None,
    }
}

/// The value of the member with this name.
pub fn find_member<'a>(members: &'a Vec<JsonMember>, key: &str) -> (value: Option<&'a Json>)
    ensures
        optional_json(value) == member(members@, key@),
{
    let mut at: usize = 0;
    assert(members@.skip(0) =~= members@);
    while at < members.len()
        invariant
            at <= members@.len(),
            member_at(members@, key@) == at + member_at(members@.skip(at as int), key@),
        decreases members@.len() - at,
    {
        assert(members@.skip(at as int).skip(1) =~= members@.skip(at + 1));
        if same(members[at].key.as_str(), key) {
            return Some(&members[at].value);
        }
        at = at + 1;
    }
    None
}

/// The texts of the addresses that a value holds: the value itself if it is a
/// string, those of its items if it is a list, and for an object those of the
/// first of its lists of addresses, or else its single address.
pub open spec fn address_texts(value: Json) -> Seq<Seq<char>>
    decreases value,
{
    match value {
        Json::Text(text) => seq![text.text@],
        Json::Array(items) => list_texts(items@, items@.len()),
        Json::Object(members) => {
            let first = member_at(members@, "url_list"@);
            let second = member_at(members@, "urlList"@);
            let third = member_at(members@, "urls"@);
            if 0 <= first < members@.len() && members@[first].value is Array {
                list_texts(members@[first].value->Array_0@, members@[first].value->Array_0@.len())
            } else if 0 <= second < members@.len() && members@[second].value is Array {
                list_texts(members@[second].value->Array_0@, members@[second].value->Array_0@.len())
            } else if 0 <= third < members@.len() && members@[third].value is Array {
                list_texts(members@[third].value->Array_0@, members@[third].value->Array_0@.len())
            } else {
                match member(members@, "url"@) {
                    Some(Json::Text(text)) => seq![text.text@],
                    _ => Seq::empty(),
                }
            }
        },
        _ => Seq::empty(),
    }
}

/// The texts of the addresses that the first `count` items hold.
pub open spec fn list_texts(items: Seq<Json>, count: nat) -> Seq<Seq<char>>
    decreases items, count,
{
    if count == 0 || count > items.len() {
        Seq::empty()
    } else {
        list_texts(items, (count - 1) as nat) + address_texts(items[count - 1])
    }
}

/// Adds the texts of the addresses that a value holds to `output`.
pub fn extract_address_urls(value: &Json, output: &mut Vec<String>)
    ensures
        texts_model(final(output)@) == texts_model(old(output)@) + address_texts(*value),
    decreases *value,
{
    match value {
        Json::Text(text) => {
            output.push(text.text.clone());
            assert(texts_model(output@) =~= texts_model(old(output)@) + seq![text.text@]);
        },
        Json::Array(items) => {
            extract_list_urls(items, output);
        },
        Json::Object(members) => {
            proof {
                lemma_member_at(members@, "url_list"@);
                lemma_member_at(members@, "urlList"@);
                lemma_member_at(members@, "urls"@);
            }
            if let Some(Json::Array(items)) = find_member(members, "url_list") {
                proof {
                    let at = member_at(members@, "url_list"@);
                    assert(decreases_to!(*value => members@[at].value->Array_0@));
                }
                extract_list_urls(items, output);
                return;
            }
            if let Some(Json::Array(items)) = find_member(members, "urlList") {
                proof {
                    let at = member_at(members@, "urlList"@);
                    assert(decreases_to!(*value => members@[at].value->Array_0@));
                }
                extract_list_urls(items, output);
                return;
            }
            if let Some(Json::Array(items)) = find_member(members, "urls") {
                proof {
                    let at = member_at(members@, "urls"@);
                    assert(decreases_to!(*value => members@[at].value->Array_0@));
                }
                extract_list_urls(items, output);
                return;
            }
            if let Some(Json::Text(text)) = find_member(members, "url") {
                output.push(text.text.clone());
                assert(texts_model(output@) =~= texts_model(old(output)@) + seq![text.text@]);
            }
        },
        _ => {},
    }
}

fn extract_list_urls(items: &Vec<Json>, output: &mut Vec<String>)
    ensures
        texts_model(final(output)@) == texts_model(old(output)@) + list_texts(
            items@,
            items@.len(),
        ),
    decreases items@,
{
    let mut at: usize = 0;
    while at < items.len()
        invariant
            at <= items@.len(),
            texts_model(output@) == texts_model(old(output)@) + list_texts(items@, at as nat),
        decreases items@.len() - at,
    {
        extract_address_urls(&items[at], output);
        at = at + 1;
        assert(texts_model(output@) =~= texts_model(old(output)@) + list_texts(items@, at as nat));
    }
}

/// The value, with a document that stands in a string taken out of it, at most
/// `rounds` times.
pub open spec fn taken_out(value: Json, rounds: nat) -> Option<Json>
    decreases rounds,
{
    match value {
        Json::Text(text) => if rounds == 0 {
            Some(value)
        } else {
            match json_parsed(text.text@) {
                Ok(inner) => taken_out(inner, (rounds - 1) as nat),
                Err(_) => None,
            }
        },
        _ => Some(value),
    }
}

/// A payload's text with entities decoded, and percent-decoded where it is
/// known to be encoded or starts like an encoded document.
pub open spec fn payload_text(text: Seq<char>, uri_encoded: bool) -> Option<Seq<char>> {
    let small = lower(text);
    if uri_encoded || "%7b"@.is_prefix_of(small) || "%5b"@.is_prefix_of(small)
        || "%22"@.is_prefix_of(small) {
        percent_decoded(text)
    } else {
        Some(text)
    }
}

/// The document in a payload whose entities are decoded.
pub open spec fn payload_read(text: Seq<char>, uri_encoded: bool) -> Option<Json> {
    match payload_text(text, uri_encoded) {
        None => None,
        Some(plain) => match json_parsed(plain) {
            Ok(value) => taken_out(value, 2),
            Err(_) => None,
        },
    }
}

/// The document in a payload as pages hold it.
pub open spec fn payload(value: Seq<char>, uri_encoded: bool) -> Option<Json> {
    payload_read(entities_decoded(trimmed(value)), uri_encoded)
}

/// The value, with a document that stands in a string taken out of it, at most
/// `rounds` times.
pub fn take_out(value: Json, rounds: usize) -> (inner: Option<Json>)
    ensures
        inner == taken_out(value, rounds as nat),
    decreases rounds,
{
    match value {
        Json::Text(text) => {
            if rounds == 0 {
                return Some(Json::Text(text));
            }
            match parse_json(text.text.as_str()) {
                Ok(inner) => take_out(inner, rounds - 1),
                Err(_) => None,
            }
        },
        other => Some(other),
    }
}

/// The document in a payload as pages hold it.
pub fn parse_json_payload(value: &str, uri_encoded: bool) -> (document: Option<Json>)
    ensures
        document == payload(value@, uri_encoded),
{
    let inner = trim(value);
    let text = decode_html_entities(inner.as_str());
    let small = to_lower(text.as_str());
    let small = small.as_str();
    let plain = if uri_encoded || starts_with(small, "%7b") || starts_with(small, "%5b")
        || starts_with(small, "%22") {
        match percent_decode(text.as_str()) {
            Some(plain) => plain,
            None => {
                return None;
            },
        }
    } else {
        text
    };
    match parse_json(plain.as_str()) {
        Ok(value) => take_out(value, 2),
        Err(_) => None,
    }
}

} // verus!
