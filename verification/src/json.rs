//! JSON texts, as the `serde_json` crate reads and writes them.

use crate::text;
use vstd::prelude::*;

verus! {

/// A JSON value of the `serde_json` crate. The library carries such values and
/// never looks into them.
#[verifier::external_type_specification]
#[verifier::external_body]
pub struct ExJsonValue(serde_json::Value);

/// What kind of JSON value a text holds.
#[derive(Debug, Clone, Copy, PartialEq, Eq, Structural)]
pub enum JsonShape {
    Null,
    Bool,
    Number,
    Text,
    Array,
    Object,
}

/// What `serde_json::from_str` makes of a text: the kind of the value and the
/// value as its `to_string` writes it, or the words of the error.
pub uninterp spec fn json_reading(json: Seq<char>) -> Result<(JsonShape, Seq<char>), Seq<char>>;

/// The text under a key of the JSON object that a text holds: what
/// `serde_json::from_str`, `Value::get` and `Value::as_str` give one after the
/// other. There is none where the text is not JSON, not an object, or has no
/// text under the key.
pub uninterp spec fn text_field(json: Seq<char>, key: Seq<char>) -> Option<Seq<char>>;

/// What the `to_string` of a `serde_json::Value` writes for an object whose
/// members were put in one after the other. A member without a value is `null`.
pub uninterp spec fn object_text(members: Seq<(Seq<char>, Option<Seq<char>>)>) -> Seq<char>;

/// The view of a reading.
pub open spec fn reading(r: Result<(JsonShape, String), String>) -> Result<
    (JsonShape, Seq<char>),
    Seq<char>,
> {
    match r {
        Ok(v) => Ok((v.0, v.1@)),
        Err(e) => Err(e@),
    }
}

/// The views of members.
pub open spec fn members(v: Seq<(String, Option<String>)>) -> Seq<(Seq<char>, Option<Seq<char>>)> {
    v.map_values(|m: (String, Option<String>)| (m.0@, text::opt_text(m.1)))
}

/// Whether no two members have the same key.
pub open spec fn keys_differ(members: Seq<(Seq<char>, Option<Seq<char>>)>) -> bool {
    forall|i: int, j: int|
        0 <= i < j < members.len() ==> (#[trigger] members[i]).0 != (#[trigger] members[j]).0
}

/// Whether a key consists of letters of the Latin alphabet and underscores. The
/// keys by which `serde_json` marks values of its own do not.
pub open spec fn is_plain(key: Seq<char>) -> bool {
    forall|i: int|
        0 <= i < key.len() ==> 'a' <= #[trigger] key[i] <= 'z' || 'A' <= key[i] <= 'Z' || key[i]
            == '_'
}

/// Whether every member has such a key.
pub open spec fn keys_plain(members: Seq<(Seq<char>, Option<Seq<char>>)>) -> bool {
    forall|i: int| 0 <= i < members.len() ==> is_plain((#[trigger] members[i]).0)
}

/// `serde_json::from_str` reads a JSON value out of a text, or fails.
#[verifier::external_body]
pub(crate) fn read_json(json: &str) -> (r: Result<(JsonShape, String), String>)
    ensures
        reading(r) == json_reading(json@),
{
    let value: serde_json::Value = match serde_json::from_str(json) {
        Ok(value) => value,
        Err(e) => return Err(e.to_string()),
    };
    let shape = match &value {
        serde_json::Value::Null => JsonShape::Null,
        serde_json::Value::Bool(_) => JsonShape::Bool,
        serde_json::Value::Number(_) => JsonShape::Number,
        serde_json::Value::String(_) => JsonShape::Text,
        serde_json::Value::Array(_) => JsonShape::Array,
        serde_json::Value::Object(_) => JsonShape::Object,
    };
    Ok((shape, value.to_string()))
}

/// `serde_json::from_str` reads a JSON value, `Value::get` finds a member of it,
/// and `Value::as_str` gives the member's text.
#[verifier::external_body]
pub(crate) fn read_text_field(json: &str, key: &str) -> (r: Option<String>)
    ensures
        text::opt_text(r) == text_field(json@, key@),
{
    let value: serde_json::Value = serde_json::from_str(json).ok()?;
    Some(value.get(key)?.as_str()?.to_string())
}

/// `serde_json::Map::insert` puts members into an object, and the `to_string` of
/// a `serde_json::Value` writes the object: without line feeds, those inside
/// texts being escaped. Each text is read back under its key; under the key of a
/// `null` no text is read. The keys have to be plain: an object that begins with
/// one of the keys that `serde_json` keeps for itself is not read as an object.
#[verifier::external_body]
pub(crate) fn write_object(object: &Vec<(String, Option<String>)>) -> (r: String)
    requires
        keys_differ(members(object@)),
        keys_plain(members(object@)),
    ensures
        r@ == object_text(members(object@)),
        forall|i: int|
            0 <= i < object@.len() ==> text_field(r@, (#[trigger] object@[i]).0@) == text::opt_text(
                object@[i].1,
            ),
        forall|i: int| 0 <= i < r@.len() ==> #[trigger] r@[i] != '\n',
{
    let mut map = serde_json::Map::new();
    for (key, value) in object {
        map.insert(key.clone(), serde_json::Value::from(value.clone()));
    }
    serde_json::Value::Object(map).to_string()
}

} // verus!
