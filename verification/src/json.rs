//! JSON values, as the crate `serde_json` holds, reads and writes them.

use vstd::prelude::*;
use vstd::utf8::{decode_utf8, valid_utf8};

use crate::text::optional;

verus! {

/// What a JSON value is. Numbers with a fraction or an exponent are not told
/// apart.
pub enum Json {
    Null,
    Bool(bool),
    Integer(int),
    Float,
    Text(Seq<char>),
    Array(Seq<Json>),
    Object(Map<Seq<char>, Json>),
}

impl Json {
    /// The member of an object under a key.
    pub open spec fn member(self, key: Seq<char>) -> Option<Json> {
        match self {
            Json::Object(members) => if members.contains_key(key) {
                Some(members[key])
            } else {
                None
            },
            _ => None,
        }
    }

    /// The text that the value is, if it is one.
    pub open spec fn text(self) -> Option<Seq<char>> {
        match self {
            Json::Text(text) => Some(text),
            _ => None,
        }
    }

    /// The text under a key of an object, if there is one.
    pub open spec fn text_member(self, key: Seq<char>) -> Option<Seq<char>> {
        match self.member(key) {
            Some(value) => value.text(),
            None => None,
        }
    }

    /// Whether the value holds no `Float` and is nested at most `depth` deep.
    pub open spec fn exact(self, depth: nat) -> bool
        decreases depth,
    {
        match self {
            Json::Float => false,
            Json::Array(items) => depth > 0 && forall|i: int|
                0 <= i < items.len() ==> (#[trigger] items[i]).exact((depth - 1) as nat),
            Json::Object(members) => depth > 0 && forall|key: Seq<char>| #[trigger]
                members.contains_key(key) ==> members[key].exact((depth - 1) as nat),
            _ => true,
        }
    }
}

/// `serde_json::Value`, a JSON value.
#[verifier::external_type_specification]
#[verifier::external_body]
pub struct ExValue(serde_json::Value);

/// `serde_json::Map`, the members of a JSON object.
#[verifier::external_type_specification]
#[verifier::external_body]
#[verifier::reject_recursive_types(K)]
#[verifier::reject_recursive_types(V)]
pub struct ExMembers<K, V>(serde_json::Map<K, V>);

/// What a `serde_json::Value` holds.
pub uninterp spec fn json_of(value: serde_json::Value) -> Json;

/// What a `serde_json::Map` holds.
pub uninterp spec fn members_of(members: serde_json::Map<String, serde_json::Value>) -> Map<
    Seq<char>,
    Json,
>;

/// What `serde_json::from_str` makes of a text: a value, or the text of an
/// error.
pub uninterp spec fn json_parse(text: Seq<char>) -> Result<Json, Seq<char>>;

/// What `serde_json::from_slice` makes of bytes: a value, or the text of an
/// error.
pub uninterp spec fn json_parse_bytes(bytes: Seq<u8>) -> Result<Json, Seq<char>>;

/// `serde_json::from_str` reads a value from a text. Its result depends on the
/// text alone.
#[verifier::external_body]
pub(crate) fn parse_text(text: &str) -> (res: Result<serde_json::Value, String>)
    ensures
        match res {
            Ok(value) => json_parse(text@) == Ok::<Json, Seq<char>>(json_of(value)),
            Err(message) => json_parse(text@) == Err::<Json, Seq<char>>(message@),
        },
{
    serde_json::from_str(text).map_err(|e: serde_json::Error| e.to_string())
}

/// `serde_json::from_slice` reads a value from bytes. Its result depends on
/// the bytes alone. On valid UTF-8 it is that of `serde_json::from_str` on the
/// text that the bytes encode.
#[verifier::external_body]
pub(crate) fn parse_bytes(bytes: &[u8]) -> (res: Result<serde_json::Value, String>)
    ensures
        match res {
            Ok(value) => json_parse_bytes(bytes@) == Ok::<Json, Seq<char>>(json_of(value)),
            Err(message) => json_parse_bytes(bytes@) == Err::<Json, Seq<char>>(message@),
        },
        valid_utf8(bytes@) ==> match res {
            Ok(value) => json_parse(decode_utf8(bytes@)) == Ok::<Json, Seq<char>>(json_of(value)),
            Err(message) => json_parse(decode_utf8(bytes@)) == Err::<Json, Seq<char>>(message@),
        },
{
    serde_json::from_slice(bytes).map_err(|e: serde_json::Error| e.to_string())
}

/// `serde_json::to_string` writes a value as a text that `serde_json::from_str`
/// reads back as the same value. It does not fail on a `Value`, whose objects
/// have texts as keys. Values nested deeper than the reader allows are left
/// out, and so are floats, which need not come back the same.
#[verifier::external_body]
pub(crate) fn write_text(value: &serde_json::Value) -> (res: Result<String, String>)
    requires
        json_of(*value).exact(127),
    ensures
        match res {
            Ok(text) => json_parse(text@) == Ok::<Json, Seq<char>>(json_of(*value)),
            Err(_) => false,
        },
{
    serde_json::to_string(value).map_err(|e: serde_json::Error| e.to_string())
}

/// `Value::get` with a text as the index returns the member of an object under
/// that key, and nothing for a value that is no object.
#[verifier::external_body]
pub(crate) fn member<'a>(value: &'a serde_json::Value, key: &str) -> (res: Option<
    &'a serde_json::Value,
>)
    ensures
        match res {
            Some(found) => json_of(*value).member(key@) == Some(json_of(*found)),
            None => json_of(*value).member(key@) is None,
        },
{
    value.get(key)
}

/// `Value::as_str` returns the text that a value is, and nothing for a value
/// that is no text.
#[verifier::external_body]
pub(crate) fn as_text<'a>(value: &'a serde_json::Value) -> (res: Option<&'a str>)
    ensures
        match res {
            Some(text) => json_of(*value).text() == Some(text@),
            None => json_of(*value).text() is None,
        },
{
    value.as_str()
}

/// `serde_json::Map::new` makes an object without members.
#[verifier::external_body]
pub(crate) fn new_members() -> (members: serde_json::Map<String, serde_json::Value>)
    ensures
        (members_of(members) == Map::<Seq<char>, Json>::empty()),
{
    serde_json::Map::new()
}

/// `serde_json::Map::insert` puts a value under a key, in place of one that was
/// there.
#[verifier::external_body]
pub(crate) fn insert_member(
    members: &mut serde_json::Map<String, serde_json::Value>,
    key: &str,
    value: serde_json::Value,
)
    ensures
        members_of(*final(members)) == members_of(*old(members)).insert(key@, json_of(value)),
{
    members.insert(key.to_string(), value);
}

/// `Value::from` on a `serde_json::Map` makes the object with these members.
#[verifier::external_body]
pub(crate) fn object_value(members: serde_json::Map<String, serde_json::Value>) -> (value:
    serde_json::Value)
    ensures
        json_of(value) == Json::Object(members_of(members)),
{
    serde_json::Value::from(members)
}

/// `Value::from` on a text makes that text.
#[verifier::external_body]
pub(crate) fn text_value(text: &str) -> (value: serde_json::Value)
    ensures
        json_of(value) == Json::Text(text@),
{
    serde_json::Value::from(text)
}

/// `Value::from` on a `u32` makes that number.
#[verifier::external_body]
pub(crate) fn number_value(number: u32) -> (value: serde_json::Value)
    ensures
        json_of(value) == Json::Integer(number as int),
{
    serde_json::Value::from(number)
}

/// `Value::from` on `()` makes the null value.
#[verifier::external_body]
pub(crate) fn null_value() -> (value: serde_json::Value)
    ensures
        json_of(value) is Null,
{
    serde_json::Value::from(())
}

/// The text under a key of an object, if there is one.
pub(crate) fn text_member(value: &serde_json::Value, key: &str) -> (res: Option<String>)
    ensures
        optional(res) == json_of(*value).text_member(key@),
{
    match member(value, key) {
        Some(found) => match as_text(found) {
            Some(text) => Some(text.to_owned()),
            None => None,
        },
        None => None,
    }
}

} // verus!
