//! JSON documents, read and built with `serde_json`.

use serde_json::Value;
use vstd::prelude::*;

use crate::decimal;
use crate::decimal::Decimal;
use crate::number;

verus! {

/// Declares `serde_json::Value`. What one holds is its [`json_tree`].
#[verifier::external_type_specification]
#[verifier::external_body]
pub struct ExValue(serde_json::Value);

/// What a JSON value is. A number that is not kept as an integer is known by the text that
/// it is written as.
#[verifier::ext_equal]
pub enum Json {
    Null,
    Bool(bool),
    Integer(int),
    Float(Seq<char>),
    Text(Seq<char>),
    Array(Seq<Json>),
    Object(Map<Seq<char>, Json>),
}

/// What a `serde_json::Value` holds.
pub uninterp spec fn json_tree(v: serde_json::Value) -> Json;

/// The document that `serde_json` reads from bytes, if they are one.
pub uninterp spec fn json_document(bytes: Seq<u8>) -> Option<Json>;

/// The bytes that `serde_json` writes for a value.
pub uninterp spec fn json_encoding(tree: Json) -> Seq<u8>;

/// What the values of a list hold.
pub open spec fn json_trees(list: Seq<serde_json::Value>) -> Seq<Json> {
    list.map_values(|v: serde_json::Value| json_tree(v))
}

impl Json {
    /// The member of an object, where it is one and has it.
    pub open spec fn member(self, key: Seq<char>) -> Option<Json> {
        match self {
            Json::Object(fields) => if fields.contains_key(key) {
                Some(fields[key])
            } else {
                None
            },
            _ => None,
        }
    }

    /// The element of an array, where it is one and has it.
    pub open spec fn element(self, index: int) -> Option<Json> {
        match self {
            Json::Array(items) => if 0 <= index < items.len() {
                Some(items[index])
            } else {
                None
            },
            _ => None,
        }
    }

    /// The text of a string.
    pub open spec fn text(self) -> Option<Seq<char>> {
        match self {
            Json::Text(s) => Some(s),
            _ => None,
        }
    }

    /// The value of a number that is an `i64`.
    pub open spec fn integer(self) -> Option<i64> {
        match self {
            Json::Integer(n) => if i64::MIN <= n <= i64::MAX {
                Some(n as i64)
            } else {
                None
            },
            _ => None,
        }
    }

    /// How a number is written.
    pub open spec fn number_text(self) -> Option<Seq<char>> {
        match self {
            Json::Integer(n) => Some(number::integer_text(n)),
            Json::Float(s) => Some(s),
            _ => None,
        }
    }

    /// The text of a member.
    pub open spec fn member_text(self, key: Seq<char>) -> Option<Seq<char>> {
        match self.member(key) {
            Some(v) => v.text(),
            None => None,
        }
    }

    /// The integer in a member.
    pub open spec fn member_integer(self, key: Seq<char>) -> Option<i64> {
        match self.member(key) {
            Some(v) => v.integer(),
            None => None,
        }
    }

    /// Whether a value has arrays and objects nested at most `depth` deep, and no key that
    /// starts with a dollar sign.
    pub open spec fn plain(self, depth: nat) -> bool
        decreases depth,
    {
        match self {
            Json::Null | Json::Bool(_) | Json::Integer(_) | Json::Float(_) | Json::Text(_) => true,
            Json::Array(items) => depth > 0 && forall|i: int|
                0 <= i < items.len() ==> (#[trigger] items[i]).plain((depth - 1) as nat),
            Json::Object(fields) => depth > 0 && forall|k: Seq<char>| #[trigger]
                fields.contains_key(k) ==> {
                    &&& !(k.len() > 0 && k[0] == '$')
                    &&& fields[k].plain((depth - 1) as nat)
                },
        }
    }
}

/// The short decimal that bytes spell, where they are its text.
pub open spec fn short_number(bytes: Seq<u8>) -> Option<Decimal> {
    match decimal::decimal_of(vstd::utf8::decode_utf8(bytes)) {
        Some(d) => if d.short() && bytes == vstd::utf8::encode_utf8(decimal::decimal_text(d)) {
            Some(d)
        } else {
            None
        },
        None => None,
    }
}

/// Calls `serde_json::from_slice` for a `Value`. Whether the bytes are a document, and which
/// one, depends on them alone and is left to the name, but for short decimals: with the
/// feature `float_roundtrip` such a number is read as the nearest of double precision, and the
/// shortest text for that one, which is how `serde_json` writes it, is the decimal's own.
#[verifier::external_body]
pub(crate) fn parse(bytes: &[u8]) -> (r: Option<Value>)
    ensures
        match r {
            Some(v) => json_document(bytes@) == Some(json_tree(v)),
            None => json_document(bytes@) is None,
        },
        match r {
            Some(v) => short_number(bytes@) matches Some(d) ==> json_tree(v) == Json::Float(
                decimal::decimal_text(d),
            ),
            None => short_number(bytes@) is None,
        },
{
    match serde_json::from_slice::<Value>(bytes) {
        Ok(v) => Some(v),
        Err(_) => None,
    }
}

/// Calls `serde_json::to_vec` on a `Value`, which has no key but strings and therefore
/// cannot fail. Object members come sorted by key, so that the bytes depend on the contents
/// alone. A document that is nested less deep than the limit of `serde_json::from_slice` is
/// read back from its bytes as it was, its numbers included: the feature `float_roundtrip` of
/// `serde_json` makes sure of those that are not integers. Of keys with a dollar sign in front
/// nothing is said, since `serde_json` keeps such a one for itself.
#[verifier::external_body]
pub(crate) fn encode(v: &Value) -> (bytes: Vec<u8>)
    ensures
        bytes@ == json_encoding(json_tree(*v)),
        json_tree(*v).plain(100) ==> json_document(bytes@) == Some(json_tree(*v)),
{
    serde_json::to_vec(v).expect("a JSON value can be written")
}

/// Calls `Value::get` with a key: the member of an object, and nothing for any other value.
#[verifier::external_body]
pub(crate) fn member<'a>(v: &'a Value, key: &str) -> (r: Option<&'a Value>)
    ensures
        match r {
            Some(m) => json_tree(*v).member(key@) == Some(json_tree(*m)),
            None => json_tree(*v).member(key@) is None,
        },
{
    v.get(key)
}

/// Calls `Value::get` with an index: the element of an array, and nothing for any other
/// value.
#[verifier::external_body]
pub(crate) fn element(v: &Value, index: usize) -> (r: Option<&Value>)
    ensures
        match r {
            Some(e) => json_tree(*v).element(index as int) == Some(json_tree(*e)),
            None => json_tree(*v).element(index as int) is None,
        },
{
    v.get(index)
}

/// Calls `Value::as_str`: the text of a string, and nothing for any other value.
#[verifier::external_body]
pub(crate) fn as_text(v: &Value) -> (r: Option<&str>)
    ensures
        match r {
            Some(s) => json_tree(*v).text() == Some(s@),
            None => json_tree(*v).text() is None,
        },
{
    v.as_str()
}

/// Calls `Value::as_i64`: the value of an integer that fits, and nothing for any other value.
#[verifier::external_body]
pub(crate) fn as_integer(v: &Value) -> (r: Option<i64>)
    ensures
        r == json_tree(*v).integer(),
{
    v.as_i64()
}

/// Calls `Value::as_number` and writes the number with its `Display`: an integer in decimal,
/// any other number as its contents name it.
#[verifier::external_body]
pub(crate) fn number_text(v: &Value) -> (r: Option<String>)
    ensures
        match r {
            Some(s) => json_tree(*v).number_text() == Some(s@),
            None => json_tree(*v).number_text() is None,
        },
{
    match v.as_number() {
        Some(n) => Some(n.to_string()),
        None => None,
    }
}

/// Makes a `Value::String`.
#[verifier::external_body]
pub(crate) fn text_value(s: &str) -> (v: Value)
    ensures
        json_tree(v) == Json::Text(s@),
{
    Value::from(s)
}

/// Makes a `Value::Number` of an integer.
#[verifier::external_body]
pub(crate) fn integer_value(n: i64) -> (v: Value)
    ensures
        json_tree(v) == Json::Integer(n as int),
{
    Value::from(n)
}

/// Makes a `Value::Null`.
#[verifier::external_body]
pub(crate) fn null_value() -> (v: Value)
    ensures
        json_tree(v) == Json::Null,
{
    Value::Null
}

/// Makes a `Value::Array`.
#[verifier::external_body]
pub(crate) fn array_value(items: Vec<Value>) -> (v: Value)
    ensures
        json_tree(v) == Json::Array(json_trees(items@)),
{
    Value::Array(items)
}

/// Makes a `Value::Object` of an empty `serde_json::Map`.
#[verifier::external_body]
pub(crate) fn object_value() -> (v: Value)
    ensures
        json_tree(v) == Json::Object(Map::empty()),
{
    Value::Object(serde_json::Map::new())
}

/// Assigns to a member of an object through `IndexMut`: the member is set, and added where
/// it was missing.
#[verifier::external_body]
pub(crate) fn set_member(object: &mut Value, key: &str, value: Value)
    requires
        json_tree(*old(object)) is Object,
    ensures
        json_tree(*final(object)) == Json::Object(
            json_tree(*old(object))->Object_0.insert(key@, json_tree(value)),
        ),
{
    object[key] = value;
}

/// The text of a member.
pub fn member_text(v: &Value, key: &str) -> (r: Option<String>)
    ensures
        match r {
            Some(s) => json_tree(*v).member_text(key@) == Some(s@),
            None => json_tree(*v).member_text(key@) is None,
        },
{
    match member(v, key) {
        Some(m) => match as_text(m) {
            Some(s) => Some(s.to_owned()),
            None => None,
        },
        None => None,
    }
}

/// The integer in a member.
pub fn member_integer(v: &Value, key: &str) -> (r: Option<i64>)
    ensures
        r == json_tree(*v).member_integer(key@),
{
    match member(v, key) {
        Some(m) => as_integer(m),
        None => None,
    }
}

/// Access: a member, an element, a text and an integer are there where the value is of that kind
/// and has it, and then are what the value holds.
pub proof fn law_json_access(fields: Map<Seq<char>, Json>, items: Seq<Json>, key: Seq<char>, n: int)
    ensures
        Json::Object(fields).member(key) == (if fields.contains_key(key) {
            Some(fields[key])
        } else {
            None
        }),
        Json::Array(items).element(n) == (if 0 <= n < items.len() {
            Some(items[n])
        } else {
            None
        }),
        Json::Text(key).text() == Some(key),
        Json::Integer(n).integer() == (if i64::MIN <= n <= i64::MAX {
            Some(n as i64)
        } else {
            None
        }),
        Json::Integer(n).number_text() == Some(number::integer_text(n)),
        Json::Float(key).number_text() == Some(key),
        Json::Float(key).integer() is None && Json::Float(key).text() is None,
        Json::Integer(n).text() is None && Json::Text(key).integer() is None,
        Json::Text(key).member(key) is None && Json::Text(key).element(n) is None,
        Json::Array(items).member(key) is None && Json::Object(fields).element(n) is None,
        Json::Object(fields).text() is None && Json::Array(items).text() is None,
        Json::Text(key).number_text() is None && Json::Null.number_text() is None,
{
}

} // verus!
