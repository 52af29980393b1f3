//! JSON values, as `serde_json` holds them.

use vstd::prelude::*;

use crate::text::decimal;

verus! {

/// The type of JSON values of `serde_json`. Verus sees nothing inside one:
/// what a value holds is given by [`json`].
#[verifier::external_type_specification]
#[verifier::external_body]
pub struct ExValue(serde_json::Value);

/// What a JSON value holds.
pub enum Json {
    Null,
    Bool(bool),
    /// A number, by the text it is printed as.
    Number(Seq<char>),
    Text(Seq<char>),
    Array(Seq<Json>),
    Object(Map<Seq<char>, Json>),
}

impl Json {
    /// The member of an object under `key`; `Null` where there is none, and on
    /// anything but an object.
    pub open spec fn member(self, key: Seq<char>) -> Json {
        match self {
            Json::Object(members) if members.contains_key(key) => members[key],
            _ => Json::Null,
        }
    }

    /// The element of an array at `index`; `Null` out of bounds, and on
    /// anything but an array.
    pub open spec fn element(self, index: int) -> Json {
        match self {
            Json::Array(elements) if 0 <= index < elements.len() => elements[index],
            _ => Json::Null,
        }
    }

    /// The text of a string; `None` on anything else.
    pub open spec fn text(self) -> Option<Seq<char>> {
        match self {
            Json::Text(text) => Some(text),
            _ => None,
        }
    }

    /// Whether members can be set: on objects, and on `Null`, which stands for
    /// the empty object there.
    pub open spec fn takes_members(self) -> bool {
        self is Null || self is Object
    }

    /// The members of an object; none on anything else.
    pub open spec fn members(self) -> Map<Seq<char>, Json> {
        match self {
            Json::Object(members) => members,
            _ => Map::empty(),
        }
    }

    /// The object with the member under `key` set to `value`.
    pub open spec fn with_member(self, key: Seq<char>, value: Json) -> Json {
        Json::Object(self.members().insert(key, value))
    }
}

/// What a value of `serde_json` holds.
pub uninterp spec fn json(value: serde_json::Value) -> Json;

/// The compact text that `serde_json` prints a value as.
pub uninterp spec fn json_text(value: Json) -> Seq<char>;

/// `Index::index` of `serde_json::Value` with a string: the member of an object
/// under that key; null where there is none, and where the value is no object.
#[verifier::external_body]
pub(crate) fn member<'a>(value: &'a serde_json::Value, key: &str) -> (found: &'a serde_json::Value)
    ensures
        json(*found) == json(*value).member(key@),
{
    &value[key]
}

/// `Index::index` of `serde_json::Value` with an integer: the element of an array
/// at that index; null out of bounds, and where the value is no array.
#[verifier::external_body]
pub(crate) fn element(value: &serde_json::Value, index: usize) -> (found: &serde_json::Value)
    ensures
        json(*found) == json(*value).element(index as int),
{
    &value[index]
}

/// `serde_json::Value::as_str`: the text of a JSON string, and nothing of any
/// other value.
#[verifier::external_body]
pub(crate) fn as_str(value: &serde_json::Value) -> (text: Option<&str>)
    ensures
        text is Some <==> json(*value).text() is Some,
        text is Some ==> text->0@ == json(*value).text()->0,
{
    value.as_str()
}

/// `to_string` of `serde_json::Value`: the compact JSON text of the value. It is
/// settled by what the value holds, as the members of an object are kept and printed
/// in the order of their keys. What the text is on a given value is left unsaid.
#[verifier::external_body]
pub(crate) fn text_of(value: &serde_json::Value) -> (text: String)
    ensures
        text@ == json_text(json(*value)),
{
    value.to_string()
}

/// `serde_json::Map::new`, as a value: the object without members.
#[verifier::external_body]
pub(crate) fn empty_object() -> (value: serde_json::Value)
    ensures
        json(value) == Json::Object(Map::empty()),
{
    serde_json::Value::Object(serde_json::Map::new())
}

/// `From<&str>` of `serde_json::Value`: the JSON string of that text.
#[verifier::external_body]
pub(crate) fn string_value(text: &str) -> (value: serde_json::Value)
    ensures
        json(value) == Json::Text(text@),
{
    serde_json::Value::from(text)
}

/// `From<i32>` of `serde_json::Value`: the JSON number that prints as the decimal
/// text of the integer.
#[verifier::external_body]
pub(crate) fn number_value(number: i32) -> (value: serde_json::Value)
    ensures
        json(value) == Json::Number(decimal(number as int)),
{
    serde_json::Value::from(number)
}

/// `IndexMut::index_mut` of `serde_json::Value` with a string, and an assignment
/// through it: the member of the object under that key is set, whether or not
/// there was one, and null counts as the object without members. It panics on
/// any other value.
#[verifier::external_body]
pub(crate) fn set_member(value: &mut serde_json::Value, key: &str, member: serde_json::Value)
    requires
        json(*old(value)).takes_members(),
    ensures
        json(*final(value)) == json(*old(value)).with_member(key@, json(member)),
{
    value[key] = member;
}

/// `serde_json::Value::is_object`: whether the value is an object.
#[verifier::external_body]
fn is_object(value: &serde_json::Value) -> (yes: bool)
    ensures
        yes == (json(*value) is Object),
{
    value.is_object()
}

/// `serde_json::Value::is_null`: whether the value is null.
#[verifier::external_body]
fn is_null(value: &serde_json::Value) -> (yes: bool)
    ensures
        yes == (json(*value) is Null),
{
    value.is_null()
}

/// Whether members of the value can be set.
pub fn takes_members(value: &serde_json::Value) -> (yes: bool)
    ensures
        yes == json(*value).takes_members(),
{
    is_object(value) || is_null(value)
}

/// Members can be set on objects and on null alone. What is set is the member under its key
/// then; the other members stay as they were.
pub proof fn law_set_members_are_found(value: Json, key: Seq<char>, member: Json, other: Seq<char>)
    ensures
        value.takes_members() <==> value is Object || value is Null,
        value.with_member(key, member) is Object,
        value.with_member(key, member).member(key) == member,
        other != key ==> value.with_member(key, member).member(other) == value.member(other),
{
}

} // verus!
