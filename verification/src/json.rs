//! JSON values of documents: what the library asks of them.

use serde_json::Value;
use vstd::prelude::*;

verus! {

#[verifier::external_type_specification]
#[verifier::external_body]
pub struct ExValue(serde_json::Value);

#[verifier::external_type_specification]
#[verifier::external_body]
#[verifier::reject_recursive_types(K)]
#[verifier::reject_recursive_types(V)]
pub struct ExJsonMap<K, V>(serde_json::Map<K, V>);

/// The members of a JSON object.
pub uninterp spec fn object_members(object: &serde_json::Map<String, Value>) -> Map<
    Seq<char>,
    Value,
>;

/// The members of a value that is an object.
pub uninterp spec fn value_members(value: &Value) -> Option<Map<Seq<char>, Value>>;

/// The text of a value that is a string.
pub uninterp spec fn value_text(value: &Value) -> Option<Seq<char>>;

/// `Map::new`: an object without members.
#[verifier::external_body]
pub(crate) fn new_object() -> (object: serde_json::Map<String, Value>)
    ensures
        object_members(&object).dom() == Set::<Seq<char>>::empty(),
{
    serde_json::Map::new()
}

/// `Map::get`: the member of a name, where there is one.
#[verifier::external_body]
pub(crate) fn member<'a>(object: &'a serde_json::Map<String, Value>, name: &str) -> (value: Option<
    &'a Value,
>)
    ensures
        value is Some == object_members(object).contains_key(name@),
        value is Some ==> *value->Some_0 == object_members(object)[name@],
{
    object.get(name)
}

/// `Map::insert`: sets the member of a name, and leaves the others; the value it replaces is
/// dropped.
#[verifier::external_body]
pub(crate) fn set_member(object: &mut serde_json::Map<String, Value>, name: String, value: Value)
    ensures
        object_members(final(object)) == object_members(old(object)).insert(name@, value),
{
    object.insert(name, value);
}

/// `Map::remove`: takes the member of a name out, where there is one, and leaves the others.
#[verifier::external_body]
pub(crate) fn take_member(object: &mut serde_json::Map<String, Value>, name: &str) -> (value: Option<
    Value,
>)
    ensures
        object_members(final(object)) == object_members(old(object)).remove(name@),
        value is Some == object_members(old(object)).contains_key(name@),
        value is Some ==> value->Some_0 == object_members(old(object))[name@],
{
    object.remove(name)
}

/// `Value::as_str`: the text of a string; `None` of any other value.
#[verifier::external_body]
pub(crate) fn text_value(value: &Value) -> (text: Option<&str>)
    ensures
        text is Some == value_text(value) is Some,
        text is Some ==> text->Some_0@ == value_text(value)->Some_0,
{
    value.as_str()
}

/// The variant `Value::Object`: its members, where the value is an object.
#[verifier::external_body]
pub(crate) fn into_object(value: Value) -> (object: Option<serde_json::Map<String, Value>>)
    ensures
        object is Some == value_members(&value) is Some,
        object is Some ==> object_members(&object->Some_0) == value_members(&value)->Some_0,
{
    match value {
        Value::Object(object) => Some(object),
        _ => None,
    }
}

/// The variant `Value::Object`: the value that holds the members of an object.
#[verifier::external_body]
pub(crate) fn object_value(object: serde_json::Map<String, Value>) -> (value: Value)
    ensures
        value_members(&value) == Some(object_members(&object)),
        value_text(&value) is None,
{
    Value::Object(object)
}

/// `Value::clone`: the same value.
pub assume_specification[ <Value as Clone>::clone ](value: &Value) -> (copy: Value)
    ensures
        copy == *value,
;

/// The text of a member, where it is a string.
pub open spec fn member_text(members: Map<Seq<char>, Value>, name: Seq<char>) -> Option<Seq<char>> {
    if members.contains_key(name) {
        value_text(&members[name])
    } else {
        None
    }
}

/// The text of a member, where it is a string.
pub fn text_member<'a>(object: &'a serde_json::Map<String, Value>, name: &str) -> (text: Option<
    &'a str,
>)
    ensures
        text is Some == member_text(object_members(object), name@) is Some,
        text is Some ==> text->Some_0@ == member_text(object_members(object), name@)->Some_0,
{
    match member(object, name) {
        Some(value) => text_value(value),
        None => None,
    }
}

/// The text of a member is that of the value under its name, where there is one and it is a string.
pub proof fn law_member_text_is_that_of_its_value(members: Map<Seq<char>, Value>, name: Seq<char>)
    ensures
        !members.contains_key(name) ==> member_text(members, name) is None,
        members.contains_key(name) ==> member_text(members, name) == value_text(&members[name]),
{
}

/// The text that is read from a member is that of the value under its name.
pub proof fn law_text_is_read_from_its_member(
    object: &serde_json::Map<String, Value>,
    name: &str,
    text: Option<&str>,
)
    requires
        call_ensures(text_member, (object, name), text),
    ensures
        text is Some ==> object_members(object).contains_key(name@) && value_text(
            &object_members(object)[name@],
        ) == Some(text->Some_0@),
        text is None ==> !object_members(object).contains_key(name@) || value_text(
            &object_members(object)[name@],
        ) is None,
{
}

} // verus!
