//! Reading records out of JSON values, field by field.
//!
//! A record is an object with a value under each field's name, or an array with the values in the
//! order of the fields. Fields that the record does not know are ignored in an object, and not
//! allowed in an array.

use vstd::prelude::*;

use crate::json::{maybe_json, maybe_text, value_view, Json, JsonValue, Object};

verus! {

/// `value` can hold a record of `count` fields.
pub open spec fn is_record(value: Json, count: int) -> bool {
    match value {
        Json::Object(_) => true,
        Json::Array(items) => items.len() <= count,
        _ => false,
    }
}

/// The value that a record holds for the field `name`, which is the field at `position`.
pub open spec fn member(record: Json, name: Seq<char>, position: int) -> Option<Json> {
    match record {
        Json::Object(_) => record.get(name),
        Json::Array(items) => if 0 <= position < items.len() {
            Some(items[position])
        } else {
            None
        },
        _ => None,
    }
}

/// The text that a record must hold for a field.
pub open spec fn required_text(record: Json, name: Seq<char>, position: int) -> Option<Seq<char>> {
    match member(record, name, position) {
        Some(value) => value.text(),
        None => None,
    }
}

/// The text that a record may hold for a field: absent and `null` are no text, anything else that
/// is not a text is a mistake (`None`).
pub open spec fn optional_text(record: Json, name: Seq<char>, position: int) -> Option<
    Option<Seq<char>>,
> {
    match member(record, name, position) {
        Some(Json::Text(text)) => Some(Some(text)),
        Some(Json::Null) => Some(None),
        None => Some(None),
        Some(_) => None,
    }
}

/// The object that a record holds for a field: absent is the empty object, anything else that is
/// not an object is a mistake (`None`).
pub open spec fn object_or_empty(record: Json, name: Seq<char>, position: int) -> Option<
    Map<Seq<char>, Json>,
> {
    match member(record, name, position) {
        Some(Json::Object(entries)) => Some(entries),
        None => Some(Map::empty()),
        Some(_) => None,
    }
}

/// The items that a record holds for a field: absent is no items, anything else that is not an
/// array is a mistake (`None`).
pub open spec fn items_or_empty(record: Json, name: Seq<char>, position: int) -> Option<Seq<Json>> {
    match member(record, name, position) {
        Some(Json::Array(items)) => Some(items),
        None => Some(Seq::empty()),
        Some(_) => None,
    }
}

/// What an optional object denotes.
pub open spec fn maybe_entries(object: Option<Object>) -> Option<Map<Seq<char>, Json>> {
    match object {
        Some(entries) => Some(entries@),
        None => None,
    }
}

pub(crate) fn holds_record(value: &JsonValue, count: usize) -> (r: bool)
    ensures
        r == is_record(value@, count as int),
{
    broadcast use value_view;
    match value {
        JsonValue::Object(_) => true,
        JsonValue::Array(items) => items.len() <= count,
        _ => false,
    }
}

pub(crate) fn get_member<'a>(record: &'a JsonValue, name: &str, position: usize) -> (r: Option<
    &'a JsonValue,
>)
    ensures
        maybe_json(r) == member(record@, name@, position as int),
        r matches Some(value) ==> decreases_to!(record => value),
{
    broadcast use value_view;
    match record {
        JsonValue::Object(object) => object.get(name),
        JsonValue::Array(items) => if position < items.len() {
            assert(decreases_to!(record->Array_0 => record->Array_0[position as int]));
            Some(&items[position])
        } else {
            None
        },
        _ => None,
    }
}

pub(crate) fn get_required_text<'a>(record: &'a JsonValue, name: &str, position: usize) -> (r:
    Option<&'a str>)
    ensures
        maybe_text(r) == required_text(record@, name@, position as int),
{
    match get_member(record, name, position) {
        Some(value) => value.as_str(),
        None => None,
    }
}

pub(crate) fn get_optional_text<'a>(record: &'a JsonValue, name: &str, position: usize) -> (r:
    Option<Option<&'a str>>)
    ensures
        match r {
            Some(text) => optional_text(record@, name@, position as int) == Some(maybe_text(text)),
            None => optional_text(record@, name@, position as int) is None,
        },
{
    broadcast use value_view;
    match get_member(record, name, position) {
        Some(JsonValue::String(text)) => Some(Some(text.as_str())),
        Some(JsonValue::Null) => Some(None),
        None => Some(None),
        Some(_) => None,
    }
}

pub(crate) fn get_object_or_empty(record: &JsonValue, name: &str, position: usize) -> (r: Option<
    Object,
>)
    ensures
        maybe_entries(r) == object_or_empty(record@, name@, position as int),
{
    broadcast use value_view;
    match get_member(record, name, position) {
        Some(JsonValue::Object(entries)) => Some(entries.clone()),
        None => Some(Object::new()),
        Some(_) => None,
    }
}

} // verus!
