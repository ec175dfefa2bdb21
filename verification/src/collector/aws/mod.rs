//! What the AWS APIs report, and how it reads in the attribute names and shapes Terraform state
//! uses.
//!
//! Each module has the records of one API, with every part optional that the API may leave out, and
//! a `normalize` that turns a record into a live resource.

pub mod ec2;
pub mod ecs;
pub mod lambda;
pub mod load_balancer;
pub mod network_acl;
pub mod rds;
pub mod security_group;
pub mod target_group;

use vstd::prelude::*;

use crate::json::{
    array_of, text_array, value_view, Json, JsonValue, Numeral, Object,
};
use crate::text::texts;

verus! {

/// A tag as the APIs report it.
#[derive(Debug)]
pub struct Tag {
    pub key: Option<String>,
    pub value: Option<String>,
}

/// The text that an optional string holds, empty when there is none.
pub open spec fn or_empty(text: Option<String>) -> Seq<char> {
    match text {
        Some(text) => text@,
        None => Seq::empty(),
    }
}

/// The texts that are there, in their order.
pub open spec fn given(list: Seq<Option<String>>) -> Seq<Seq<char>>
    decreases list.len(),
{
    if list.len() == 0 {
        Seq::empty()
    } else {
        match list.last() {
            Some(text) => given(list.drop_last()).push(text@),
            None => given(list.drop_last()),
        }
    }
}

/// The tags that have a key; of two under one key the later counts, and one without a value is
/// empty.
pub open spec fn tag_map(tags: Seq<Tag>) -> Map<Seq<char>, Json>
    decreases tags.len(),
{
    if tags.len() == 0 {
        Map::empty()
    } else {
        let before = tag_map(tags.drop_last());
        match tags.last().key {
            Some(key) => before.insert(key@, Json::Text(or_empty(tags.last().value))),
            None => before,
        }
    }
}

/// The number that an optional integer is, `0` when there is none.
pub open spec fn or_zero(number: Option<i32>) -> int {
    match number {
        Some(n) => n as int,
        None => 0,
    }
}

/// An integer as a JSON number.
pub open spec fn int_json(n: int) -> Json {
    Json::Number(Numeral::Int(n))
}

pub(crate) fn text_or_empty(text: &Option<String>) -> (r: JsonValue)
    ensures
        r@ == Json::Text(or_empty(*text)),
{
    broadcast use value_view;
    match text {
        Some(text) => JsonValue::from_text(text.as_str()),
        None => {
            let nothing = String::new();
            JsonValue::String(nothing)
        },
    }
}

pub(crate) fn number_or_zero(number: Option<i32>) -> (r: JsonValue)
    ensures
        r@ == int_json(or_zero(number)),
{
    match number {
        Some(n) => JsonValue::from_i64(n as i64),
        None => JsonValue::from_i64(0),
    }
}

pub(crate) fn given_texts(list: &Vec<Option<String>>) -> (r: Vec<String>)
    ensures
        texts(r@) == given(list@),
{
    let mut found: Vec<String> = Vec::new();
    let mut i: usize = 0;
    assert(texts(found@) =~= Seq::empty());
    while i < list.len()
        invariant
            i <= list.len(),
            texts(found@) == given(list@.take(i as int)),
        decreases list.len() - i,
    {
        let ghost before = found@;
        assert(list@.take(i + 1).drop_last() =~= list@.take(i as int));
        assert(list@.take(i + 1).last() == list[i as int]);
        if let Some(text) = &list[i] {
            found.push(text.clone());
            assert(texts(found@) =~= texts(before).push(text@));
        }
        i += 1;
    }
    assert(list@.take(i as int) =~= list@);
    found
}

pub(crate) fn given_array(list: &Vec<Option<String>>) -> (r: JsonValue)
    ensures
        r@ == text_array(given(list@)),
{
    array_of(&given_texts(list))
}

pub(crate) fn tags_object(tags: &Vec<Tag>) -> (r: JsonValue)
    ensures
        r@ == Json::Object(tag_map(tags@)),
{
    broadcast use value_view;
    let mut object = Object::new();
    let mut i: usize = 0;
    while i < tags.len()
        invariant
            i <= tags.len(),
            object@ == tag_map(tags@.take(i as int)),
        decreases tags.len() - i,
    {
        assert(tags@.take(i + 1).drop_last() =~= tags@.take(i as int));
        assert(tags@.take(i + 1).last() == tags[i as int]);
        if let Some(key) = &tags[i].key {
            object.insert(key.clone(), text_or_empty(&tags[i].value));
        }
        i += 1;
    }
    assert(tags@.take(i as int) =~= tags@);
    JsonValue::Object(object)
}

} // verus!
