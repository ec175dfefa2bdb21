//! The boundary to `serde_json`: reading text into values and writing values as text.
//!
//! The items here that carry a contract without a proof are the whole of what the library believes
//! about `serde_json`; the conversions between its values and the library's own are proved.

use vstd::prelude::*;

use crate::json::{
    jsons, numeral_text, value_view, Fraction, Json, JsonNumber, JsonValue, Numeral, Object,
};

verus! {

/// `serde_json::Value`, as an opaque type.
#[verifier::external_type_specification]
#[verifier::external_body]
pub struct ExDocument(serde_json::Value);

/// `serde_json::Number`, as an opaque type.
#[verifier::external_type_specification]
#[verifier::external_body]
pub struct ExDocumentNumber(serde_json::Number);

/// `serde_json::Error`, as an opaque type.
#[verifier::external_type_specification]
#[verifier::external_body]
pub struct ExDocumentError(serde_json::Error);

/// What a `serde_json::Value` holds.
pub uninterp spec fn held(document: serde_json::Value) -> Json;

/// The number that a `serde_json::Number` is.
pub uninterp spec fn numeral(number: serde_json::Number) -> Numeral;

/// What `serde_json::from_str` reads from a text: a JSON value, or, when the text is not JSON, what
/// its error says of it.
pub uninterp spec fn read(text: Seq<char>) -> Result<Json, Seq<char>>;

/// The text in which `serde_json` writes a JSON value: without spaces, an object's entries in
/// the order of their keys.
pub uninterp spec fn compact(value: Json) -> Seq<char>;

/// Whether `serde_json` can skip over a text as one JSON value; when it cannot, what its error says of
/// it. Such a text is well formed, though its numbers and strings need not be ones that a value can
/// hold.
pub uninterp spec fn skimmed(text: Seq<char>) -> Result<(), Seq<char>>;

/// `words` is what `to_string` makes of an error.
pub open spec fn shows_as(error: serde_json::Error, words: Seq<char>) -> bool {
    &&& exists|said: String| #[trigger]
        vstd::string::to_string_from_display_ensures::<serde_json::Error>(&error, said)
    &&& forall|said: String| #[trigger]
        vstd::string::to_string_from_display_ensures::<serde_json::Error>(&error, said) ==> said@
            == words
}

/// What `to_string` makes of an error, where that is known.
pub open spec fn wording(error: serde_json::Error) -> Option<Seq<char>> {
    if exists|words: Seq<char>| shows_as(error, words) {
        Some(choose|words: Seq<char>| shows_as(error, words))
    } else {
        None
    }
}

/// An error shows as one text.
pub proof fn wording_is(error: serde_json::Error, words: Seq<char>)
    requires
        shows_as(error, words),
    ensures
        wording(error) == Some(words),
{
    let other = choose|words: Seq<char>| shows_as(error, words);
    let said = choose|said: String| #[trigger]
        vstd::string::to_string_from_display_ensures::<serde_json::Error>(&error, said);
    assert(said@ == words && said@ == other);
}

/// The outermost layer of a `serde_json::Value`.
pub enum Layer<'a> {
    Null,
    Bool(bool),
    /// A number, as an unsigned integer, as a signed integer and as it is.
    Number(Option<u64>, Option<i64>, &'a serde_json::Number),
    Text(&'a str),
    Array(&'a Vec<serde_json::Value>),
    Object(Vec<(&'a String, &'a serde_json::Value)>),
}

/// `layer` is the outermost layer of a value that denotes `json`.
pub open spec fn outermost(layer: Layer, json: Json) -> bool {
    match (layer, json) {
        (Layer::Null, Json::Null) => true,
        (Layer::Bool(a), Json::Bool(b)) => a == b,
        (Layer::Number(unsigned, signed, number), Json::Number(denoted)) => {
            &&& numeral(*number) == denoted
            &&& match denoted {
                Numeral::Int(n) => {
                    &&& match unsigned {
                        Some(u) => u == n,
                        None => !(0 <= n <= u64::MAX),
                    }
                    &&& match signed {
                        Some(i) => i == n,
                        None => !(i64::MIN <= n <= i64::MAX),
                    }
                    &&& unsigned is Some || signed is Some
                },
                Numeral::Float(_) => unsigned is None && signed is None,
            }
        },
        (Layer::Text(a), Json::Text(b)) => a@ == b,
        (Layer::Array(items), Json::Array(denoted)) => items@.len() == denoted.len() && forall|
            i: int,
        |
            0 <= i < denoted.len() ==> held(#[trigger] items@[i]) == denoted[i],
        (Layer::Object(entries), Json::Object(denoted)) => {
            &&& forall|i: int, j: int|
                0 <= i < j < entries@.len() ==> (#[trigger] entries@[i]).0@ != (
                #[trigger] entries@[j]).0@
            &&& forall|i: int|
                0 <= i < entries@.len() ==> denoted.contains_key((#[trigger] entries@[i]).0@)
                    && denoted[entries@[i].0@] == held(*entries@[i].1)
            &&& forall|key: Seq<char>| #[trigger]
                denoted.contains_key(key) ==> exists|i: int|
                    0 <= i < entries@.len() && (#[trigger] entries@[i]).0@ == key
        },
        _ => false,
    }
}

/// Reads text with `serde_json::from_str` into a `serde_json::Value`. Whether it succeeds, and
/// what it gives or its error says, depends on the text alone.
#[verifier::external_body]
fn read_document(text: &str) -> (r: Result<serde_json::Value, serde_json::Error>)
    ensures
        match r {
            Ok(document) => read(text@) == Ok::<Json, Seq<char>>(held(document)),
            Err(error) => read(text@) matches Err(words) && shows_as(error, words),
        },
{
    serde_json::from_str(text)
}

/// Skips over text with `serde_json::from_str` into a `serde::de::IgnoredAny`. Whether that succeeds,
/// and what the error says, depends on the text alone.
#[verifier::external_body]
fn skim_document(text: &str) -> (r: Result<(), serde_json::Error>)
    ensures
        match r {
            Ok(_) => skimmed(text@) is Ok,
            Err(error) => skimmed(text@) matches Err(words) && shows_as(error, words),
        },
{
    match serde_json::from_str::<serde::de::IgnoredAny>(text) {
        Ok(_) => Ok(()),
        Err(error) => Err(error),
    }
}

/// Takes a `serde_json::Value` apart by its variants, a number with `Number::as_u64` and
/// `Number::as_i64`: an integer is one that at least one of the two gives, and they give it
/// wherever it is in their range.
#[verifier::external_body]
fn open_document<'a>(document: &'a serde_json::Value) -> (r: Layer<'a>)
    ensures
        outermost(r, held(*document)),
{
    match document {
        serde_json::Value::Null => Layer::Null,
        serde_json::Value::Bool(b) => Layer::Bool(*b),
        serde_json::Value::Number(n) => Layer::Number(n.as_u64(), n.as_i64(), n),
        serde_json::Value::String(s) => Layer::Text(s),
        serde_json::Value::Array(items) => Layer::Array(items),
        serde_json::Value::Object(entries) => Layer::Object(entries.iter().collect()),
    }
}

/// Copies a `serde_json::Number` with its `clone`: the copy is the same number.
#[verifier::external_body]
pub(crate) fn copy_number(number: &serde_json::Number) -> (r: serde_json::Number)
    ensures
        numeral(r) == numeral(*number),
{
    number.clone()
}

/// Writes a `serde_json::Number` with its `to_string`: an integer in decimal, any other number as
/// the text it is known by.
#[verifier::external_body]
pub(crate) fn write_number(number: &serde_json::Number) -> (r: String)
    ensures
        r@ == numeral_text(numeral(*number)),
{
    number.to_string()
}

fn value_of(document: &serde_json::Value) -> (r: JsonValue)
    ensures
        r@ == held(*document),
    decreases held(*document),
{
    broadcast use value_view;
    match open_document(document) {
        Layer::Null => JsonValue::Null,
        Layer::Bool(b) => JsonValue::Bool(b),
        Layer::Number(Some(n), _, _) => JsonValue::Number(JsonNumber::PosInt(n)),
        Layer::Number(None, Some(n), _) => JsonValue::Number(JsonNumber::NegInt(n)),
        Layer::Number(None, None, n) => JsonValue::Number(JsonNumber::Float(Fraction::new(n))),
        Layer::Text(s) => JsonValue::String(s.to_owned()),
        Layer::Array(items) => {
            let mut values: Vec<JsonValue> = Vec::new();
            let mut i: usize = 0;
            while i < items.len()
                invariant
                    i <= items.len(),
                    values.len() == i,
                    outermost(Layer::Array(items), held(*document)),
                    held(*document) is Array,
                    forall|j: int|
                        0 <= j < i ==> (#[trigger] values[j])@ == held(*document)->Array_0[j],
                decreases items.len() - i,
            {
                assert(held(items@[i as int]) == held(*document)->Array_0[i as int]);
                values.push(value_of(&items[i]));
                i += 1;
            }
            assert(jsons(values@) =~= held(*document)->Array_0);
            JsonValue::Array(values)
        },
        Layer::Object(entries) => {
            let mut object = Object::new();
            let mut i: usize = 0;
            while i < entries.len()
                invariant
                    i <= entries.len(),
                    outermost(Layer::Object(entries), held(*document)),
                    held(*document) is Object,
                    forall|j: int| 0 <= j < i ==> object@.contains_key((#[trigger] entries@[j]).0@),
                    forall|key: Seq<char>| #[trigger]
                        object@.contains_key(key) ==> held(*document)->Object_0.contains_key(key)
                            && object@[key] == held(*document)->Object_0[key],
                decreases entries.len() - i,
            {
                let (key, value) = &entries[i];
                assert(held(*document)->Object_0.contains_key(entries@[i as int].0@));
                object.insert((*key).clone(), value_of(value));
                i += 1;
            }
            assert(object@ =~= held(*document)->Object_0);
            JsonValue::Object(object)
        },
    }
}

/// Reads JSON text.
pub fn read_json(text: &str) -> (r: Result<JsonValue, serde_json::Error>)
    ensures
        match r {
            Ok(value) => read(text@) == Ok::<Json, Seq<char>>(value@),
            Err(error) => read(text@) matches Err(words) && wording(error) == Some(words),
        },
{
    match read_document(text) {
        Ok(document) => Ok(value_of(&document)),
        Err(error) => {
            proof {
                wording_is(error, read(text@)->Err_0);
            }
            Err(error)
        },
    }
}

/// Skips over JSON text.
pub fn skim_json(text: &str) -> (r: Result<(), serde_json::Error>)
    ensures
        match r {
            Ok(_) => skimmed(text@) is Ok,
            Err(error) => skimmed(text@) matches Err(words) && wording(error) == Some(words),
        },
{
    match skim_document(text) {
        Ok(_) => Ok(()),
        Err(error) => {
            proof {
                wording_is(error, skimmed(text@)->Err_0);
            }
            Err(error)
        },
    }
}

/// A `serde_json::Value` of one layer, made of the values below it.
pub enum Piece {
    Null,
    Bool(bool),
    Unsigned(u64),
    Signed(i64),
    Number(serde_json::Number),
    Text(String),
    Array(Vec<serde_json::Value>),
    Object(Vec<(String, serde_json::Value)>),
}

/// What a list of entries holds; of two entries under one key the later counts.
pub open spec fn held_entries(entries: Seq<(String, serde_json::Value)>) -> Map<Seq<char>, Json>
    decreases entries.len(),
{
    if entries.len() == 0 {
        Map::empty()
    } else {
        held_entries(entries.drop_last()).insert(entries.last().0@, held(entries.last().1))
    }
}

/// What the value made of `piece` holds.
pub open spec fn assembled(piece: Piece) -> Json {
    match piece {
        Piece::Null => Json::Null,
        Piece::Bool(b) => Json::Bool(b),
        Piece::Unsigned(n) => Json::Number(Numeral::Int(n as int)),
        Piece::Signed(n) => Json::Number(Numeral::Int(n as int)),
        Piece::Number(n) => Json::Number(numeral(n)),
        Piece::Text(s) => Json::Text(s@),
        Piece::Array(items) => Json::Array(items@.map_values(|item: serde_json::Value| held(item))),
        Piece::Object(entries) => Json::Object(held_entries(entries@)),
    }
}

/// Makes a `serde_json::Value` with its variants, integers with its `From` impls and objects with
/// the `FromIterator` of `serde_json::Map`, which keeps the last of two values under one key.
#[verifier::external_body]
fn assemble_document(piece: Piece) -> (r: serde_json::Value)
    ensures
        held(r) == assembled(piece),
{
    match piece {
        Piece::Null => serde_json::Value::Null,
        Piece::Bool(b) => serde_json::Value::Bool(b),
        Piece::Unsigned(n) => serde_json::Value::from(n),
        Piece::Signed(n) => serde_json::Value::from(n),
        Piece::Number(n) => serde_json::Value::Number(n),
        Piece::Text(s) => serde_json::Value::String(s),
        Piece::Array(items) => serde_json::Value::Array(items),
        Piece::Object(entries) => serde_json::Value::Object(entries.into_iter().collect()),
    }
}

/// Writes a `serde_json::Value` with its `to_string`. A `serde_json::Map` without the feature
/// `preserve_order` keeps its entries in the order of their keys, so what is written depends on what
/// the value holds alone.
#[verifier::external_body]
fn write_document(document: &serde_json::Value) -> (r: String)
    ensures
        r@ == compact(held(*document)),
{
    document.to_string()
}

fn document_of(value: &JsonValue) -> (r: serde_json::Value)
    ensures
        held(r) == value@,
    decreases value,
{
    broadcast use value_view;
    match value {
        JsonValue::Null => assemble_document(Piece::Null),
        JsonValue::Bool(b) => assemble_document(Piece::Bool(*b)),
        JsonValue::Number(JsonNumber::PosInt(n)) => assemble_document(Piece::Unsigned(*n)),
        JsonValue::Number(JsonNumber::NegInt(n)) => assemble_document(Piece::Signed(*n)),
        JsonValue::Number(JsonNumber::Float(n)) => assemble_document(Piece::Number(n.number())),
        JsonValue::String(s) => assemble_document(Piece::Text(s.clone())),
        JsonValue::Array(items) => {
            let mut documents: Vec<serde_json::Value> = Vec::new();
            let mut i: usize = 0;
            while i < items.len()
                invariant
                    i <= items.len(),
                    documents.len() == i,
                    value == JsonValue::Array(*items),
                    forall|j: int| 0 <= j < i ==> held(#[trigger] documents[j]) == items[j]@,
                decreases items.len() - i,
            {
                assert(decreases_to!(value->Array_0 => value->Array_0[i as int]));
                documents.push(document_of(&items[i]));
                i += 1;
            }
            assert(documents@.map_values(|item: serde_json::Value| held(item)) =~= jsons(items@));
            assemble_document(Piece::Array(documents))
        },
        JsonValue::Object(object) => {
            let mut documents: Vec<(String, serde_json::Value)> = Vec::new();
            let count: usize = object.len();
            let mut i: usize = 0;
            while i < count
                invariant
                    i <= count == object.size(),
                    value == JsonValue::Object(*object),
                    held_entries(documents@) == object.prefix(i as int),
                decreases count - i,
            {
                let (key, item) = object.entry(i);
                assert(decreases_to!(value => value->Object_0));
                let ghost before = documents@;
                documents.push((key.clone(), document_of(item)));
                assert(documents@.drop_last() =~= before);
                i += 1;
            }
            assemble_document(Piece::Object(documents))
        },
    }
}

/// Writes a value as JSON text.
pub fn write_json(value: &JsonValue) -> (r: String)
    ensures
        r@ == compact(value@),
{
    write_document(&document_of(value))
}

} // verus!
