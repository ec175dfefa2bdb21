//! Reading the text of a raw state into a JSON value of the fields that the schema knows.
//!
//! A raw state is read field by field, straight from its text, and that shows in which texts are
//! accepted. A field that a record knows must not come twice. A field that it does not know is
//! skipped: its value has to be well formed, but need not be one that a JSON value can hold, such as
//! a number out of range. And the levels of records and lists around a value count towards the depth
//! to which values may be nested.
//!
//! A JSON value has forgotten all of that, so records are cut into their fields here, and only what
//! the schema keeps as a value is read as one. An error in such a value counts lines and columns from
//! where the value starts.

use vstd::prelude::*;

use crate::document::{read, read_json, skim_json, skimmed};
use crate::error::{Result, StateFailure, StateJsonError, UnciaError};
use crate::json::{jsons, maybe_text, value_view, Json, JsonValue, Object};
use crate::text::{same, texts};

verus! {

/// How far the text of a value has been cut into its parts.
pub struct Outline {
    /// The bracket that opens the value, when it is an array or an object.
    pub opener: Option<char>,
    /// The parts that have ended.
    pub parts: Seq<Seq<char>>,
    /// What there is of the part that has not.
    pub part: Seq<char>,
    /// How many brackets are open.
    pub depth: nat,
    /// A string is open.
    pub quoted: bool,
    /// The last character was a backslash that escapes the next one.
    pub escaped: bool,
}

/// The outline of no text.
pub open spec fn unopened() -> Outline {
    Outline {
        opener: None,
        parts: Seq::empty(),
        part: Seq::empty(),
        depth: 0,
        quoted: false,
        escaped: false,
    }
}

/// The outline after one more character. Inside the outermost brackets, a comma or a colon that is
/// neither in a string nor in further brackets ends a part.
pub open spec fn outlined_with(outline: Outline, c: char) -> Outline {
    let kept = if outline.depth > 0 {
        outline.part.push(c)
    } else {
        outline.part
    };
    if outline.quoted {
        Outline {
            part: kept,
            quoted: outline.escaped || c != '"',
            escaped: !outline.escaped && c == '\\',
            ..outline
        }
    } else if c == '"' {
        Outline { part: kept, quoted: true, ..outline }
    } else if c == '[' || c == '{' {
        Outline {
            opener: if outline.depth > 0 {
                outline.opener
            } else {
                Some(c)
            },
            part: kept,
            depth: outline.depth + 1,
            ..outline
        }
    } else if c == ']' || c == '}' {
        Outline {
            part: if outline.depth > 1 {
                kept
            } else {
                outline.part
            },
            depth: if outline.depth > 0 {
                (outline.depth - 1) as nat
            } else {
                0
            },
            ..outline
        }
    } else if outline.depth == 1 && (c == ',' || c == ':') {
        Outline { parts: outline.parts.push(outline.part), part: Seq::empty(), ..outline }
    } else {
        Outline { part: kept, ..outline }
    }
}

/// The outline of a text.
pub open spec fn outlined(text: Seq<char>) -> Outline
    decreases text.len(),
{
    if text.len() == 0 {
        unopened()
    } else {
        outlined_with(outlined(text.drop_last()), text.last())
    }
}

/// The characters that JSON allows between its tokens.
pub open spec fn is_space(c: char) -> bool {
    c == ' ' || c == '\t' || c == '\n' || c == '\r'
}

/// There is nothing in a text but space.
pub open spec fn is_blank(text: Seq<char>) -> bool {
    forall|i: int| 0 <= i < text.len() ==> is_space(#[trigger] text[i])
}

/// The bracket that opens a value; `None` for one that is neither an array nor an object.
pub open spec fn opener(text: Seq<char>) -> Option<char> {
    outlined(text).opener
}

/// The parts of a value, as text: the items of an array, and the keys and values of an object in
/// turn.
pub open spec fn parts(text: Seq<char>) -> Seq<Seq<char>> {
    let outline = outlined(text);
    if outline.parts.len() == 0 && is_blank(outline.part) {
        Seq::empty()
    } else {
        outline.parts.push(outline.part)
    }
}

/// The entries of a record, each a field's name and the text of its value, in their order.
pub type Entries = std::result::Result<Seq<(Seq<char>, Seq<char>)>, StateFailure>;

/// The first `count` entries of an object, of its keys and values in turn.
pub open spec fn keyed(parts: Seq<Seq<char>>, count: nat) -> Entries
    decreases count,
{
    if count == 0 {
        Ok(Seq::empty())
    } else {
        match keyed(parts, (count - 1) as nat) {
            Err(failure) => Err(failure),
            Ok(before) => match read(parts[2 * count - 2]) {
                Ok(Json::Text(name)) => Ok(before.push((name, parts[2 * count - 1]))),
                Ok(_) => Ok(before),
                Err(words) => Err(StateFailure::NotJson(Some(words))),
            },
        }
    }
}

/// The entries of a record with these fields: an object, or an array with the values in the order
/// of the fields. `own` is the field that such records stand in.
pub open spec fn entries(text: Seq<char>, fields: Seq<Seq<char>>, own: Seq<char>) -> Entries {
    let parts = parts(text);
    if opener(text) == Some('{') {
        keyed(parts, parts.len() / 2)
    } else if opener(text) == Some('[') && parts.len() <= fields.len() {
        Ok(Seq::new(parts.len(), |i: int| (fields[i], parts[i])))
    } else {
        Err(StateFailure::Field(own))
    }
}

/// The text under `name`, which must not come twice.
pub open spec fn once(entries: Seq<(Seq<char>, Seq<char>)>, name: Seq<char>) -> std::result::Result<
    Option<Seq<char>>,
    StateFailure,
>
    decreases entries.len(),
{
    if entries.len() == 0 {
        Ok(None)
    } else {
        match once(entries.drop_last(), name) {
            Err(failure) => Err(failure),
            Ok(before) => if entries.last().0 != name {
                Ok(before)
            } else if before is Some {
                Err(StateFailure::Field(name))
            } else {
                Ok(Some(entries.last().1))
            },
        }
    }
}

/// A value that a record may hold.
pub type Held = std::result::Result<Option<Json>, StateFailure>;

/// The value under `name`.
pub open spec fn value_under(entries: Seq<(Seq<char>, Seq<char>)>, name: Seq<char>) -> Held {
    match once(entries, name) {
        Err(failure) => Err(failure),
        Ok(None) => Ok(None),
        Ok(Some(text)) => match read(text) {
            Ok(value) => Ok(Some(value)),
            Err(words) => Err(StateFailure::NotJson(Some(words))),
        },
    }
}

/// A value at the depth at which the values of an instance are: inside the state, its list of
/// resources, the resource, its list of instances and the instance.
pub open spec fn enclosed(text: Seq<char>) -> Seq<char> {
    "[[[[["@ + text + "]]]]]"@
}

/// What is inside `levels` arrays of one item each.
pub open spec fn innermost(value: Json, levels: nat) -> Option<Json>
    decreases levels,
{
    if levels == 0 {
        Some(value)
    } else {
        match value {
            Json::Array(items) => if items.len() == 1 {
                innermost(items[0], (levels - 1) as nat)
            } else {
                None
            },
            _ => None,
        }
    }
}

/// The value under `name` in an instance, nested as deeply as its place allows.
pub open spec fn nested_under(entries: Seq<(Seq<char>, Seq<char>)>, name: Seq<char>) -> Held {
    match once(entries, name) {
        Err(failure) => Err(failure),
        Ok(None) => Ok(None),
        Ok(Some(text)) => match read(enclosed(text)) {
            Ok(value) => match innermost(value, 5) {
                Some(value) => Ok(Some(value)),
                None => Err(StateFailure::Field(name)),
            },
            Err(words) => Err(StateFailure::NotJson(Some(words))),
        },
    }
}

/// A record with one more field, where there is a value for it.
pub open spec fn with_field(
    record: Map<Seq<char>, Json>,
    name: Seq<char>,
    value: Option<Json>,
) -> Map<Seq<char>, Json> {
    match value {
        Some(value) => record.insert(name, value),
        None => record,
    }
}

/// A value that is read from text.
pub type Valued = std::result::Result<Json, StateFailure>;

/// Values that are read from text.
pub type AllValued = std::result::Result<Seq<Json>, StateFailure>;

/// The fields of an instance.
pub open spec fn instance_fields() -> Seq<Seq<char>> {
    seq!["attributes"@, "index_key"@, "deposed"@]
}

/// What the schema knows of an instance.
pub open spec fn instance_value(text: Seq<char>) -> Valued {
    match entries(text, instance_fields(), "instances"@) {
        Err(failure) => Err(failure),
        Ok(entries) => match (
            nested_under(entries, "attributes"@),
            nested_under(entries, "index_key"@),
            value_under(entries, "deposed"@),
        ) {
            (Err(failure), _, _) => Err(failure),
            (_, Err(failure), _) => Err(failure),
            (_, _, Err(failure)) => Err(failure),
            (Ok(attributes), Ok(index_key), Ok(deposed)) => Ok(
                Json::Object(
                    with_field(
                        with_field(
                            with_field(Map::empty(), "attributes"@, attributes),
                            "index_key"@,
                            index_key,
                        ),
                        "deposed"@,
                        deposed,
                    ),
                ),
            ),
        },
    }
}

/// What the schema knows of some instances.
pub open spec fn instance_values(texts: Seq<Seq<char>>) -> AllValued
    decreases texts.len(),
{
    if texts.len() == 0 {
        Ok(Seq::empty())
    } else {
        match instance_values(texts.drop_last()) {
            Err(failure) => Err(failure),
            Ok(before) => match instance_value(texts.last()) {
                Ok(value) => Ok(before.push(value)),
                Err(failure) => Err(failure),
            },
        }
    }
}

/// The instances of a resource.
pub open spec fn instances_under(entries: Seq<(Seq<char>, Seq<char>)>) -> Held {
    match once(entries, "instances"@) {
        Err(failure) => Err(failure),
        Ok(None) => Ok(None),
        Ok(Some(text)) => if opener(text) != Some('[') {
            Err(StateFailure::Field("instances"@))
        } else {
            match instance_values(parts(text)) {
                Ok(values) => Ok(Some(Json::Array(values))),
                Err(failure) => Err(failure),
            }
        },
    }
}

/// The fields of a resource.
pub open spec fn resource_fields() -> Seq<Seq<char>> {
    seq!["module"@, "mode"@, "type"@, "name"@, "instances"@]
}

/// What the schema knows of a resource.
pub open spec fn resource_value(text: Seq<char>) -> Valued {
    match entries(text, resource_fields(), "resources"@) {
        Err(failure) => Err(failure),
        Ok(entries) => match (
            value_under(entries, "module"@),
            value_under(entries, "mode"@),
            value_under(entries, "type"@),
            value_under(entries, "name"@),
            instances_under(entries),
        ) {
            (Err(failure), _, _, _, _) => Err(failure),
            (_, Err(failure), _, _, _) => Err(failure),
            (_, _, Err(failure), _, _) => Err(failure),
            (_, _, _, Err(failure), _) => Err(failure),
            (_, _, _, _, Err(failure)) => Err(failure),
            (Ok(module), Ok(mode), Ok(named), Ok(name), Ok(instances)) => Ok(
                Json::Object(
                    with_field(
                        with_field(
                            with_field(
                                with_field(
                                    with_field(Map::empty(), "module"@, module),
                                    "mode"@,
                                    mode,
                                ),
                                "type"@,
                                named,
                            ),
                            "name"@,
                            name,
                        ),
                        "instances"@,
                        instances,
                    ),
                ),
            ),
        },
    }
}

/// What the schema knows of some resources.
pub open spec fn resource_values(texts: Seq<Seq<char>>) -> AllValued
    decreases texts.len(),
{
    if texts.len() == 0 {
        Ok(Seq::empty())
    } else {
        match resource_values(texts.drop_last()) {
            Err(failure) => Err(failure),
            Ok(before) => match resource_value(texts.last()) {
                Ok(value) => Ok(before.push(value)),
                Err(failure) => Err(failure),
            },
        }
    }
}

/// The resources of a state.
pub open spec fn resources_under(entries: Seq<(Seq<char>, Seq<char>)>) -> Held {
    match once(entries, "resources"@) {
        Err(failure) => Err(failure),
        Ok(None) => Ok(None),
        Ok(Some(text)) => if opener(text) != Some('[') {
            Err(StateFailure::Field("resources"@))
        } else {
            match resource_values(parts(text)) {
                Ok(values) => Ok(Some(Json::Array(values))),
                Err(failure) => Err(failure),
            }
        },
    }
}

/// The fields of a state.
pub open spec fn state_fields() -> Seq<Seq<char>> {
    seq!["version"@, "resources"@]
}

/// What the schema knows of a state whose text is well formed.
pub open spec fn state_value(text: Seq<char>) -> Valued {
    match entries(text, state_fields(), "version"@) {
        Err(failure) => Err(failure),
        Ok(entries) => match (value_under(entries, "version"@), resources_under(entries)) {
            (Err(failure), _) => Err(failure),
            (_, Err(failure)) => Err(failure),
            (Ok(version), Ok(resources)) => Ok(
                Json::Object(
                    with_field(
                        with_field(Map::empty(), "version"@, version),
                        "resources"@,
                        resources,
                    ),
                ),
            ),
        },
    }
}

/// What the schema knows of a raw state.
pub open spec fn known(text: Seq<char>) -> Valued {
    match skimmed(text) {
        Ok(_) => state_value(text),
        Err(words) => Err(StateFailure::NotJson(Some(words))),
    }
}

fn blank(text: &str) -> (r: bool)
    ensures
        r == is_blank(text@),
{
    let mut chars = text.chars();
    let ghost mut n: int = 0;
    assert(text@.skip(0) =~= text@);
    loop
        invariant
            0 <= n <= text@.len(),
            vstd::std_specs::iter::IteratorSpec::remaining(&chars) == text@.skip(n),
            forall|i: int| 0 <= i < n ==> is_space(#[trigger] text@[i]),
        decreases text@.len() - n,
    {
        match chars.next() {
            Some(c) => {
                if c != ' ' && c != '\t' && c != '\n' && c != '\r' {
                    assert(!is_space(text@[n]));
                    return false;
                }
                proof {
                    assert(text@.skip(n).drop_first() =~= text@.skip(n + 1));
                    n = n + 1;
                }
            },
            None => return true,
        }
    }
}

/// Cuts the text of a value into its parts: gives the bracket that opens it, and the parts.
fn cut(text: &str) -> (r: (Option<char>, Vec<String>))
    ensures
        r.0 == opener(text@),
        texts(r.1@) == parts(text@),
{
    let count: usize = text.unicode_len();
    let mut chars = text.chars();
    let mut opener: Option<char> = None;
    let mut parts: Vec<String> = Vec::new();
    let mut part = String::new();
    let mut depth: usize = 0;
    let mut quoted = false;
    let mut escaped = false;
    let mut n: usize = 0;
    assert(text@.skip(0) =~= text@);
    assert(texts(parts@) =~= Seq::empty());
    while n < count
        invariant
            n <= count == text@.len(),
            depth <= n,
            vstd::std_specs::iter::IteratorSpec::remaining(&chars) == text@.skip(n as int),
            outlined(text@.take(n as int)) == (Outline {
                opener,
                parts: texts(parts@),
                part: part@,
                depth: depth as nat,
                quoted,
                escaped,
            }),
        decreases count - n,
    {
        let ghost earlier = texts(parts@);
        let ghost so_far = part@;
        proof {
            assert(text@.take(n + 1).drop_last() =~= text@.take(n as int));
            assert(text@.take(n + 1).last() == text@[n as int]);
            assert(text@.skip(n as int).drop_first() =~= text@.skip(n + 1));
        }
        if let Some(c) = chars.next() {
            if quoted {
                if depth > 0 {
                    part.push(c);
                }
                quoted = escaped || c != '"';
                escaped = !escaped && c == '\\';
            } else if c == '"' {
                if depth > 0 {
                    part.push(c);
                }
                quoted = true;
            } else if c == '[' || c == '{' {
                if depth > 0 {
                    part.push(c);
                } else {
                    opener = Some(c);
                }
                depth += 1;
            } else if c == ']' || c == '}' {
                if depth > 1 {
                    part.push(c);
                }
                if depth > 0 {
                    depth -= 1;
                }
            } else if depth == 1 && (c == ',' || c == ':') {
                parts.push(part);
                part = String::new();
                assert(texts(parts@) =~= earlier.push(so_far));
                assert(part@ =~= Seq::empty());
            } else if depth > 0 {
                part.push(c);
            }
        }
        n += 1;
    }
    assert(text@.take(n as int) =~= text@);
    if parts.len() == 0 && blank(part.as_str()) {
        (opener, Vec::new())
    } else {
        let ghost earlier = texts(parts@);
        let ghost last = part@;
        parts.push(part);
        assert(texts(parts@) =~= earlier.push(last));
        (opener, parts)
    }
}

/// What a list of entries denotes.
pub open spec fn pairs(entries: Seq<(String, String)>) -> Seq<(Seq<char>, Seq<char>)> {
    entries.map_values(|entry: (String, String)| (entry.0@, entry.1@))
}

/// What the result of reading the entries of a record denotes.
pub open spec fn paired(result: Result<Vec<(String, String)>>) -> Entries {
    match result {
        Ok(entries) => Ok(pairs(entries@)),
        Err(error) => Err(error@),
    }
}

/// What the result of reading a field denotes.
pub open spec fn held(result: Result<Option<JsonValue>>) -> Held {
    match result {
        Ok(Some(value)) => Ok(Some(value@)),
        Ok(None) => Ok(None),
        Err(error) => Err(error@),
    }
}

/// What the result of reading a value denotes.
pub open spec fn valued(result: Result<JsonValue>) -> Valued {
    match result {
        Ok(value) => Ok(value@),
        Err(error) => Err(error@),
    }
}

/// What the result of reading some values denotes.
pub open spec fn all_valued(result: Result<Vec<JsonValue>>) -> AllValued {
    match result {
        Ok(values) => Ok(jsons(values@)),
        Err(error) => Err(error@),
    }
}

fn wrong_field(name: &str) -> (r: UnciaError)
    ensures
        r@ == StateFailure::Field(name@),
{
    UnciaError::StateJson(StateJsonError::Field(name.to_owned()))
}

proof fn keys_stay_wrong(parts: Seq<Seq<char>>, n: nat, count: nat)
    requires
        n <= count,
        keyed(parts, n) is Err,
    ensures
        keyed(parts, count) == keyed(parts, n),
    decreases count - n,
{
    if n < count {
        keys_stay_wrong(parts, n, (count - 1) as nat);
    }
}

fn read_keys(parts: &Vec<String>) -> (r: Result<Vec<(String, String)>>)
    ensures
        paired(r) == keyed(texts(parts@), texts(parts@).len() / 2),
{
    let ghost all = texts(parts@);
    let count: usize = parts.len() / 2;
    let mut entries: Vec<(String, String)> = Vec::new();
    let mut n: usize = 0;
    assert(pairs(entries@) =~= Seq::empty());
    while n < count
        invariant
            n <= count == all.len() / 2,
            all == texts(parts@),
            keyed(all, n as nat) == Ok::<_, StateFailure>(pairs(entries@)),
        decreases count - n,
    {
        broadcast use value_view;
        let ghost before = pairs(entries@);
        assert(all.len() == parts.len());
        assert(2 * n + 1 < parts.len());
        assert(all[2 * n] == parts[2 * n]@);
        assert(all[2 * n + 1] == parts[2 * n + 1]@);
        match read_json(parts[2 * n].as_str()) {
            Ok(JsonValue::String(name)) => {
                let ghost entry = (name@, all[2 * n + 1]);
                entries.push((name, parts[2 * n + 1].clone()));
                assert(pairs(entries@) =~= before.push(entry));
            },
            Ok(_) => {},
            Err(error) => {
                proof {
                    keys_stay_wrong(all, (n + 1) as nat, count as nat);
                }
                return Err(UnciaError::StateJson(StateJsonError::NotJson(error)));
            },
        }
        n += 1;
    }
    Ok(entries)
}

fn read_entries(text: &str, fields: &[&str], own: &str) -> (r: Result<Vec<(String, String)>>)
    ensures
        paired(r) == entries(text@, fields@.map_values(|field: &str| field@), own@),
{
    let (opener, parts) = cut(text);
    let ghost names = fields@.map_values(|field: &str| field@);
    match opener {
        Some('{') => read_keys(&parts),
        Some('[') => {
            if parts.len() > fields.len() {
                return Err(wrong_field(own));
            }
            let ghost all = texts(parts@);
            let mut entries: Vec<(String, String)> = Vec::new();
            let mut i: usize = 0;
            while i < parts.len()
                invariant
                    i <= parts.len() <= fields.len(),
                    all == texts(parts@),
                    names == fields@.map_values(|field: &str| field@),
                    entries.len() == i,
                    forall|j: int|
                        0 <= j < i ==> (#[trigger] pairs(entries@)[j]) == (names[j], all[j]),
                decreases parts.len() - i,
            {
                let ghost before = pairs(entries@);
                let ghost entry = (names[i as int], all[i as int]);
                entries.push((fields[i].to_owned(), parts[i].clone()));
                assert(pairs(entries@) =~= before.push(entry));
                i += 1;
            }
            assert(pairs(entries@) =~= Seq::new(all.len(), |i: int| (names[i], all[i])));
            Ok(entries)
        },
        _ => Err(wrong_field(own)),
    }
}

proof fn repeats_stay_wrong(entries: Seq<(Seq<char>, Seq<char>)>, name: Seq<char>, n: int)
    requires
        0 <= n <= entries.len(),
        once(entries.take(n), name) is Err,
    ensures
        once(entries, name) == once(entries.take(n), name),
    decreases entries.len() - n,
{
    if n < entries.len() {
        assert(entries.take(n + 1).drop_last() =~= entries.take(n));
        repeats_stay_wrong(entries, name, n + 1);
    } else {
        assert(entries.take(n) =~= entries);
    }
}

fn find_once<'a>(entries: &'a Vec<(String, String)>, name: &str) -> (r: Result<Option<&'a str>>)
    ensures
        match r {
            Ok(text) => once(pairs(entries@), name@) == Ok::<_, StateFailure>(maybe_text(text)),
            Err(error) => once(pairs(entries@), name@) == Err::<Option<Seq<char>>, _>(error@),
        },
{
    let ghost all = pairs(entries@);
    let mut found: Option<&'a str> = None;
    let mut i: usize = 0;
    while i < entries.len()
        invariant
            i <= entries.len(),
            all == pairs(entries@),
            once(all.take(i as int), name@) == Ok::<_, StateFailure>(maybe_text(found)),
        decreases entries.len() - i,
    {
        assert(all.take(i + 1).drop_last() =~= all.take(i as int));
        assert(all.take(i + 1).last() == (entries[i as int].0@, entries[i as int].1@));
        if same(entries[i].0.as_str(), name) {
            if found.is_some() {
                proof {
                    repeats_stay_wrong(all, name@, i + 1);
                }
                return Err(wrong_field(name));
            }
            found = Some(entries[i].1.as_str());
        }
        i += 1;
    }
    assert(all.take(i as int) =~= all);
    Ok(found)
}

fn read_value(entries: &Vec<(String, String)>, name: &str) -> (r: Result<Option<JsonValue>>)
    ensures
        held(r) == value_under(pairs(entries@), name@),
{
    match find_once(entries, name) {
        Err(error) => Err(error),
        Ok(None) => Ok(None),
        Ok(Some(text)) => match read_json(text) {
            Ok(value) => Ok(Some(value)),
            Err(error) => Err(UnciaError::StateJson(StateJsonError::NotJson(error))),
        },
    }
}

fn take_innermost(value: JsonValue, levels: usize) -> (r: Option<JsonValue>)
    ensures
        match r {
            Some(inner) => innermost(value@, levels as nat) == Some(inner@),
            None => innermost(value@, levels as nat) is None,
        },
    decreases levels,
{
    broadcast use value_view;
    if levels == 0 {
        return Some(value);
    }
    match value {
        JsonValue::Array(items) => {
            let mut items = items;
            let ghost all = items@;
            if items.len() != 1 {
                return None;
            }
            match items.pop() {
                Some(item) => {
                    assert(jsons(all)[0] == item@);
                    take_innermost(item, levels - 1)
                },
                None => None,
            }
        },
        _ => None,
    }
}

fn read_nested(entries: &Vec<(String, String)>, name: &str) -> (r: Result<Option<JsonValue>>)
    ensures
        held(r) == nested_under(pairs(entries@), name@),
{
    match find_once(entries, name) {
        Err(error) => Err(error),
        Ok(None) => Ok(None),
        Ok(Some(text)) => {
            let mut whole = "[[[[[".to_owned();
            whole.append(text);
            whole.append("]]]]]");
            match read_json(whole.as_str()) {
                Ok(value) => match take_innermost(value, 5) {
                    Some(value) => Ok(Some(value)),
                    None => Err(wrong_field(name)),
                },
                Err(error) => Err(UnciaError::StateJson(StateJsonError::NotJson(error))),
            }
        },
    }
}

fn put_field(record: &mut Object, name: &str, value: Option<JsonValue>)
    ensures
        final(record)@ == with_field(
            old(record)@,
            name@,
            match value {
                Some(value) => Some(value@),
                None => None,
            },
        ),
{
    if let Some(value) = value {
        record.insert(name.to_owned(), value);
    }
}

fn read_instance(text: &str) -> (r: Result<JsonValue>)
    ensures
        valued(r) == instance_value(text@),
{
    broadcast use value_view;
    let fields = ["attributes", "index_key", "deposed"];
    assert(fields@.map_values(|field: &str| field@) =~= instance_fields());
    let entries = read_entries(text, &fields, "instances")?;
    let attributes = read_nested(&entries, "attributes")?;
    let index_key = read_nested(&entries, "index_key")?;
    let deposed = read_value(&entries, "deposed")?;
    let mut record = Object::new();
    put_field(&mut record, "attributes", attributes);
    put_field(&mut record, "index_key", index_key);
    put_field(&mut record, "deposed", deposed);
    Ok(JsonValue::Object(record))
}

proof fn instances_stay_wrong(texts: Seq<Seq<char>>, n: int)
    requires
        0 <= n <= texts.len(),
        instance_values(texts.take(n)) is Err,
    ensures
        instance_values(texts) == instance_values(texts.take(n)),
    decreases texts.len() - n,
{
    if n < texts.len() {
        assert(texts.take(n + 1).drop_last() =~= texts.take(n));
        instances_stay_wrong(texts, n + 1);
    } else {
        assert(texts.take(n) =~= texts);
    }
}

fn read_instances(parts: &Vec<String>) -> (r: Result<Vec<JsonValue>>)
    ensures
        all_valued(r) == instance_values(texts(parts@)),
{
    let ghost all = texts(parts@);
    let mut values: Vec<JsonValue> = Vec::new();
    let mut i: usize = 0;
    assert(jsons(values@) =~= Seq::empty());
    while i < parts.len()
        invariant
            i <= parts.len(),
            all == texts(parts@),
            instance_values(all.take(i as int)) == Ok::<_, StateFailure>(jsons(values@)),
        decreases parts.len() - i,
    {
        let ghost before = jsons(values@);
        assert(all.take(i + 1).drop_last() =~= all.take(i as int));
        assert(all.take(i + 1).last() == parts[i as int]@);
        match read_instance(parts[i].as_str()) {
            Ok(value) => {
                let ghost view = value@;
                values.push(value);
                assert(jsons(values@) =~= before.push(view));
            },
            Err(error) => {
                proof {
                    instances_stay_wrong(all, i + 1);
                }
                return Err(error);
            },
        }
        i += 1;
    }
    assert(all.take(i as int) =~= all);
    Ok(values)
}

fn read_instance_list(entries: &Vec<(String, String)>) -> (r: Result<Option<JsonValue>>)
    ensures
        held(r) == instances_under(pairs(entries@)),
{
    broadcast use value_view;
    match find_once(entries, "instances") {
        Err(error) => Err(error),
        Ok(None) => Ok(None),
        Ok(Some(text)) => match cut(text) {
            (Some('['), parts) => match read_instances(&parts) {
                Ok(values) => Ok(Some(JsonValue::Array(values))),
                Err(error) => Err(error),
            },
            _ => Err(wrong_field("instances")),
        },
    }
}

fn read_resource(text: &str) -> (r: Result<JsonValue>)
    ensures
        valued(r) == resource_value(text@),
{
    broadcast use value_view;
    let fields = ["module", "mode", "type", "name", "instances"];
    assert(fields@.map_values(|field: &str| field@) =~= resource_fields());
    let entries = read_entries(text, &fields, "resources")?;
    let module = read_value(&entries, "module")?;
    let mode = read_value(&entries, "mode")?;
    let named = read_value(&entries, "type")?;
    let name = read_value(&entries, "name")?;
    let instances = read_instance_list(&entries)?;
    let mut record = Object::new();
    put_field(&mut record, "module", module);
    put_field(&mut record, "mode", mode);
    put_field(&mut record, "type", named);
    put_field(&mut record, "name", name);
    put_field(&mut record, "instances", instances);
    Ok(JsonValue::Object(record))
}

proof fn resources_stay_wrong(texts: Seq<Seq<char>>, n: int)
    requires
        0 <= n <= texts.len(),
        resource_values(texts.take(n)) is Err,
    ensures
        resource_values(texts) == resource_values(texts.take(n)),
    decreases texts.len() - n,
{
    if n < texts.len() {
        assert(texts.take(n + 1).drop_last() =~= texts.take(n));
        resources_stay_wrong(texts, n + 1);
    } else {
        assert(texts.take(n) =~= texts);
    }
}

fn read_resources(parts: &Vec<String>) -> (r: Result<Vec<JsonValue>>)
    ensures
        all_valued(r) == resource_values(texts(parts@)),
{
    let ghost all = texts(parts@);
    let mut values: Vec<JsonValue> = Vec::new();
    let mut i: usize = 0;
    assert(jsons(values@) =~= Seq::empty());
    while i < parts.len()
        invariant
            i <= parts.len(),
            all == texts(parts@),
            resource_values(all.take(i as int)) == Ok::<_, StateFailure>(jsons(values@)),
        decreases parts.len() - i,
    {
        let ghost before = jsons(values@);
        assert(all.take(i + 1).drop_last() =~= all.take(i as int));
        assert(all.take(i + 1).last() == parts[i as int]@);
        match read_resource(parts[i].as_str()) {
            Ok(value) => {
                let ghost view = value@;
                values.push(value);
                assert(jsons(values@) =~= before.push(view));
            },
            Err(error) => {
                proof {
                    resources_stay_wrong(all, i + 1);
                }
                return Err(error);
            },
        }
        i += 1;
    }
    assert(all.take(i as int) =~= all);
    Ok(values)
}

fn read_resource_list(entries: &Vec<(String, String)>) -> (r: Result<Option<JsonValue>>)
    ensures
        held(r) == resources_under(pairs(entries@)),
{
    broadcast use value_view;
    match find_once(entries, "resources") {
        Err(error) => Err(error),
        Ok(None) => Ok(None),
        Ok(Some(text)) => match cut(text) {
            (Some('['), parts) => match read_resources(&parts) {
                Ok(values) => Ok(Some(JsonValue::Array(values))),
                Err(error) => Err(error),
            },
            _ => Err(wrong_field("resources")),
        },
    }
}

/// Reads the fields of a raw state that the schema knows.
pub fn read_known(json: &str) -> (r: Result<JsonValue>)
    ensures
        valued(r) == known(json@),
{
    broadcast use value_view;
    if let Err(error) = skim_json(json) {
        return Err(UnciaError::StateJson(StateJsonError::NotJson(error)));
    }
    let fields = ["version", "resources"];
    assert(fields@.map_values(|field: &str| field@) =~= state_fields());
    let entries = read_entries(json, &fields, "version")?;
    let version = read_value(&entries, "version")?;
    let resources = read_resource_list(&entries)?;
    let mut record = Object::new();
    put_field(&mut record, "version", version);
    put_field(&mut record, "resources", resources);
    Ok(JsonValue::Object(record))
}

} // verus!
