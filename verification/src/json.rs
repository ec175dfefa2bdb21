//! JSON values: what they denote, how they are read, built and compared.

use vstd::prelude::*;

use crate::document::{copy_number, numeral, write_number};
use crate::text::{decimal_text, integer, integer_text, same, texts};

verus! {

/// What a JSON number denotes.
pub enum Numeral {
    /// An integer.
    Int(int),
    /// Any other number, by the text it is written as.
    Float(Seq<char>),
}

/// What a JSON value denotes.
pub enum Json {
    Null,
    Bool(bool),
    Number(Numeral),
    Text(Seq<char>),
    Array(Seq<Json>),
    Object(Map<Seq<char>, Json>),
}

/// The text a number is written as.
pub open spec fn numeral_text(number: Numeral) -> Seq<char> {
    match number {
        Numeral::Int(n) => integer(n),
        Numeral::Float(text) => text,
    }
}

/// The texts of the number zero: with and without a sign it is the same number.
pub open spec fn zero_text(text: Seq<char>) -> bool {
    text == "0.0"@ || text == "-0.0"@
}

/// Two numbers are the same number.
pub open spec fn same_number(a: Numeral, b: Numeral) -> bool {
    match (a, b) {
        (Numeral::Int(x), Numeral::Int(y)) => x == y,
        (Numeral::Float(x), Numeral::Float(y)) => x == y || (zero_text(x) && zero_text(y)),
        _ => false,
    }
}

/// Two JSON values are equal: the same shape with the same leaves, an object's keys in any order.
pub open spec fn same_json(a: Json, b: Json) -> bool
    decreases a,
{
    match (a, b) {
        (Json::Null, Json::Null) => true,
        (Json::Bool(x), Json::Bool(y)) => x == y,
        (Json::Number(x), Json::Number(y)) => same_number(x, y),
        (Json::Text(x), Json::Text(y)) => x == y,
        (Json::Array(x), Json::Array(y)) => x.len() == y.len() && forall|i: int|
            0 <= i < x.len() ==> same_json(#[trigger] x[i], y[i]),
        (Json::Object(x), Json::Object(y)) => x.dom() == y.dom() && forall|k: Seq<char>|
            x.contains_key(k) ==> same_json(#[trigger] x[k], y[k]),
        _ => false,
    }
}

/// Every value is equal to itself.
pub proof fn same_json_reflexive(a: Json)
    ensures
        same_json(a, a),
    decreases a,
{
    match a {
        Json::Array(items) => {
            assert forall|i: int| 0 <= i < items.len() implies same_json(
                #[trigger] items[i],
                items[i],
            ) by {
                same_json_reflexive(items[i]);
            }
        },
        Json::Object(entries) => {
            assert forall|k: Seq<char>| entries.contains_key(k) implies same_json(
                #[trigger] entries[k],
                entries[k],
            ) by {
                same_json_reflexive(entries[k]);
            }
        },
        _ => {},
    }
}

/// Equality goes both ways.
pub proof fn same_json_symmetric(a: Json, b: Json)
    requires
        same_json(a, b),
    ensures
        same_json(b, a),
    decreases a,
{
    match (a, b) {
        (Json::Array(x), Json::Array(y)) => {
            assert forall|i: int| 0 <= i < y.len() implies same_json(#[trigger] y[i], x[i]) by {
                assert(same_json(x[i], y[i]));
                same_json_symmetric(x[i], y[i]);
            }
        },
        (Json::Object(x), Json::Object(y)) => {
            assert forall|k: Seq<char>| y.contains_key(k) implies same_json(
                #[trigger] y[k],
                x[k],
            ) by {
                assert(x.contains_key(k));
                assert(same_json(x[k], y[k]));
                same_json_symmetric(x[k], y[k]);
            }
        },
        _ => {},
    }
}

/// Values that are equal to one value are equal to each other.
pub proof fn same_json_transitive(a: Json, b: Json, c: Json)
    requires
        same_json(a, b),
        same_json(b, c),
    ensures
        same_json(a, c),
    decreases a,
{
    match (a, b, c) {
        (Json::Array(x), Json::Array(y), Json::Array(z)) => {
            assert forall|i: int| 0 <= i < x.len() implies same_json(#[trigger] x[i], z[i]) by {
                assert(same_json(y[i], z[i]));
                same_json_transitive(x[i], y[i], z[i]);
            }
        },
        (Json::Object(x), Json::Object(y), Json::Object(z)) => {
            assert forall|k: Seq<char>| x.contains_key(k) implies same_json(
                #[trigger] x[k],
                z[k],
            ) by {
                assert(y.contains_key(k));
                assert(same_json(y[k], z[k]));
                same_json_transitive(x[k], y[k], z[k]);
            }
        },
        _ => {},
    }
}

impl Json {
    /// The value under `key`, when this is an object that has one.
    pub open spec fn get(self, key: Seq<char>) -> Option<Json> {
        match self {
            Json::Object(entries) => if entries.contains_key(key) {
                Some(entries[key])
            } else {
                None
            },
            _ => None,
        }
    }

    /// The text this value is, when it is one.
    pub open spec fn text(self) -> Option<Seq<char>> {
        match self {
            Json::Text(s) => Some(s),
            _ => None,
        }
    }

    /// The items of this value, when it is an array.
    pub open spec fn items(self) -> Option<Seq<Json>> {
        match self {
            Json::Array(items) => Some(items),
            _ => None,
        }
    }

    /// The truth value this value is, when it is one.
    pub open spec fn boolean(self) -> Option<bool> {
        match self {
            Json::Bool(b) => Some(b),
            _ => None,
        }
    }

    /// The signed 64-bit integer this value is, when it is one.
    pub open spec fn signed(self) -> Option<int> {
        match self {
            Json::Number(Numeral::Int(n)) => if i64::MIN <= n <= i64::MAX {
                Some(n)
            } else {
                None
            },
            _ => None,
        }
    }

    /// The unsigned 64-bit integer this value is, when it is one.
    pub open spec fn unsigned(self) -> Option<int> {
        match self {
            Json::Number(Numeral::Int(n)) => if 0 <= n <= u64::MAX {
                Some(n)
            } else {
                None
            },
            _ => None,
        }
    }
}

/// The texts among some values, in their order.
pub open spec fn texts_among(items: Seq<Json>) -> Seq<Seq<char>>
    decreases items.len(),
{
    if items.len() == 0 {
        Seq::empty()
    } else {
        match items.last() {
            Json::Text(text) => texts_among(items.drop_last()).push(text),
            _ => texts_among(items.drop_last()),
        }
    }
}

/// The texts that a value lists, when there is one and it is an array.
pub open spec fn listed_texts(value: Option<Json>) -> Seq<Seq<char>> {
    match value {
        Some(Json::Array(items)) => texts_among(items),
        _ => Seq::empty(),
    }
}

/// The array of some texts.
pub open spec fn text_array(list: Seq<Seq<char>>) -> Json {
    Json::Array(list.map_values(|text: Seq<char>| Json::Text(text)))
}

/// The texts among some values are those that are among them.
pub proof fn texts_among_members(items: Seq<Json>, text: Seq<char>)
    ensures
        texts_among(items).contains(text) <==> items.contains(Json::Text(text)),
    decreases items.len(),
{
    if items.len() > 0 {
        let rest = items.drop_last();
        texts_among_members(rest, text);
        if items.contains(Json::Text(text)) {
            let i = choose|i: int| 0 <= i < items.len() && items[i] == Json::Text(text);
            if i < rest.len() {
                assert(rest[i] == Json::Text(text));
                let k = choose|k: int|
                    0 <= k < texts_among(rest).len() && texts_among(rest)[k] == text;
                assert(texts_among(items)[k] == text);
            } else {
                assert(texts_among(items).last() == text);
            }
        }
        if texts_among(items).contains(text) {
            let k = choose|k: int|
                0 <= k < texts_among(items).len() && texts_among(items)[k] == text;
            if items.last() == Json::Text(text) {
                assert(items[items.len() - 1] == Json::Text(text));
            } else {
                assert(k < texts_among(rest).len());
                assert(texts_among(rest)[k] == text);
                let i = choose|i: int| 0 <= i < rest.len() && rest[i] == Json::Text(text);
                assert(items[i] == Json::Text(text));
            }
        }
    }
}

/// Some texts are the texts of their array.
pub proof fn texts_of_text_array(list: Seq<Seq<char>>)
    ensures
        listed_texts(Some(text_array(list))) == list,
    decreases list.len(),
{
    let items = list.map_values(|text: Seq<char>| Json::Text(text));
    if list.len() > 0 {
        texts_of_text_array(list.drop_last());
        assert(items.drop_last() =~= list.drop_last().map_values(
            |text: Seq<char>| Json::Text(text),
        ));
        assert(items.last() == Json::Text(list.last()));
        assert(list =~= list.drop_last().push(list.last()));
    } else {
        assert(list =~= Seq::empty());
    }
}

/// A JSON number.
#[derive(Debug)]
pub enum JsonNumber {
    /// A non-negative integer.
    PosInt(u64),
    /// A negative integer.
    NegInt(i64),
    /// Any other number.
    Float(Fraction),
}

/// A number that is not an integer of 64 bits.
#[derive(Debug)]
pub struct Fraction {
    number: serde_json::Number,
}

/// A JSON value.
#[derive(Debug)]
pub enum JsonValue {
    Null,
    Bool(bool),
    Number(JsonNumber),
    String(String),
    Array(Vec<JsonValue>),
    Object(Object),
}

/// A JSON object: values under distinct keys.
#[derive(Debug)]
pub struct Object {
    entries: Vec<(String, JsonValue)>,
}

impl Fraction {
    #[verifier::type_invariant]
    spec fn well_formed(self) -> bool {
        numeral(self.number) is Float
    }
}

impl View for Fraction {
    type V = Numeral;

    closed spec fn view(&self) -> Numeral {
        numeral(self.number)
    }
}

impl View for JsonNumber {
    type V = Numeral;

    open spec fn view(&self) -> Numeral {
        match self {
            JsonNumber::PosInt(n) => Numeral::Int(*n as int),
            JsonNumber::NegInt(n) => Numeral::Int(*n as int),
            JsonNumber::Float(n) => n@,
        }
    }
}

impl JsonValue {
    spec fn denotes(self) -> Json
        decreases self,
    {
        match self {
            JsonValue::Null => Json::Null,
            JsonValue::Bool(b) => Json::Bool(b),
            JsonValue::Number(n) => Json::Number(n@),
            JsonValue::String(s) => Json::Text(s@),
            JsonValue::Array(items) => Json::Array(
                Seq::new(
                    items@.len(),
                    |i: int|
                        if 0 <= i < items@.len() {
                            items@[i].denotes()
                        } else {
                            Json::Null
                        },
                ),
            ),
            JsonValue::Object(object) => Json::Object(entry_map(object.entries@)),
        }
    }
}

spec fn distinct_keys(entries: Seq<(String, JsonValue)>) -> bool {
    forall|i: int, j: int|
        0 <= i < j < entries.len() ==> (#[trigger] entries[i]).0@ != (#[trigger] entries[j]).0@
}

impl Object {
    #[verifier::type_invariant]
    spec fn well_formed(self) -> bool {
        distinct_keys(self.entries@)
    }
}

/// The map that a list of entries stands for.
spec fn entry_map(entries: Seq<(String, JsonValue)>) -> Map<Seq<char>, Json>
    decreases entries,
{
    if entries.len() == 0 {
        Map::empty()
    } else {
        let last = entries[entries.len() - 1];
        entry_map(entries.subrange(0, entries.len() - 1)).insert(last.0@, last.1.denotes())
    }
}

impl View for JsonValue {
    type V = Json;

    closed spec fn view(&self) -> Json {
        self.denotes()
    }
}

impl View for Object {
    type V = Map<Seq<char>, Json>;

    closed spec fn view(&self) -> Map<Seq<char>, Json> {
        entry_map(self.entries@)
    }
}

/// What each of a list of values denotes.
pub open spec fn jsons(values: Seq<JsonValue>) -> Seq<Json> {
    values.map_values(|v: JsonValue| v@)
}

/// What an optional value denotes.
pub open spec fn maybe_json(value: Option<&JsonValue>) -> Option<Json> {
    match value {
        Some(v) => Some(v@),
        None => None,
    }
}

/// What an optional list of values denotes.
pub open spec fn maybe_jsons(values: Option<&Vec<JsonValue>>) -> Option<Seq<Json>> {
    match values {
        Some(v) => Some(jsons(v@)),
        None => None,
    }
}

/// The text an optional string holds.
pub open spec fn maybe_text(text: Option<&str>) -> Option<Seq<char>> {
    match text {
        Some(s) => Some(s@),
        None => None,
    }
}

/// What a value of each variant denotes.
pub broadcast proof fn value_view(value: JsonValue)
    ensures
        #[trigger] value@ == (match value {
            JsonValue::Null => Json::Null,
            JsonValue::Bool(b) => Json::Bool(b),
            JsonValue::Number(n) => Json::Number(n@),
            JsonValue::String(s) => Json::Text(s@),
            JsonValue::Array(items) => Json::Array(jsons(items@)),
            JsonValue::Object(object) => Json::Object(object@),
        }),
{
    match value {
        JsonValue::Array(items) => {
            assert(value.denotes()->Array_0 =~= jsons(items@));
        },
        _ => {},
    }
}

proof fn entry_map_key(entries: Seq<(String, JsonValue)>, key: Seq<char>)
    ensures
        entry_map(entries).contains_key(key) <==> exists|i: int|
            0 <= i < entries.len() && #[trigger] entries[i].0@ == key,
    decreases entries.len(),
{
    if entries.len() > 0 {
        let rest = entries.subrange(0, entries.len() - 1);
        entry_map_key(rest, key);
        assert forall|i: int| 0 <= i < rest.len() implies rest[i] == entries[i] by {}
        if entry_map(entries).contains_key(key) {
            if entries[entries.len() - 1].0@ != key {
                let i = choose|i: int| 0 <= i < rest.len() && #[trigger] rest[i].0@ == key;
                assert(entries[i].0@ == key);
            }
        }
        if exists|i: int| 0 <= i < entries.len() && #[trigger] entries[i].0@ == key {
            let i = choose|i: int| 0 <= i < entries.len() && #[trigger] entries[i].0@ == key;
            if i < rest.len() {
                assert(rest[i].0@ == key);
            }
        }
    }
}

proof fn entry_map_value(entries: Seq<(String, JsonValue)>, i: int)
    requires
        0 <= i < entries.len(),
        distinct_keys(entries),
    ensures
        entry_map(entries).contains_key(entries[i].0@),
        entry_map(entries)[entries[i].0@] == entries[i].1@,
    decreases entries.len(),
{
    let rest = entries.subrange(0, entries.len() - 1);
    if i < entries.len() - 1 {
        assert(rest[i] == entries[i]);
        assert(entries[entries.len() - 1].0@ != entries[i].0@);
        entry_map_value(rest, i);
    }
}

proof fn entry_map_update(entries: Seq<(String, JsonValue)>, i: int, entry: (String, JsonValue))
    requires
        0 <= i < entries.len(),
        entries[i].0@ == entry.0@,
        distinct_keys(entries),
    ensures
        entry_map(entries.update(i, entry)) == entry_map(entries).insert(entry.0@, entry.1@),
    decreases entries.len(),
{
    let updated = entries.update(i, entry);
    let n = entries.len() - 1;
    if i == n {
        assert(updated.subrange(0, n) =~= entries.subrange(0, n));
    } else {
        let rest = entries.subrange(0, n);
        assert(updated.subrange(0, n) =~= rest.update(i, entry));
        assert(entries[n].0@ != entries[i].0@);
        entry_map_update(rest, i, entry);
    }
    assert(entry_map(updated) =~= entry_map(entries).insert(entry.0@, entry.1@));
}

impl Clone for Fraction {
    fn clone(&self) -> (r: Self)
        ensures
            r@ == self@,
    {
        proof {
            use_type_invariant(self);
        }
        Fraction { number: copy_number(&self.number) }
    }
}

impl Fraction {
    pub(crate) fn new(number: &serde_json::Number) -> (r: Self)
        requires
            numeral(*number) is Float,
        ensures
            r@ == numeral(*number),
    {
        Fraction { number: copy_number(number) }
    }

    pub(crate) fn number(&self) -> (r: serde_json::Number)
        ensures
            numeral(r) == self@,
    {
        copy_number(&self.number)
    }

    /// The text this number is written as.
    pub fn text(&self) -> (r: String)
        ensures
            self@ == Numeral::Float(r@),
    {
        proof {
            use_type_invariant(self);
        }
        write_number(&self.number)
    }
}

impl Clone for JsonNumber {
    fn clone(&self) -> (r: Self)
        ensures
            r@ == self@,
    {
        match self {
            JsonNumber::PosInt(n) => JsonNumber::PosInt(*n),
            JsonNumber::NegInt(n) => JsonNumber::NegInt(*n),
            JsonNumber::Float(n) => JsonNumber::Float(n.clone()),
        }
    }
}

impl Clone for JsonValue {
    fn clone(&self) -> (r: Self)
        ensures
            r@ == self@,
        decreases self,
    {
        broadcast use value_view;
        match self {
            JsonValue::Null => JsonValue::Null,
            JsonValue::Bool(b) => JsonValue::Bool(*b),
            JsonValue::Number(n) => JsonValue::Number(n.clone()),
            JsonValue::String(s) => JsonValue::String(s.clone()),
            JsonValue::Array(items) => {
                let mut copy: Vec<JsonValue> = Vec::new();
                let mut i: usize = 0;
                while i < items.len()
                    invariant
                        i <= items.len(),
                        copy.len() == i,
                        forall|j: int| 0 <= j < i ==> #[trigger] copy[j]@ == items[j]@,
                        self == JsonValue::Array(*items),
                    decreases items.len() - i,
                {
                    assert(decreases_to!(self->Array_0 => self->Array_0[i as int]));
                    copy.push(items[i].clone());
                    i += 1;
                }
                assert(jsons(copy@) =~= jsons(items@));
                JsonValue::Array(copy)
            },
            JsonValue::Object(object) => JsonValue::Object(object.clone()),
        }
    }
}

impl Clone for Object {
    fn clone(&self) -> (r: Self)
        ensures
            r@ == self@,
        decreases self,
    {
        proof {
            use_type_invariant(self);
        }
        let mut copy: Vec<(String, JsonValue)> = Vec::new();
        let mut i: usize = 0;
        while i < self.entries.len()
            invariant
                i <= self.entries.len(),
                copy.len() == i,
                forall|j: int| 0 <= j < i ==> (#[trigger] copy[j]).0@ == self.entries[j].0@,
                entry_map(copy@) == entry_map(self.entries@.subrange(0, i as int)),
            decreases self.entries.len() - i,
        {
            let entry = &self.entries[i];
            let ghost before = copy@;
            copy.push((entry.0.clone(), entry.1.clone()));
            proof {
                let prefix = self.entries@.subrange(0, i + 1);
                assert(prefix.subrange(0, i as int) =~= self.entries@.subrange(0, i as int));
                assert(copy@.subrange(0, i as int) =~= before);
            }
            i += 1;
        }
        assert(self.entries@.subrange(0, i as int) =~= self.entries@);
        Object { entries: copy }
    }
}

impl Default for Object {
    fn default() -> (r: Self)
        ensures
            r@ == Map::<Seq<char>, Json>::empty(),
    {
        Object { entries: Vec::new() }
    }
}

impl Object {
    /// The object without entries.
    pub fn new() -> (r: Self)
        ensures
            r@ == Map::<Seq<char>, Json>::empty(),
    {
        Object { entries: Vec::new() }
    }

    fn position(&self, key: &str) -> (r: Option<usize>)
        ensures
            match r {
                Some(i) => i < self.entries.len() && self.entries[i as int].0@ == key@
                    && self@.contains_key(key@) && self@[key@] == self.entries[i as int].1@,
                None => !self@.contains_key(key@),
            },
    {
        proof {
            use_type_invariant(self);
            entry_map_key(self.entries@, key@);
        }
        let mut i: usize = 0;
        while i < self.entries.len()
            invariant
                i <= self.entries.len(),
                distinct_keys(self.entries@),
                forall|j: int| 0 <= j < i ==> (#[trigger] self.entries[j]).0@ != key@,
            decreases self.entries.len() - i,
        {
            if same(self.entries[i].0.as_str(), key) {
                proof {
                    entry_map_value(self.entries@, i as int);
                }
                return Some(i);
            }
            i += 1;
        }
        None
    }

    /// The value under `key`.
    pub fn get(&self, key: &str) -> (r: Option<&JsonValue>)
        ensures
            maybe_json(r) == Json::Object(self@).get(key@),
            r matches Some(value) ==> decreases_to!(self => value),
    {
        match self.position(key) {
            Some(i) => {
                assert(decreases_to!(self.entries => self.entries[i as int]));
                Some(&self.entries[i].1)
            },
            None => None,
        }
    }

    /// Whether there is a value under `key`.
    pub fn contains_key(&self, key: &str) -> (r: bool)
        ensures
            r == self@.contains_key(key@),
    {
        self.position(key).is_some()
    }

    /// Puts `value` under `key`, in place of what was there.
    pub fn insert(&mut self, key: String, value: JsonValue)
        ensures
            final(self)@ == old(self)@.insert(key@, value@),
    {
        let found = self.position(key.as_str());
        proof {
            use_type_invariant(&*self);
            entry_map_key(self.entries@, key@);
        }
        let mut entries: Vec<(String, JsonValue)> = Vec::new();
        std::mem::swap(&mut entries, &mut self.entries);
        let ghost held = entries@;
        match found {
            Some(i) => {
                let entry = (key, value);
                proof {
                    entry_map_update(held, i as int, entry);
                }
                entries.set(i, entry);
            },
            None => {
                entries.push((key, value));
                proof {
                    assert(entries@.subrange(0, entries.len() - 1) =~= held);
                }
            },
        }
        self.entries = entries;
    }

    /// How many entries there are.
    pub closed spec fn size(&self) -> nat {
        self.entries@.len()
    }

    /// What the first `n` entries denote.
    pub closed spec fn prefix(&self, n: int) -> Map<Seq<char>, Json> {
        entry_map(self.entries@.subrange(0, n))
    }

    /// How many entries there are.
    pub(crate) fn len(&self) -> (r: usize)
        ensures
            r == self.size(),
            self.prefix(0) == Map::<Seq<char>, Json>::empty(),
            self.prefix(r as int) == self@,
    {
        assert(self.entries@.subrange(0, self.entries.len() as int) =~= self.entries@);
        self.entries.len()
    }

    /// The entry at `i`.
    pub(crate) fn entry(&self, i: usize) -> (r: (&String, &JsonValue))
        requires
            i < self.size(),
        ensures
            self.prefix(i + 1) == self.prefix(i as int).insert(r.0@, r.1@),
            decreases_to!(self => r.1),
    {
        let entry = &self.entries[i];
        proof {
            let prefix = self.entries@.subrange(0, i + 1);
            assert(prefix.subrange(0, i as int) =~= self.entries@.subrange(0, i as int));
            assert(decreases_to!(self.entries => self.entries[i as int]));
        }
        (&entry.0, &entry.1)
    }

    /// This object with `value` put under `key`.
    pub fn with(self, key: &str, value: JsonValue) -> (r: Self)
        ensures
            r@ == self@.insert(key@, value@),
    {
        let mut r = self;
        r.insert(key.to_owned(), value);
        r
    }
}

impl JsonValue {
    /// The integer `n` as a JSON number.
    pub fn from_i64(n: i64) -> (r: Self)
        ensures
            r@ == Json::Number(Numeral::Int(n as int)),
    {
        broadcast use value_view;
        if n >= 0 {
            JsonValue::Number(JsonNumber::PosInt(n as u64))
        } else {
            JsonValue::Number(JsonNumber::NegInt(n))
        }
    }

    /// `text` as a JSON string.
    pub fn from_text(text: &str) -> (r: Self)
        ensures
            r@ == Json::Text(text@),
    {
        broadcast use value_view;
        JsonValue::String(text.to_owned())
    }

    /// The value under `key`, when this is an object that has one.
    pub fn get(&self, key: &str) -> (r: Option<&JsonValue>)
        ensures
            maybe_json(r) == self@.get(key@),
            r matches Some(value) ==> decreases_to!(self => value),
    {
        broadcast use value_view;
        match self {
            JsonValue::Object(object) => object.get(key),
            _ => None,
        }
    }

    /// The text this value is, when it is one.
    pub fn as_str(&self) -> (r: Option<&str>)
        ensures
            maybe_text(r) == self@.text(),
    {
        broadcast use value_view;
        match self {
            JsonValue::String(s) => Some(s.as_str()),
            _ => None,
        }
    }

    /// The items of this value, when it is an array.
    pub fn as_array(&self) -> (r: Option<&Vec<JsonValue>>)
        ensures
            maybe_jsons(r) == self@.items(),
            r matches Some(items) ==> decreases_to!(self => items),
    {
        broadcast use value_view;
        match self {
            JsonValue::Array(items) => Some(items),
            _ => None,
        }
    }

    /// The truth value this value is, when it is one.
    pub fn as_bool(&self) -> (r: Option<bool>)
        ensures
            r == self@.boolean(),
    {
        broadcast use value_view;
        match self {
            JsonValue::Bool(b) => Some(*b),
            _ => None,
        }
    }

    /// The signed 64-bit integer this value is, when it is one.
    pub fn as_i64(&self) -> (r: Option<i64>)
        ensures
            match r {
                Some(n) => self@.signed() == Some(n as int),
                None => self@.signed() is None,
            },
    {
        broadcast use value_view;
        match self {
            JsonValue::Number(JsonNumber::PosInt(n)) => if *n <= i64::MAX as u64 {
                Some(*n as i64)
            } else {
                None
            },
            JsonValue::Number(JsonNumber::NegInt(n)) => Some(*n),
            JsonValue::Number(JsonNumber::Float(n)) => {
                proof {
                    use_type_invariant(n);
                }
                None
            },
            _ => None,
        }
    }

    /// The unsigned 64-bit integer this value is, when it is one.
    pub fn as_u64(&self) -> (r: Option<u64>)
        ensures
            match r {
                Some(n) => self@.unsigned() == Some(n as int),
                None => self@.unsigned() is None,
            },
    {
        broadcast use value_view;
        match self {
            JsonValue::Number(JsonNumber::PosInt(n)) => Some(*n),
            JsonValue::Number(JsonNumber::NegInt(n)) => if *n >= 0 {
                Some(*n as u64)
            } else {
                None
            },
            JsonValue::Number(JsonNumber::Float(n)) => {
                proof {
                    use_type_invariant(n);
                }
                None
            },
            _ => None,
        }
    }
}

impl JsonNumber {
    /// The text this number is written as.
    pub fn text(&self) -> (r: String)
        ensures
            r@ == numeral_text(self@),
    {
        match self {
            JsonNumber::PosInt(n) => decimal_text(*n as u128),
            JsonNumber::NegInt(n) => integer_text(*n),
            JsonNumber::Float(n) => n.text(),
        }
    }
}

/// The texts that a value lists, when there is one and it is an array.
pub fn strings_of(value: Option<&JsonValue>) -> (r: Vec<String>)
    ensures
        texts(r@) == listed_texts(maybe_json(value)),
{
    broadcast use value_view;
    let mut found: Vec<String> = Vec::new();
    match value {
        Some(JsonValue::Array(items)) => {
            let mut i: usize = 0;
            while i < items.len()
                invariant
                    i <= items.len(),
                    texts(found@) =~= texts_among(jsons(items@).take(i as int)),
                decreases items.len() - i,
            {
                let ghost prefix = jsons(items@).take(i + 1);
                let ghost before = found@;
                assert(prefix.drop_last() =~= jsons(items@).take(i as int));
                assert(prefix.last() == items[i as int]@);
                match items[i].as_str() {
                    Some(text) => {
                        found.push(text.to_owned());
                        assert(texts(found@) =~= texts(before).push(text@));
                    },
                    None => {},
                }
                i += 1;
            }
            assert(jsons(items@).take(i as int) =~= jsons(items@));
        },
        _ => {},
    }
    assert(texts(found@) =~= listed_texts(maybe_json(value)));
    found
}

/// The array of some texts.
pub fn array_of(list: &Vec<String>) -> (r: JsonValue)
    ensures
        r@ == text_array(texts(list@)),
{
    broadcast use value_view;
    let mut items: Vec<JsonValue> = Vec::new();
    let mut i: usize = 0;
    while i < list.len()
        invariant
            i <= list.len(),
            items.len() == i,
            forall|j: int| 0 <= j < i ==> (#[trigger] items[j])@ == Json::Text(list[j]@),
        decreases list.len() - i,
    {
        items.push(JsonValue::from_text(list[i].as_str()));
        i += 1;
    }
    assert(jsons(items@) =~= texts(list@).map_values(|text: Seq<char>| Json::Text(text)));
    JsonValue::Array(items)
}

fn is_zero_text(text: &str) -> (r: bool)
    ensures
        r == zero_text(text@),
{
    same(text, "0.0") || same(text, "-0.0")
}

fn equal_numbers(a: &JsonNumber, b: &JsonNumber) -> (r: bool)
    ensures
        r == same_number(a@, b@),
{
    match (a, b) {
        (JsonNumber::Float(x), JsonNumber::Float(y)) => {
            let x = x.text();
            let y = y.text();
            same(x.as_str(), y.as_str()) || (is_zero_text(x.as_str()) && is_zero_text(y.as_str()))
        },
        (JsonNumber::PosInt(x), JsonNumber::PosInt(y)) => *x == *y,
        (JsonNumber::NegInt(x), JsonNumber::NegInt(y)) => *x == *y,
        (JsonNumber::Float(x), _) => {
            proof {
                use_type_invariant(x);
            }
            false
        },
        (_, JsonNumber::Float(y)) => {
            proof {
                use_type_invariant(y);
            }
            false
        },
        (JsonNumber::PosInt(x), JsonNumber::NegInt(y)) => *y >= 0 && *x == *y as u64,
        (JsonNumber::NegInt(x), JsonNumber::PosInt(y)) => *x >= 0 && *x as u64 == *y,
    }
}

fn equal_objects(a: &Object, b: &Object) -> (r: bool)
    ensures
        r == same_json(Json::Object(a@), Json::Object(b@)),
    decreases a,
{
    proof {
        use_type_invariant(a);
        use_type_invariant(b);
    }
    let mut i: usize = 0;
    while i < a.entries.len()
        invariant
            i <= a.entries.len(),
            distinct_keys(a.entries@),
            forall|j: int|
                0 <= j < i ==> {
                    let key = (#[trigger] a.entries[j]).0@;
                    b@.contains_key(key) && same_json(a@[key], b@[key])
                },
        decreases a.entries.len() - i,
    {
        let entry = &a.entries[i];
        proof {
            entry_map_value(a.entries@, i as int);
            assert(decreases_to!(a.entries => a.entries[i as int]));
        }
        match b.get(entry.0.as_str()) {
            Some(other) => {
                if !equal_values(&entry.1, other) {
                    return false;
                }
            },
            None => {
                return false;
            },
        }
        i += 1;
    }
    assert forall|k: Seq<char>| #[trigger] a@.contains_key(k) implies b@.contains_key(k)
        && same_json(a@[k], b@[k]) by {
        entry_map_key(a.entries@, k);
    }
    let mut n: usize = 0;
    while n < b.entries.len()
        invariant
            n <= b.entries.len(),
            distinct_keys(b.entries@),
            forall|k: Seq<char>| #[trigger]
                a@.contains_key(k) ==> b@.contains_key(k) && same_json(a@[k], b@[k]),
            forall|j: int| 0 <= j < n ==> a@.contains_key((#[trigger] b.entries[j]).0@),
        decreases b.entries.len() - n,
    {
        proof {
            entry_map_value(b.entries@, n as int);
        }
        if !a.contains_key(b.entries[n].0.as_str()) {
            return false;
        }
        n += 1;
    }
    assert forall|k: Seq<char>| b@.contains_key(k) implies a@.contains_key(k) by {
        entry_map_key(b.entries@, k);
    }
    assert(a@.dom() =~= b@.dom());
    true
}

/// Whether two values are equal.
pub(crate) fn equal_values(a: &JsonValue, b: &JsonValue) -> (r: bool)
    ensures
        r == same_json(a@, b@),
    decreases a,
{
    broadcast use value_view;
    match (a, b) {
        (JsonValue::Null, JsonValue::Null) => true,
        (JsonValue::Bool(x), JsonValue::Bool(y)) => *x == *y,
        (JsonValue::Number(x), JsonValue::Number(y)) => equal_numbers(x, y),
        (JsonValue::String(x), JsonValue::String(y)) => same(x.as_str(), y.as_str()),
        (JsonValue::Array(x), JsonValue::Array(y)) => {
            if x.len() != y.len() {
                return false;
            }
            let mut i: usize = 0;
            while i < x.len()
                invariant
                    i <= x.len(),
                    x.len() == y.len(),
                    a == JsonValue::Array(*x),
                    a@ == Json::Array(jsons(x@)),
                    b@ == Json::Array(jsons(y@)),
                    forall|j: int|
                        0 <= j < i ==> same_json(#[trigger] jsons(x@)[j], jsons(y@)[j]),
                decreases x.len() - i,
            {
                assert(decreases_to!(a->Array_0 => a->Array_0[i as int]));
                assert(jsons(x@)[i as int] == x[i as int]@);
                assert(jsons(y@)[i as int] == y[i as int]@);
                if !equal_values(&x[i], &y[i]) {
                    return false;
                }
                i += 1;
            }
            true
        },
        (JsonValue::Object(x), JsonValue::Object(y)) => equal_objects(x, y),
        _ => false,
    }
}

impl PartialEq for JsonValue {
    fn eq(&self, other: &Self) -> (r: bool) {
        equal_values(self, other)
    }
}

impl vstd::std_specs::cmp::PartialEqSpecImpl for JsonValue {
    open spec fn obeys_eq_spec() -> bool {
        true
    }

    open spec fn eq_spec(&self, other: &Self) -> bool {
        same_json(self@, other@)
    }
}

impl Eq for JsonValue {

}

impl PartialEq for Object {
    fn eq(&self, other: &Self) -> (r: bool) {
        equal_objects(self, other)
    }
}

impl vstd::std_specs::cmp::PartialEqSpecImpl for Object {
    open spec fn obeys_eq_spec() -> bool {
        true
    }

    open spec fn eq_spec(&self, other: &Self) -> bool {
        same_json(Json::Object(self@), Json::Object(other@))
    }
}

impl Eq for Object {

}

} // verus!
