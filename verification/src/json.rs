//! JSON documents as the queue sees them, and their text form on disk.
//!
//! A request is an opaque payload to the queue except for a handful of top-level fields.
//! [`Json`] keeps the whole document as plain values; [`JsonView`] is its mathematical model,
//! in which an object is a finite map and the order of its members does not matter.
//! Parsing and printing are left to `serde_json`.
use serde_json::Value;
use vstd::prelude::*;

verus! {

/// The number type of `serde_json`.
#[verifier::external_type_specification]
#[verifier::external_body]
pub struct ExNumber(serde_json::Number);

/// The document type of `serde_json`.
#[verifier::external_type_specification]
#[verifier::external_body]
pub struct ExValue(serde_json::Value);

/// The error type of `serde_json`.
#[verifier::external_type_specification]
#[verifier::external_body]
pub struct ExError(serde_json::Error);

/// An integer above `i64::MAX` that still fits a `u64`.
#[derive(Debug)]
pub struct LargeInteger {
    value: u64,
}

/// A number with a fraction or an exponent. The queue carries it through unread.
#[derive(Debug)]
pub struct FloatNumber {
    number: serde_json::Number,
}

/// A JSON document.
#[derive(Debug)]
pub enum Json {
    Null,
    Bool(bool),
    Integer(i64),
    Large(LargeInteger),
    Float(FloatNumber),
    Text(String),
    Array(Vec<Json>),
    Object(JsonObject),
}

/// The members of a JSON object. No two members share a key.
#[derive(Debug)]
pub struct JsonObject {
    entries: Vec<(String, Json)>,
}

/// The model of a [`Json`] document.
#[verifier::ext_equal]
pub enum JsonView {
    Null,
    Bool(bool),
    Integer(int),
    Float(serde_json::Number),
    Text(Seq<char>),
    Array(Seq<JsonView>),
    Object(Map<Seq<char>, JsonView>),
}

/// Some entry of `entries` has the key `key`.
spec fn has_key(entries: Seq<(String, Json)>, key: Seq<char>) -> bool {
    exists|i: int| 0 <= i < entries.len() && (#[trigger] entries[i]).0@ == key
}

/// Where `entries` holds the key `key`.
spec fn position_of(entries: Seq<(String, Json)>, key: Seq<char>) -> int {
    choose|i: int| 0 <= i < entries.len() && (#[trigger] entries[i]).0@ == key
}

/// No key occurs twice.
spec fn distinct_keys(entries: Seq<(String, Json)>) -> bool {
    forall|i: int, j: int|
        0 <= i < j < entries.len() ==> (#[trigger] entries[i]).0@ != (#[trigger] entries[j]).0@
}

/// The map that a list of entries stands for.
spec fn entry_map(entries: Seq<(String, Json)>) -> Map<Seq<char>, JsonView> {
    Map::new(
        |key: Seq<char>| has_key(entries, key),
        |key: Seq<char>| entries[position_of(entries, key)].1.model(),
    )
}

impl LargeInteger {
    #[verifier::type_invariant]
    spec fn beyond_i64(self) -> bool {
        self.value > i64::MAX
    }

    pub closed spec fn spec_value(self) -> int {
        self.value as int
    }

    /// `value` as a large integer, if it lies above `i64::MAX`.
    pub fn new(value: u64) -> (large: Option<LargeInteger>)
        ensures
            large is Some <==> value > i64::MAX,
            large matches Some(l) ==> l.spec_value() == value,
    {
        if value > i64::MAX as u64 {
            Some(LargeInteger { value })
        } else {
            None
        }
    }

    /// The integer itself.
    pub fn value(&self) -> (value: u64)
        ensures
            value == self.spec_value(),
            value > i64::MAX,
    {
        proof {
            use_type_invariant(self);
        }
        self.value
    }
}

impl FloatNumber {
    pub closed spec fn spec_number(self) -> serde_json::Number {
        self.number
    }
}

impl Json {
    /// The model of this document.
    pub open spec fn model(&self) -> JsonView
        decreases self,
    {
        match self {
            Json::Null => JsonView::Null,
            Json::Bool(b) => JsonView::Bool(*b),
            Json::Integer(n) => JsonView::Integer(*n as int),
            Json::Large(n) => JsonView::Integer(n.spec_value()),
            Json::Float(n) => JsonView::Float(n.spec_number()),
            Json::Text(s) => JsonView::Text(s@),
            Json::Array(items) => JsonView::Array(
                Seq::new(
                    items@.len(),
                    |i: int|
                        if 0 <= i < items@.len() {
                            items@[i].model()
                        } else {
                            arbitrary()
                        },
                ),
            ),
            Json::Object(object) => JsonView::Object(object.model()),
        }
    }
}

impl View for Json {
    type V = JsonView;

    open spec fn view(&self) -> JsonView {
        self.model()
    }
}

impl JsonObject {
    /// The map from keys to the models of their values.
    pub closed spec fn model(&self) -> Map<Seq<char>, JsonView>
        decreases self,
    {
        Map::new(
            |key: Seq<char>| has_key(self.entries@, key),
            |key: Seq<char>|
                {
                    let i = position_of(self.entries@, key);
                    if 0 <= i < self.entries@.len() {
                        self.entries@[i].1.model()
                    } else {
                        arbitrary()
                    }
                },
        )
    }

    #[verifier::type_invariant]
    spec fn well_formed(self) -> bool {
        distinct_keys(self.entries@)
    }

    proof fn lemma_model_is_entry_map(&self)
        ensures
            self.model() == entry_map(self.entries@),
    {
        assert(self.model() =~= entry_map(self.entries@));
    }

    /// Where the key stands among the entries.
    fn find(&self, key: &str) -> (found: Option<usize>)
        ensures
            match found {
                Some(i) => i < self.entries@.len() && self.entries@[i as int].0@ == key@,
                None => !has_key(self.entries@, key@),
            },
    {
        let wanted = key.to_owned();
        let mut i: usize = 0;
        while i < self.entries.len()
            invariant
                i <= self.entries@.len(),
                wanted@ == key@,
                forall|j: int| 0 <= j < i ==> (#[trigger] self.entries@[j]).0@ != key@,
            decreases self.entries@.len() - i,
        {
            if self.entries[i].0 == wanted {
                return Some(i);
            }
            i += 1;
        }
        None
    }

    /// An object without members.
    pub fn new() -> (object: JsonObject)
        ensures
            object@ == Map::<Seq<char>, JsonView>::empty(),
    {
        let object = JsonObject { entries: Vec::new() };
        assert(object@ =~= Map::empty());
        object
    }

    /// The value of the member `key`, if there is one.
    pub fn get(&self, key: &str) -> (value: Option<&Json>)
        ensures
            match value {
                Some(v) => self@.contains_key(key@) && v@ == self@[key@],
                None => !self@.contains_key(key@),
            },
    {
        proof {
            use_type_invariant(self);
        }
        match self.find(key) {
            Some(i) => {
                assert(position_of(self.entries@, key@) == i);
                Some(&self.entries[i].1)
            },
            None => None,
        }
    }

    /// Set the member `key` to `value`, whether or not there was one before.
    pub fn insert(&mut self, key: String, value: Json)
        ensures
            final(self)@ == old(self)@.insert(key@, value@),
    {
        proof {
            use_type_invariant(&*self);
            self.lemma_model_is_entry_map();
        }
        let found = self.find(key.as_str());
        let mut entries: Vec<(String, Json)> = Vec::new();
        std::mem::swap(&mut self.entries, &mut entries);
        let ghost before = entries@;
        let ghost wanted = key@;
        let ghost added = value@;
        match found {
            Some(i) => {
                entries[i] = (key, value);
            },
            None => {
                entries.push((key, value));
            },
        }
        proof {
            lemma_entry_map_after_insert(before, entries@, wanted, added, found);
        }
        self.entries = entries;
        proof {
            self.lemma_model_is_entry_map();
        }
    }

    /// Drop the member `key`, if there is one.
    pub fn remove(&mut self, key: &str)
        ensures
            final(self)@ == old(self)@.remove(key@),
    {
        proof {
            use_type_invariant(&*self);
            self.lemma_model_is_entry_map();
        }
        let found = self.find(key);
        let mut entries: Vec<(String, Json)> = Vec::new();
        std::mem::swap(&mut self.entries, &mut entries);
        let ghost before = entries@;
        match found {
            Some(i) => {
                entries.remove(i);
            },
            None => {},
        }
        proof {
            lemma_entry_map_after_remove(before, entries@, key@, found);
        }
        self.entries = entries;
        proof {
            self.lemma_model_is_entry_map();
        }
    }
}

impl View for JsonObject {
    type V = Map<Seq<char>, JsonView>;

    open spec fn view(&self) -> Map<Seq<char>, JsonView> {
        self.model()
    }
}

proof fn lemma_position_unique(entries: Seq<(String, Json)>, i: int)
    requires
        distinct_keys(entries),
        0 <= i < entries.len(),
    ensures
        has_key(entries, entries[i].0@),
        position_of(entries, entries[i].0@) == i,
{
}

proof fn lemma_entry_map_after_insert(
    before: Seq<(String, Json)>,
    after: Seq<(String, Json)>,
    key: Seq<char>,
    value: JsonView,
    found: Option<usize>,
)
    requires
        distinct_keys(before),
        match found {
            Some(i) => {
                &&& i < before.len()
                &&& before[i as int].0@ == key
                &&& after.len() == before.len()
                &&& after[i as int].0@ == key
                &&& after[i as int].1@ == value
                &&& forall|j: int| 0 <= j < before.len() && j != i ==> after[j] == before[j]
            },
            None => {
                &&& !has_key(before, key)
                &&& after.len() == before.len() + 1
                &&& after[before.len() as int].0@ == key
                &&& after[before.len() as int].1@ == value
                &&& forall|j: int| 0 <= j < before.len() ==> after[j] == before[j]
            },
        },
    ensures
        distinct_keys(after),
        entry_map(after) == entry_map(before).insert(key, value),
{
    let at = match found {
        Some(i) => i as int,
        None => before.len() as int,
    };
    assert(distinct_keys(after)) by {
        assert forall|i: int, j: int| 0 <= i < j < after.len() implies (#[trigger] after[i]).0@
            != (#[trigger] after[j]).0@ by {
            if found is None && j == before.len() {
                assert(after[i] == before[i]);
            } else if found is Some {
                assert(before[i].0@ != before[j].0@);
            }
        }
    }
    let expected = entry_map(before).insert(key, value);
    assert forall|k: Seq<char>| entry_map(after).contains_key(k) == expected.contains_key(k) by {
        if k == key {
            assert(after[at].0@ == key);
        } else {
            if has_key(before, k) {
                let p = position_of(before, k);
                assert(after[p] == before[p]);
            }
            if has_key(after, k) {
                let p = position_of(after, k);
                assert(after[p] == before[p]);
            }
        }
    }
    assert forall|k: Seq<char>| entry_map(after).contains_key(k) implies #[trigger] entry_map(
        after,
    )[k] == expected[k] by {
        if k == key {
            lemma_position_unique(after, at);
        } else {
            let p = position_of(after, k);
            assert(after[p] == before[p]);
            lemma_position_unique(before, p);
        }
    }
    assert(entry_map(after) =~= expected);
}

proof fn lemma_entry_map_after_remove(
    before: Seq<(String, Json)>,
    after: Seq<(String, Json)>,
    key: Seq<char>,
    found: Option<usize>,
)
    requires
        distinct_keys(before),
        match found {
            Some(i) => i < before.len() && before[i as int].0@ == key && after == before.remove(
                i as int,
            ),
            None => !has_key(before, key) && after == before,
        },
    ensures
        distinct_keys(after),
        entry_map(after) == entry_map(before).remove(key),
{
    match found {
        None => {
            assert(entry_map(after) =~= entry_map(before).remove(key));
        },
        Some(at) => {
            let at = at as int;
            let old_index = |j: int| if j < at { j } else { j + 1 };
            assert(forall|j: int| 0 <= j < after.len() ==> after[j] == before[old_index(j)]);
            let expected = entry_map(before).remove(key);
            assert forall|k: Seq<char>|
                entry_map(after).contains_key(k) == expected.contains_key(k) by {
                if has_key(after, k) {
                    let p = position_of(after, k);
                    assert(before[old_index(p)].0@ == k);
                    assert(old_index(p) != at);
                }
                if k != key && has_key(before, k) {
                    let p = position_of(before, k);
                    let q = if p < at { p } else { p - 1 };
                    assert(after[q] == before[p]);
                }
            }
            assert forall|k: Seq<char>| entry_map(after).contains_key(k) implies #[trigger] entry_map(
                after,
            )[k] == expected[k] by {
                let p = position_of(after, k);
                lemma_position_unique(before, old_index(p));
            }
            assert(entry_map(after) =~= expected);
        },
    }
}

/// What a `serde_json::Value` holds, as a model.
pub uninterp spec fn json_of(value: serde_json::Value) -> JsonView;

/// The text that `serde_json` prints for a document, indented.
pub uninterp spec fn json_text(document: JsonView) -> Seq<char>;

/// The document that `serde_json` reads from a text, or `None` where it rejects the text.
pub uninterp spec fn json_parse(text: Seq<char>) -> Option<JsonView>;

/// How deep containers may nest before `serde_json` refuses to read them.
pub open spec fn max_depth() -> nat {
    127
}

/// The document holds no floating-point number and nests its containers at most `depth` deep.
pub open spec fn exact_within(document: JsonView, depth: nat) -> bool
    decreases depth,
{
    match document {
        JsonView::Float(_) => false,
        JsonView::Array(items) => {
            &&& depth > 0
            &&& forall|i: int|
                0 <= i < items.len() ==> exact_within(#[trigger] items[i], (depth - 1) as nat)
        },
        JsonView::Object(members) => {
            &&& depth > 0
            &&& forall|key: Seq<char>|
                members.contains_key(key) ==> exact_within(
                    #[trigger] members[key],
                    (depth - 1) as nat,
                )
        },
        _ => true,
    }
}

/// The value is neither a container nor a floating-point number.
pub open spec fn is_scalar(document: JsonView) -> bool {
    document is Null || document is Bool || document is Integer || document is Text
}

/// Both are of one kind, and equal where that kind is a scalar.
pub open spec fn same_kind(a: JsonView, b: JsonView) -> bool {
    &&& is_scalar(a) ==> a == b
    &&& a is Float ==> b is Float
    &&& a is Array ==> b is Array
    &&& a is Object ==> b is Object
}

/// Down to `depth`, both have the same shape: the same members and items, one by one of the same
/// kind, and equal where that kind is a scalar. So they differ in floating-point numbers at most.
pub open spec fn agrees_to(a: JsonView, b: JsonView, depth: nat) -> bool
    decreases depth,
{
    &&& same_kind(a, b)
    &&& depth > 0 ==> match a {
        JsonView::Array(items) => {
            &&& b->Array_0.len() == items.len()
            &&& forall|i: int|
                0 <= i < items.len() ==> agrees_to(
                    #[trigger] items[i],
                    b->Array_0[i],
                    (depth - 1) as nat,
                )
        },
        JsonView::Object(members) => {
            &&& b->Object_0.dom() == members.dom()
            &&& forall|key: Seq<char>|
                #![trigger members[key]]
                #![trigger b->Object_0[key]]
                members.contains_key(key) ==> agrees_to(
                    members[key],
                    b->Object_0[key],
                    (depth - 1) as nat,
                )
        },
        _ => true,
    }
}

/// Both are the same, floating-point numbers aside.
pub open spec fn agrees(a: JsonView, b: JsonView) -> bool {
    forall|depth: nat| #[trigger] agrees_to(a, b, depth)
}

/// The text is what is printed for the document, and reading it gives the document back: the
/// very same one where it has no floating-point number and does not nest too deep, and
/// otherwise, if it can be read at all, the same one floating-point numbers aside.
pub open spec fn holds(text: Seq<char>, document: JsonView) -> bool {
    &&& text == json_text(document)
    &&& exact_within(document, max_depth()) ==> json_parse(text) == Some(document)
    &&& json_parse(text) matches Some(back) ==> agrees(document, back)
}

/// Moves a `serde_json::Value` into a [`Json`], variant by variant. The model of the result
/// is what the value holds.
#[verifier::external_body]
fn json_from_value(value: serde_json::Value) -> (json: Json)
    ensures
        json@ == json_of(value),
{
    match value {
        Value::Null => Json::Null,
        Value::Bool(b) => Json::Bool(b),
        Value::Number(number) => match (number.as_i64(), number.as_u64()) {
            (Some(n), _) => Json::Integer(n),
            (None, Some(value)) => Json::Large(LargeInteger { value }),
            (None, None) => Json::Float(FloatNumber { number }),
        },
        Value::String(s) => Json::Text(s),
        Value::Array(items) => Json::Array(items.into_iter().map(json_from_value).collect()),
        Value::Object(members) => Json::Object(
            JsonObject { entries: members.into_iter().map(|(k, v)| (k, json_from_value(v))).collect() },
        ),
    }
}

/// Copies a [`Json`] into a `serde_json::Value`, variant by variant. The value holds the model
/// of the argument.
#[verifier::external_body]
fn value_from_json(json: &Json) -> (value: serde_json::Value)
    ensures
        json_of(value) == json@,
{
    match json {
        Json::Null => Value::Null,
        Json::Bool(b) => Value::Bool(*b),
        Json::Integer(n) => Value::from(*n),
        Json::Large(n) => Value::from(n.value),
        Json::Float(n) => Value::Number(n.number.clone()),
        Json::Text(s) => Value::String(s.clone()),
        Json::Array(items) => Value::Array(items.iter().map(value_from_json).collect()),
        Json::Object(object) => Value::Object(
            object.entries.iter().map(|(k, v)| (k.clone(), value_from_json(v))).collect(),
        ),
    }
}

/// `serde_json::from_str`, reading a `Value`: what it holds, or that there is an error, is a
/// function of the text.
#[verifier::external_body]
fn value_from_str(text: &str) -> (parsed: Result<serde_json::Value, serde_json::Error>)
    ensures
        match parsed {
            Ok(value) => json_parse(text@) == Some(json_of(value)),
            Err(_) => json_parse(text@) is None,
        },
{
    serde_json::from_str(text)
}

/// `serde_json::to_string_pretty` of a `Value`. It does not fail on one, and the text is a
/// function of what the value holds. Reading the text gives that very document back where
/// no floating-point number occurs in it and the nesting stays within what the reader takes. In
/// general, a text that can be read again has the same members and items all the way down, each
/// of the same kind, with everything but floating-point numbers unchanged.
#[verifier::external_body]
fn value_to_string_pretty(value: &serde_json::Value) -> (printed: Result<
    String,
    serde_json::Error,
>)
    ensures
        match printed {
            Ok(text) => text@ == json_text(json_of(*value)) && holds(text@, json_of(*value)),
            Err(_) => false,
        },
{
    serde_json::to_string_pretty(value)
}

impl Json {
    /// The document that a `serde_json::Value` holds.
    pub fn from_value(value: serde_json::Value) -> (json: Json)
        ensures
            json@ == json_of(value),
    {
        json_from_value(value)
    }

    /// This document as a `serde_json::Value`.
    pub fn to_value(&self) -> (value: serde_json::Value)
        ensures
            json_of(value) == self@,
    {
        value_from_json(self)
    }

    /// Read a document from its text.
    pub fn parse(text: &str) -> (parsed: Result<Json, serde_json::Error>)
        ensures
            match parsed {
                Ok(json) => json_parse(text@) == Some(json@),
                Err(_) => json_parse(text@) is None,
            },
    {
        match value_from_str(text) {
            Ok(value) => Ok(json_from_value(value)),
            Err(error) => Err(error),
        }
    }

    /// The member `key`, where this document is an object that has one.
    pub fn get(&self, key: &str) -> (value: Option<&Json>)
        ensures
            match value {
                Some(v) => self@.member(key@) == Some(v@),
                None => self@.member(key@) is None,
            },
    {
        match self {
            Json::Object(object) => object.get(key),
            _ => None,
        }
    }

    /// This object with the member `key` set to `value`; any other document as it is.
    pub fn set(self, key: &str, value: Json) -> (json: Json)
        ensures
            json@ == self@.with_member(key@, value@),
    {
        match self {
            Json::Object(object) => {
                let mut object = object;
                object.insert(key.to_owned(), value);
                Json::Object(object)
            },
            other => other,
        }
    }

    /// This object without the member `key`; any other document as it is.
    pub fn unset(self, key: &str) -> (json: Json)
        ensures
            json@ == self@.without_member(key@),
    {
        match self {
            Json::Object(object) => {
                let mut object = object;
                object.remove(key);
                Json::Object(object)
            },
            other => other,
        }
    }
}

impl JsonView {
    /// The member `key`, where this document is an object that has one.
    pub open spec fn member(self, key: Seq<char>) -> Option<JsonView> {
        match self {
            JsonView::Object(members) => if members.contains_key(key) {
                Some(members[key])
            } else {
                None
            },
            _ => None,
        }
    }

    /// This object with the member `key` set to `value`; any other document as it is.
    pub open spec fn with_member(self, key: Seq<char>, value: JsonView) -> JsonView {
        match self {
            JsonView::Object(members) => JsonView::Object(members.insert(key, value)),
            _ => self,
        }
    }

    /// This object without the member `key`; any other document as it is.
    pub open spec fn without_member(self, key: Seq<char>) -> JsonView {
        match self {
            JsonView::Object(members) => JsonView::Object(members.remove(key)),
            _ => self,
        }
    }
}

/// Print a document the way request files are written.
pub fn json_dumps(json: &Json) -> (text: String)
    ensures
        holds(text@, json@),
{
    let value = value_from_json(json);
    match value_to_string_pretty(&value) {
        Ok(text) => text,
        Err(_) => String::new(),
    }
}

} // verus!
