//! The JSON value tree: a tagged variant over null, booleans, numbers,
//! strings, arrays and objects. Objects keep their entries in insertion
//! order, with unique keys. Numbers carry their decimal text, so that the
//! tree itself stays exact.

use vstd::prelude::*;

verus! {

broadcast use vstd::std_specs::vec::axiom_vec_index_decreases;

/// A JSON value. Object entries are kept as a vector of key/value pairs in
/// insertion order; numbers hold their decimal text verbatim.
#[derive(Debug, PartialEq, Eq)]
pub enum JsonValue {
    Null,
    Bool(bool),
    Number(String),
    String(String),
    Array(Vec<JsonValue>),
    Object(Vec<(String, JsonValue)>),
}

/// The mathematical shape of a JSON value: the same tree over sequences of
/// characters.
#[verifier::ext_equal]
pub enum Json {
    Null,
    Bool { b: bool },
    Number { text: Seq<char> },
    String { text: Seq<char> },
    Array { items: Seq<Json> },
    Object { entries: Seq<(Seq<char>, Json)> },
}

/// The shape of a `JsonValue`.
pub open spec fn json_model(v: JsonValue) -> Json
    decreases v, 0int,
{
    match v {
        JsonValue::Null => Json::Null,
        JsonValue::Bool(b) => Json::Bool { b },
        JsonValue::Number(t) => Json::Number { text: t@ },
        JsonValue::String(t) => Json::String { text: t@ },
        JsonValue::Array(items) => Json::Array { items: json_model_items(items, 0) },
        JsonValue::Object(entries) => Json::Object { entries: json_model_entries(entries, 0) },
    }
}

/// The shapes of the items of an array, from index `i` on.
pub open spec fn json_model_items(items: Vec<JsonValue>, i: int) -> Seq<Json>
    decreases items, items.len() - i,
{
    if 0 <= i < items.len() {
        seq![json_model(items[i])] + json_model_items(items, i + 1)
    } else {
        Seq::empty()
    }
}

/// The shapes of the entries of an object, from index `i` on.
pub open spec fn json_model_entries(entries: Vec<(String, JsonValue)>, i: int) -> Seq<
    (Seq<char>, Json),
>
    decreases entries, entries.len() - i,
{
    if 0 <= i < entries.len() {
        seq![(entries[i].0@, json_model(entries[i].1))] + json_model_entries(entries, i + 1)
    } else {
        Seq::empty()
    }
}

/// `json_model_items` lists one shape for each item from `i` on, in order.
pub proof fn lemma_json_model_items(items: Vec<JsonValue>, i: int)
    requires
        0 <= i <= items.len(),
    ensures
        json_model_items(items, i).len() == items.len() - i,
        forall|t: int|
            0 <= t < items.len() - i ==> #[trigger] json_model_items(items, i)[t] == json_model(
                items[t + i],
            ),
    decreases items.len() - i,
{
    if i < items.len() {
        lemma_json_model_items(items, i + 1);
    }
}

/// `json_model_entries` lists one key and shape for each entry from `i` on.
pub proof fn lemma_json_model_entries(entries: Vec<(String, JsonValue)>, i: int)
    requires
        0 <= i <= entries.len(),
    ensures
        json_model_entries(entries, i).len() == entries.len() - i,
        forall|t: int|
            0 <= t < entries.len() - i ==> #[trigger] json_model_entries(entries, i)[t] == (
            entries[t + i].0@,
            json_model(entries[t + i].1),
            ),
    decreases entries.len() - i,
{
    if i < entries.len() {
        lemma_json_model_entries(entries, i + 1);
    }
}

impl View for JsonValue {
    type V = Json;

    open spec fn view(&self) -> Json {
        json_model(*self)
    }
}

} // verus!
