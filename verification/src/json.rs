//! JSON values, as the crate `serde_json` reads them from a text.

use vstd::prelude::*;

verus! {

/// A JSON value. A number is kept as the fact that it is one: nothing in a
/// rule file is read as a number.
#[derive(Debug, PartialEq, Eq)]
pub enum Json {
    Null,
    Bool(bool),
    Number,
    Text(String),
    Array(Vec<Json>),
    /// The members of an object, in the order in which `serde_json` lists
    /// them: by key, each key once.
    Object(Vec<Member>),
}

/// A member of a JSON object.
#[derive(Debug, PartialEq, Eq)]
pub struct Member {
    pub key: String,
    pub value: Json,
}

/// A member of a JSON object, as plain texts and sequences.
pub struct MemberView {
    pub key: Seq<char>,
    pub value: JsonView,
}

/// A JSON value, as plain texts and sequences.
pub enum JsonView {
    Null,
    Bool(bool),
    Number,
    Text(Seq<char>),
    Array(Seq<JsonView>),
    Object(Seq<MemberView>),
}

impl View for Json {
    type V = JsonView;

    open spec fn view(&self) -> JsonView
        decreases self,
    {
        match self {
            Json::Null => JsonView::Null,
            Json::Bool(b) => JsonView::Bool(*b),
            Json::Number => JsonView::Number,
            Json::Text(s) => JsonView::Text(s@),
            Json::Array(items) => JsonView::Array(
                Seq::new(
                    items@.len(),
                    |i: int|
                        if 0 <= i < items@.len() {
                            items@[i]@
                        } else {
                            JsonView::Null
                        },
                ),
            ),
            Json::Object(members) => JsonView::Object(
                Seq::new(
                    members@.len(),
                    |i: int|
                        if 0 <= i < members@.len() {
                            MemberView { key: members@[i].key@, value: members@[i].value@ }
                        } else {
                            MemberView { key: Seq::<char>::empty(), value: JsonView::Null }
                        },
                ),
            ),
        }
    }
}

/// The items of an array are the views of the items it was made of.
pub proof fn lemma_array_view(items: Vec<Json>)
    ensures
        Json::Array(items)@ is Array,
        Json::Array(items)@->Array_0.len() == items@.len(),
        forall|i: int|
            0 <= i < items@.len() ==> #[trigger] Json::Array(items)@->Array_0[i] == items@[i]@,
{
}

/// The members of an object are the views of the members it was made of.
pub proof fn lemma_object_view(members: Vec<Member>)
    ensures
        Json::Object(members)@ is Object,
        Json::Object(members)@->Object_0.len() == members@.len(),
        forall|i: int|
            0 <= i < members@.len() ==> #[trigger] Json::Object(members)@->Object_0[i]
                == (MemberView { key: members@[i].key@, value: members@[i].value@ }),
{
}

/// `serde_json::Value`, made known as a type. Nothing is said of what a value
/// of it holds: it is only handed from the parser to the function that copies it.
#[verifier::external_type_specification]
#[verifier::external_body]
pub struct ExJsonValue(serde_json::Value);

/// The value that `serde_json::from_str` reads from a text, where it reads one.
pub uninterp spec fn json_document(text: Seq<char>) -> Option<JsonView>;

/// Copies a `serde_json::Value` into a `Json`, variant by variant: the
/// strings, the items of arrays and the members of objects as they are, in
/// their order; of a number only that it is one.
#[verifier::external_body]
fn from_value(v: &serde_json::Value) -> Json {
    match v {
        serde_json::Value::Null => Json::Null,
        serde_json::Value::Bool(b) => Json::Bool(*b),
        serde_json::Value::Number(_) => Json::Number,
        serde_json::Value::String(s) => Json::Text(s.clone()),
        serde_json::Value::Array(a) => Json::Array(a.iter().map(from_value).collect()),
        serde_json::Value::Object(o) => Json::Object(
            o.iter().map(|(k, v)| Member { key: k.clone(), value: from_value(v) }).collect(),
        ),
    }
}

/// `serde_json::from_str`, asked for a `serde_json::Value`: the JSON value
/// that the text holds, or `None` where the text is not one JSON value. What
/// is read depends on the text alone, and is named `json_document`.
#[verifier::external_body]
pub(crate) fn parse_document(text: &str) -> (r: Option<Json>)
    ensures
        r is Some <==> json_document(text@) is Some,
        r is Some ==> r->0@ == json_document(text@)->0,
{
    match serde_json::from_str::<serde_json::Value>(text) {
        Ok(v) => Some(from_value(&v)),
        Err(_) => None,
    }
}

} // verus!
