//! Reading JSON: one look at a time, at the value that a pointer leads to.

use vstd::prelude::*;

use serde_json::Value;

use crate::text;

verus! {

/// What stands at a place in a JSON text; the items of a list and the values of an object as JSON
/// texts of their own.
pub enum Json {
    /// The text is no JSON, and why.
    Invalid(String),
    /// Nothing stands there.
    Missing,
    Null,
    Bool(bool),
    /// A number, where it is a whole one that fits, and by the bits of its double.
    Number(Option<u64>, Option<u64>),
    Text(String),
    List(Vec<String>),
    /// An object's values, in the order of their names.
    Object(Vec<String>),
}

/// What a look at a JSON text says.
pub enum JsonView {
    Invalid(Seq<char>),
    Missing,
    Null,
    Bool(bool),
    Number(Option<u64>, Option<u64>),
    Text(Seq<char>),
    List(Seq<Seq<char>>),
    Object(Seq<Seq<char>>),
}

impl View for Json {
    type V = JsonView;

    open spec fn view(&self) -> JsonView {
        match self {
            Json::Invalid(why) => JsonView::Invalid(why@),
            Json::Missing => JsonView::Missing,
            Json::Null => JsonView::Null,
            Json::Bool(flag) => JsonView::Bool(*flag),
            Json::Number(whole, bits) => JsonView::Number(*whole, *bits),
            Json::Text(text) => JsonView::Text(text@),
            Json::List(items) => JsonView::List(text::texts(items@)),
            Json::Object(values) => JsonView::Object(text::texts(values@)),
        }
    }
}

/// What `serde_json` reads at a pointer in a JSON text.
pub uninterp spec fn json_at(doc: Seq<char>, pointer: Seq<char>) -> JsonView;

/// `serde_json::from_str` into a `Value`, and `Value::pointer` into that: what the value there is
/// depends on the text and the pointer alone. An item or a value inside it comes back as the JSON
/// text that `Value::to_string` writes for it.
#[verifier::external_body]
pub(crate) fn look(doc: &str, pointer: &str) -> (found: Json)
    ensures
        found@ == json_at(doc@, pointer@),
{
    match serde_json::from_str::<Value>(doc) {
        Err(error) => Json::Invalid(error.to_string()),
        Ok(value) => match value.pointer(pointer) {
            None => Json::Missing,
            Some(found) => match found {
                Value::Null => Json::Null,
                Value::Bool(flag) => Json::Bool(*flag),
                Value::Number(n) => Json::Number(n.as_u64(), n.as_f64().map(|d| d.to_bits())),
                Value::String(text) => Json::Text(text.clone()),
                Value::Array(items) => Json::List(items.iter().map(Value::to_string).collect()),
                Value::Object(map) => Json::Object(map.values().map(Value::to_string).collect()),
            },
        },
    }
}

/// What `serde_json` reads a JSON text as, where it is a list of texts.
pub uninterp spec fn json_strings(doc: Seq<char>) -> Option<Seq<Seq<char>>>;

/// The texts of a list of strings that may not be there.
pub open spec fn texts_of(list: Option<Vec<String>>) -> Option<Seq<Seq<char>>> {
    match list {
        Some(list) => Some(text::texts(list@)),
        None => None,
    }
}

/// `serde_json::from_str` into a list of strings: whether the text is one, and what it holds,
/// depends on the text alone.
#[verifier::external_body]
pub(crate) fn strings(doc: &str) -> (list: Option<Vec<String>>)
    ensures
        texts_of(list) == json_strings(doc@),
{
    serde_json::from_str::<Vec<String>>(doc).ok()
}

/// What `serde_json` writes a text as.
pub uninterp spec fn json_quoted(text: Seq<char>) -> Seq<char>;

/// `Value::to_string` of a text: what it writes depends on the text alone, and read again it is
/// that text.
#[verifier::external_body]
pub(crate) fn quote(text: &str) -> (quoted: String)
    ensures
        quoted@ == json_quoted(text@),
        json_at(quoted@, ""@) == JsonView::Text(text@),
{
    Value::String(text.to_owned()).to_string()
}

/// The text of a string that may not be there.
pub open spec fn text_of(value: Option<String>) -> Option<Seq<char>> {
    match value {
        Some(value) => Some(value@),
        None => None,
    }
}

/// The text that a look finds.
pub open spec fn as_text(found: JsonView) -> Option<Seq<char>> {
    match found {
        JsonView::Text(text) => Some(text),
        _ => None,
    }
}

/// The whole number that a look finds.
pub open spec fn as_count(found: JsonView) -> Option<u64> {
    match found {
        JsonView::Number(whole, _) => whole,
        _ => None,
    }
}

/// The items that a look finds.
pub open spec fn as_list(found: JsonView) -> Option<Seq<Seq<char>>> {
    match found {
        JsonView::List(items) => Some(items),
        _ => None,
    }
}

pub fn text_at(doc: &str, pointer: &str) -> (found: Option<String>)
    ensures
        text_of(found) == as_text(json_at(doc@, pointer@)),
{
    match look(doc, pointer) {
        Json::Text(text) => Some(text),
        _ => None,
    }
}

pub fn count_at(doc: &str, pointer: &str) -> (found: Option<u64>)
    ensures
        found == as_count(json_at(doc@, pointer@)),
{
    match look(doc, pointer) {
        Json::Number(whole, _) => whole,
        _ => None,
    }
}

/// The bits of the double that a look finds.
pub open spec fn as_double(found: JsonView) -> Option<u64> {
    match found {
        JsonView::Number(_, bits) => bits,
        _ => None,
    }
}

pub fn double_at(doc: &str, pointer: &str) -> (found: Option<u64>)
    ensures
        found == as_double(json_at(doc@, pointer@)),
{
    match look(doc, pointer) {
        Json::Number(_, bits) => bits,
        _ => None,
    }
}

pub open spec fn as_flag(found: JsonView) -> Option<bool> {
    match found {
        JsonView::Bool(flag) => Some(flag),
        _ => None,
    }
}

pub fn flag_at(doc: &str, pointer: &str) -> (found: Option<bool>)
    ensures
        found == as_flag(json_at(doc@, pointer@)),
{
    match look(doc, pointer) {
        Json::Bool(flag) => Some(flag),
        _ => None,
    }
}

/// Whether nothing is said at a place.
pub open spec fn is_nothing(found: JsonView) -> bool {
    found is Missing || found is Null
}

pub fn nothing_at(doc: &str, pointer: &str) -> (yes: bool)
    ensures
        yes == is_nothing(json_at(doc@, pointer@)),
{
    match look(doc, pointer) {
        Json::Missing => true,
        Json::Null => true,
        _ => false,
    }
}

pub fn list_at(doc: &str, pointer: &str) -> (found: Option<Vec<String>>)
    ensures
        texts_of(found) == as_list(json_at(doc@, pointer@)),
{
    match look(doc, pointer) {
        Json::List(items) => Some(items),
        _ => None,
    }
}

/// The values of an object that a look finds.
pub open spec fn as_values(found: JsonView) -> Option<Seq<Seq<char>>> {
    match found {
        JsonView::Object(values) => Some(values),
        _ => None,
    }
}

pub fn values_at(doc: &str, pointer: &str) -> (found: Option<Vec<String>>)
    ensures
        texts_of(found) == as_values(json_at(doc@, pointer@)),
{
    match look(doc, pointer) {
        Json::Object(values) => Some(values),
        _ => None,
    }
}

/// Why a text is no JSON.
pub open spec fn why_invalid(found: JsonView) -> Option<Seq<char>> {
    match found {
        JsonView::Invalid(why) => Some(why),
        _ => None,
    }
}

/// Why a text is no JSON, where it is none.
pub fn invalid(doc: &str) -> (why: Option<String>)
    ensures
        text_of(why) == why_invalid(json_at(doc@, ""@)),
{
    match look(doc, "") {
        Json::Invalid(why) => Some(why),
        _ => None,
    }
}

} // verus!
