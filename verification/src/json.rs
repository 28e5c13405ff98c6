//! JSON one level deep: what a document is, and of an array or an object the
//! texts of what it holds.

use serde_json::Value;
use vstd::prelude::*;
use vstd::string::*;
use vstd::utf8::*;

use crate::text::{opt_text, same_text};

verus! {

/// A JSON document. What an array or an object holds is JSON text again.
#[derive(Debug)]
pub enum JsonNode {
    Null,
    Bool(bool),
    /// A number, and its value where that is a 64-bit unsigned integer.
    Number(Option<u64>),
    Text(String),
    Array(Vec<String>),
    Object(Vec<(String, String)>),
}

/// What a `JsonNode` says.
pub ghost enum JsonView {
    Null,
    Bool(bool),
    Number(Option<u64>),
    Text(Seq<char>),
    Array(Seq<Seq<char>>),
    Object(Seq<(Seq<char>, Seq<char>)>),
}

impl View for JsonNode {
    type V = JsonView;

    open spec fn view(&self) -> JsonView {
        match *self {
            JsonNode::Null => JsonView::Null,
            JsonNode::Bool(b) => JsonView::Bool(b),
            JsonNode::Number(n) => JsonView::Number(n),
            JsonNode::Text(s) => JsonView::Text(s@),
            JsonNode::Array(items) => JsonView::Array(items@.map_values(|s: String| s@)),
            JsonNode::Object(fields) => JsonView::Object(
                fields@.map_values(|f: (String, String)| (f.0@, f.1@)),
            ),
        }
    }
}

pub open spec fn node_view(node: Option<JsonNode>) -> Option<JsonView> {
    match node {
        Some(node) => Some(node@),
        None => None,
    }
}

/// What `serde_json::from_slice::<serde_json::Value>` reads from `bytes`: nothing
/// where they are no JSON document.
pub uninterp spec fn json_reading(bytes: Seq<u8>) -> Option<JsonView>;

/// What a JSON text reads as.
pub open spec fn text_reading(text: Seq<char>) -> Option<JsonView> {
    json_reading(encode_utf8(text))
}

/// `serde_json::from_slice::<serde_json::Value>`, with what an array or an object
/// holds written back as text by `Value::to_string`. The result depends on the
/// bytes alone; no more is claimed of it.
#[verifier::external_body]
pub(crate) fn read_json(bytes: &[u8]) -> (r: Option<JsonNode>)
    ensures
        node_view(r) == json_reading(bytes@),
{
    match serde_json::from_slice::<Value>(bytes) {
        Err(_) => None,
        Ok(Value::Null) => Some(JsonNode::Null),
        Ok(Value::Bool(value)) => Some(JsonNode::Bool(value)),
        Ok(Value::Number(value)) => Some(JsonNode::Number(value.as_u64())),
        Ok(Value::String(value)) => Some(JsonNode::Text(value)),
        Ok(Value::Array(items)) => Some(JsonNode::Array(items.iter().map(|item| item.to_string()).collect())),
        Ok(Value::Object(fields)) => Some(
            JsonNode::Object(fields.into_iter().map(|(key, value)| (key, value.to_string())).collect()),
        ),
    }
}

/// The text of the first field named `key`.
pub open spec fn field(fields: Seq<(Seq<char>, Seq<char>)>, key: Seq<char>) -> Option<Seq<char>>
    decreases fields.len(),
{
    if fields.len() == 0 {
        None
    } else if fields[0].0 == key {
        Some(fields[0].1)
    } else {
        field(fields.drop_first(), key)
    }
}

/// The fields of `v` as texts.
pub open spec fn field_texts(v: Seq<(String, String)>) -> Seq<(Seq<char>, Seq<char>)> {
    v.map_values(|f: (String, String)| (f.0@, f.1@))
}

/// The text of the first field named `key`.
pub fn field_text<'a>(fields: &'a Vec<(String, String)>, key: &str) -> (r: Option<&'a String>)
    ensures
        match r {
            Some(s) => field(field_texts(fields@), key@) == Some(s@),
            None => field(field_texts(fields@), key@) is None,
        },
{
    let ghost all = field_texts(fields@);
    let mut i: usize = 0;
    proof {
        assert(all.skip(0) =~= all);
    }
    while i < fields.len()
        invariant
            i <= fields@.len(),
            all == field_texts(fields@),
            field(all, key@) == field(all.skip(i as int), key@),
        decreases fields@.len() - i,
    {
        proof {
            assert(all.skip(i as int)[0] == (fields@[i as int].0@, fields@[i as int].1@));
            assert(all.skip(i as int).drop_first() =~= all.skip(i + 1));
        }
        if same_text(fields[i].0.as_str(), key) {
            return Some(&fields[i].1);
        }
        i = i + 1;
    }
    None
}

/// A JSON text as a string.
pub open spec fn string_of(text: Seq<char>) -> Option<Seq<char>> {
    match text_reading(text) {
        Some(JsonView::Text(s)) => Some(s),
        _ => None,
    }
}

/// A JSON text as a 64-bit unsigned integer.
pub open spec fn number_of(text: Seq<char>) -> Option<u64> {
    match text_reading(text) {
        Some(JsonView::Number(n)) => n,
        _ => None,
    }
}

/// A JSON text as a string.
pub fn read_string(text: &str) -> (r: Option<String>)
    ensures
        opt_text(r) == string_of(text@),
{
    match read_json(text.as_bytes()) {
        Some(JsonNode::Text(s)) => Some(s),
        _ => None,
    }
}

/// A JSON text as a 64-bit unsigned integer.
pub fn read_number(text: &str) -> (r: Option<u64>)
    ensures
        r == number_of(text@),
{
    match read_json(text.as_bytes()) {
        Some(JsonNode::Number(n)) => n,
        _ => None,
    }
}

/// A field is found under its name: the first of that name counts, and there is none
/// exactly where the name does not occur.
pub proof fn lemma_field_is_found(fields: Seq<(Seq<char>, Seq<char>)>, key: Seq<char>)
    ensures
        field(fields, key) is None <==> forall|i: int|
            0 <= i < fields.len() ==> (#[trigger] fields[i]).0 != key,
        field(fields, key) is Some ==> exists|i: int|
            0 <= i < fields.len() && #[trigger] fields[i] == (key, field(fields, key)->0)
                && forall|j: int| 0 <= j < i ==> (#[trigger] fields[j]).0 != key,
    decreases fields.len(),
{
    if fields.len() > 0 {
        let rest = fields.drop_first();
        lemma_field_is_found(rest, key);
        assert forall|i: int| 0 <= i < rest.len() implies #[trigger] rest[i] == fields[i + 1] by {}
        if fields[0].0 == key {
            assert(fields[0] == (key, field(fields, key)->0));
        } else if field(rest, key) is Some {
            let i = choose|i: int|
                0 <= i < rest.len() && #[trigger] rest[i] == (key, field(rest, key)->0) && forall|
                    j: int,
                |
                    0 <= j < i ==> (#[trigger] rest[j]).0 != key;
            assert(fields[i + 1] == (key, field(fields, key)->0));
            assert forall|j: int| 0 <= j < i + 1 implies (#[trigger] fields[j]).0 != key by {
                if j > 0 {
                    assert(rest[j - 1] == fields[j]);
                }
            }
        } else {
            assert forall|i: int| 0 <= i < fields.len() implies (#[trigger] fields[i]).0 != key by {
                if i > 0 {
                    assert(rest[i - 1] == fields[i]);
                }
            }
        }
    }
}

} // verus!
