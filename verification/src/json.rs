//! JSON documents that the gateways send.

use vstd::prelude::*;

verus! {

/// An error of the JSON writer.
#[verifier::external_type_specification]
#[verifier::external_body]
pub struct ExJsonError(serde_json::Error);

/// The bytes of a JSON object with these members: texts, numbers (`null` for none) and lists of pairs
/// of texts, each pair as a list of two.
pub uninterp spec fn json_object_bytes(
    texts: Seq<(Seq<char>, Seq<char>)>,
    numbers: Seq<(Seq<char>, Option<u64>)>,
    lists: Seq<(Seq<char>, Seq<(Seq<char>, Seq<char>)>)>,
) -> Seq<u8>;

/// `serde_json::to_vec` writes a JSON value as bytes. It fails only where a type refuses to be
/// written or a map has keys that are not texts; an object of texts, numbers and lists does
/// neither. The bytes are a function of the members.
#[verifier::external_body]
pub(crate) fn to_json_bytes(
    texts: Vec<(String, String)>,
    numbers: Vec<(String, Option<u64>)>,
    lists: Vec<(String, Vec<(String, String)>)>,
) -> (r: Result<Vec<u8>, serde_json::Error>)
    ensures
        r is Ok,
        r->Ok_0@ == json_object_bytes(
            texts.deep_view(),
            numbers.deep_view(),
            lists.deep_view(),
        ),
{
    let mut object: serde_json::Map<String, serde_json::Value> = serde_json::Map::new();
    for (name, text) in texts {
        object.insert(name, serde_json::Value::from(text));
    }
    for (name, number) in numbers {
        object.insert(name, serde_json::Value::from(number));
    }
    for (name, list) in lists {
        let pairs: Vec<[String; 2]> = list.into_iter().map(|(a, b)| [a, b]).collect();
        object.insert(name, serde_json::Value::from(pairs));
    }
    serde_json::to_vec(&object)
}

/// The text of a JSON object with these members: texts and lists of texts.
pub uninterp spec fn json_object_text(
    texts: Seq<(Seq<char>, Seq<char>)>,
    lists: Seq<(Seq<char>, Seq<Seq<char>>)>,
) -> Seq<char>;

/// `serde_json::to_string` writes a JSON value as a text. It fails only where a type refuses to be
/// written or a map has keys that are not texts; an object of texts and lists does neither. The text
/// is a function of the members.
#[verifier::external_body]
pub(crate) fn to_json_text(
    texts: Vec<(String, String)>,
    lists: Vec<(String, Vec<String>)>,
) -> (r: Result<String, serde_json::Error>)
    ensures
        r is Ok,
        r->Ok_0@ == json_object_text(texts.deep_view(), lists.deep_view()),
{
    let mut object: serde_json::Map<String, serde_json::Value> = serde_json::Map::new();
    for (name, text) in texts {
        object.insert(name, serde_json::Value::from(text));
    }
    for (name, list) in lists {
        object.insert(name, serde_json::Value::from(list));
    }
    serde_json::to_string(&object)
}

} // verus!
