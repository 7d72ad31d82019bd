//! The serialised form of an asset's tags: a JSON array of strings.

use vstd::prelude::*;
use crate::asset::{optional_view, string_views};

verus! {

/// The JSON text that `serde_json::to_string` gives for a list of strings,
/// or `None` where it reports an error.
pub uninterp spec fn json_of_tags(tags: Seq<Seq<char>>) -> Option<Seq<char>>;

/// The list of strings that `serde_json::from_str` reads from a text, or
/// `None` where it reports an error.
pub uninterp spec fn tags_of_json(text: Seq<char>) -> Option<Seq<Seq<char>>>;

/// Calls `serde_json::to_string` on the tags. The result is the text that it
/// returned, `None` where it returned an error.
#[verifier::external_body]
fn tags_to_json(tags: &Vec<String>) -> (r: Option<String>)
    ensures
        optional_view(r) == json_of_tags(string_views(tags@)),
{
    serde_json::to_string(tags).ok()
}

/// Calls `serde_json::from_str` for a list of strings. The result is the
/// list that it returned, `None` where it returned an error.
#[verifier::external_body]
fn tags_from_json(text: &str) -> (r: Option<Vec<String>>)
    ensures
        match r {
            Some(t) => tags_of_json(text@) == Some(string_views(t@)),
            None => tags_of_json(text@) is None,
        },
{
    serde_json::from_str::<Vec<String>>(text).ok()
}

/// The text of an empty JSON array.
pub open spec fn empty_array() -> Seq<char> {
    seq!['[', ']']
}

/// The serialised tags of an asset: their JSON text, and an empty array
/// where they cannot be serialised.
pub open spec fn serialized_tags(tags: Seq<Seq<char>>) -> Seq<char> {
    match json_of_tags(tags) {
        Some(text) => text,
        None => empty_array(),
    }
}

/// The tags that a stored text stands for: an empty list where the text is
/// missing or is no JSON array of strings.
pub open spec fn stored_tags(text: Option<Seq<char>>) -> Seq<Seq<char>> {
    match text {
        Some(t) => match tags_of_json(t) {
            Some(tags) => tags,
            None => Seq::empty(),
        },
        None => Seq::empty(),
    }
}

/// The text to serialise, given what the serialiser returned.
pub fn text_or_empty_array(encoded: Option<String>) -> (r: String)
    ensures
        r@ == match optional_view(encoded) {
            Some(text) => text,
            None => empty_array(),
        },
{
    match encoded {
        Some(text) => text,
        None => {
            proof {
                reveal_strlit("[]");
            }
            let text = "[]".to_owned();
            assert(text@ =~= empty_array());
            text
        },
    }
}

/// The tags to show, given what the parser returned.
pub fn tags_or_none(decoded: Option<Vec<String>>) -> (r: Vec<String>)
    ensures
        string_views(r@) == match decoded {
            Some(tags) => string_views(tags@),
            None => Seq::empty(),
        },
{
    match decoded {
        Some(tags) => tags,
        None => {
            let tags: Vec<String> = Vec::new();
            assert(string_views(tags@) =~= Seq::empty());
            tags
        },
    }
}

/// Serialises the tags of an asset.
pub fn encode_tags(tags: &Vec<String>) -> (r: String)
    ensures
        r@ == serialized_tags(string_views(tags@)),
{
    text_or_empty_array(tags_to_json(tags))
}

/// Reads the tags of an asset from their stored text. A missing or
/// malformed text gives no tags.
pub fn decode_tags(text: &Option<String>) -> (r: Vec<String>)
    ensures
        string_views(r@) == stored_tags(optional_view(*text)),
{
    match text {
        Some(t) => tags_or_none(tags_from_json(t.as_str())),
        None => tags_or_none(None),
    }
}

} // verus!
