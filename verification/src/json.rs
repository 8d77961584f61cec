//! JSON text of tag lists, read and written by `serde_json`.

use vstd::prelude::*;
use crate::text::views;

verus! {

#[verifier::external_type_specification]
#[verifier::external_body]
pub struct ExJsonError(serde_json::Error);

/// The JSON text that `serde_json::to_string` writes for a list of strings.
pub uninterp spec fn json_text_of_list(items: Seq<Seq<char>>) -> Seq<char>;

/// The list of strings that `serde_json::from_str::<Vec<String>>` reads from
/// `text`, or `None` where it reports an error.
pub uninterp spec fn json_list_of_text(text: Seq<char>) -> Option<Seq<Seq<char>>>;

/// Calls `serde_json::to_string` on a list of strings. Claimed: the call
/// succeeds (serde_json reports an error only where a `Serialize` impl fails
/// or a map has a key that is not a string, and neither can happen for a
/// list of strings written to memory); the text is `json_text_of_list` of the
/// items; and reading it back with `serde_json::from_str::<Vec<String>>`
/// gives the same items (a JSON array of escaped strings, unescaped by the
/// reader).
#[verifier::external_body]
fn encode_string_list(items: &Vec<String>) -> (r: Result<String, serde_json::Error>)
    ensures
        r is Ok,
        r matches Ok(t) ==> t@ == json_text_of_list(views(items@)) && json_list_of_text(t@)
            == Some(views(items@)),
{
    serde_json::to_string(items)
}

/// Calls `serde_json::from_str::<Vec<String>>` and keeps the value, dropping
/// the error. Claimed: the result is `json_list_of_text` of the text, and
/// text that `serde_json::to_string` wrote for a list of strings reads back
/// as that list (serde_json writes each string as a JSON string literal that
/// its reader unescapes to the same characters).
#[verifier::external_body]
fn decode_string_list(text: &str) -> (r: Option<Vec<String>>)
    ensures
        match r {
            Some(v) => json_list_of_text(text@) == Some(views(v@)),
            None => json_list_of_text(text@) is None,
        },
        r matches Some(v) ==> forall|l: Seq<Seq<char>>|
            #[trigger] json_text_of_list(l) == text@ ==> views(v@) == l,
        r is None ==> forall|l: Seq<Seq<char>>| #[trigger] json_text_of_list(l) != text@,
{
    serde_json::from_str::<Vec<String>>(text).ok()
}

/// The JSON text stored for a tag list: `None` for an empty list, else the
/// JSON array of the tags, which reads back as the same list.
pub fn tags_json(tags: &Vec<String>) -> (r: Option<String>)
    ensures
        tags@.len() == 0 ==> r is None,
        tags@.len() > 0 ==> (r matches Some(t) && t@ == json_text_of_list(views(tags@))
            && json_list_of_text(t@) == Some(views(tags@))),
{
    if tags.len() == 0 {
        return None;
    }
    match encode_string_list(tags) {
        Ok(t) => Some(t),
        Err(_) => {
            proof {
                assert(false);
            }
            None
        },
    }
}

/// The tags held in a stored tag field: the JSON array's strings, or no tags
/// when the field is absent or is not a JSON array of strings.
pub open spec fn tags_of_field(field: Option<Seq<char>>) -> Seq<Seq<char>> {
    match field {
        Some(t) => match json_list_of_text(t) {
            Some(l) => l,
            None => Seq::empty(),
        },
        None => Seq::empty(),
    }
}

/// Reads the tags of a stored tag field.
pub fn tags_from_field(field: &Option<String>) -> (r: Vec<String>)
    ensures
        views(r@) == tags_of_field(crate::text::opt_view(*field)),
        forall|l: Seq<Seq<char>>|
            crate::text::opt_view(*field) == Some(#[trigger] json_text_of_list(l)) ==> views(r@) == l,
{
    match field {
        Some(t) => match decode_string_list(t.as_str()) {
            Some(v) => v,
            None => Vec::new(),
        },
        None => {
            let v: Vec<String> = Vec::new();
            assert(views(v@) =~= Seq::<Seq<char>>::empty());
            v
        },
    }
}

} // verus!
