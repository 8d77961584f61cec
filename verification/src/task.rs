//! Reading the answers to the task prompts.

use vstd::prelude::*;
use crate::fields::{non_empty, non_empty_spec};
use crate::models::{parse_priority, priority_of_key};
use crate::text::{chars_of, lowered, opt_view, same_text, trim, trimmed};

verus! {

/// The title typed when adding a task: the trimmed answer, or `None` when
/// it is blank (the prompt is then asked again).
pub fn title_answer(raw: &str) -> (r: Option<String>)
    ensures
        opt_view(r) == non_empty_spec(raw@),
{
    let v = chars_of(raw);
    non_empty(&v)
}

/// An optional answer (description, status, deadline): the trimmed answer,
/// or `None` when it is blank.
pub fn optional_answer(raw: &str) -> (r: Option<String>)
    ensures
        opt_view(r) == non_empty_spec(raw@),
{
    let v = chars_of(raw);
    non_empty(&v)
}

/// The priority typed when adding a task: 1 for a blank answer, else the
/// priority the answer names; `None` (ask again) when it names none.
pub open spec fn add_priority_of(raw: Seq<char>) -> Option<i64> {
    if trimmed(raw).len() == 0 {
        Some(1)
    } else {
        priority_of_key(lowered(trimmed(trimmed(raw))))
    }
}

/// Reads the priority answer of the add prompt.
pub fn add_priority_answer(raw: &str) -> (r: Option<i64>)
    ensures
        r == add_priority_of(raw@),
{
    let t = trim(raw);
    if t.as_str().is_empty() {
        Some(1)
    } else {
        parse_priority(t.as_str())
    }
}

/// An optional field answered in the edit prompt: the current value for a
/// blank answer, cleared for "-", else the trimmed answer.
pub open spec fn edited_optional(raw: Seq<char>, current: Option<Seq<char>>) -> Option<Seq<char>> {
    let t = trimmed(raw);
    if t.len() == 0 {
        current
    } else if t == "-"@ {
        None
    } else {
        Some(t)
    }
}

/// Reads an optional field of the edit prompt.
pub fn edit_optional_answer(raw: &str, current: &Option<String>) -> (r: Option<String>)
    ensures
        opt_view(r) == edited_optional(raw@, opt_view(*current)),
{
    let t = trim(raw);
    if t.as_str().is_empty() {
        current.clone()
    } else if same_text(t.as_str(), "-") {
        None
    } else {
        Some(t)
    }
}

/// Reads the title of the edit prompt: the current title for a blank
/// answer, else the trimmed answer.
pub fn edit_title_answer(raw: &str, current: &String) -> (r: String)
    ensures
        r@ == (if trimmed(raw@).len() == 0 {
            current@
        } else {
            trimmed(raw@)
        }),
{
    let t = trim(raw);
    if t.as_str().is_empty() {
        current.clone()
    } else {
        t
    }
}

/// Reads the priority of the edit prompt: the current priority for a blank
/// answer, else the priority it names; an answer that names none keeps the
/// current priority and is reported (`true`).
pub fn edit_priority_answer(raw: &str, current: i64) -> (r: (i64, bool))
    ensures
        r == (if trimmed(raw@).len() == 0 {
            (current, false)
        } else {
            match priority_of_key(lowered(trimmed(trimmed(raw@)))) {
                Some(p) => (p, false),
                None => (current, true),
            }
        }),
{
    let t = trim(raw);
    if t.as_str().is_empty() {
        (current, false)
    } else {
        match parse_priority(t.as_str()) {
            Some(p) => (p, false),
            None => (current, true),
        }
    }
}

} // verus!
