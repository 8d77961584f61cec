//! Logging a quick note.

use vstd::prelude::*;

verus! {

/// A note ready to be stored.
#[derive(Debug, Clone)]
pub struct NoteEntry {
    pub date: String,
    pub time: String,
    pub text: String,
}

/// The note to store: the given date and time, or `today` and `now` where
/// they are not given.
pub fn plan_note(text: String, date: Option<String>, time: Option<String>, today: String, now: String) -> (e: NoteEntry)
    ensures
        e.text@ == text@,
        e.date@ == (match date {
            Some(x) => x@,
            None => today@,
        }),
        e.time@ == (match time {
            Some(x) => x@,
            None => now@,
        }),
{
    let date = match date {
        Some(x) => x,
        None => today,
    };
    let time = match time {
        Some(x) => x,
        None => now,
    };
    NoteEntry { date, time, text }
}

} // verus!
