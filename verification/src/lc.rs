//! Logging a LeetCode problem: the difficulty words it accepts and what a
//! log request becomes.

use vstd::prelude::*;
use crate::text::{ascii_lower_char, is_ascii_text, lowered, opt_view, same_text, to_lowercase};

verus! {

/// The stored difficulty level of a lowercased difficulty word: easy is 2,
/// medium 3, hard 4.
pub open spec fn lc_level_of_key(k: Seq<char>) -> Option<i64> {
    if k == "easy"@ {
        Some(2)
    } else if k == "medium"@ {
        Some(3)
    } else if k == "hard"@ {
        Some(4)
    } else {
        None
    }
}

/// The display name of a lowercased difficulty word.
pub open spec fn lc_name_of_key(k: Seq<char>) -> Seq<char> {
    if k == "easy"@ {
        "Easy"@
    } else if k == "medium"@ {
        "Medium"@
    } else if k == "hard"@ {
        "Hard"@
    } else {
        "Unknown"@
    }
}

/// The level of an already lowercased difficulty word.
pub fn lc_level_from_key(key: &str) -> (r: Option<i64>)
    ensures
        r == lc_level_of_key(key@),
{
    if same_text(key, "easy") {
        Some(2)
    } else if same_text(key, "medium") {
        Some(3)
    } else if same_text(key, "hard") {
        Some(4)
    } else {
        None
    }
}

/// The display name of an already lowercased difficulty word.
pub fn lc_name_from_key(key: &str) -> (r: &'static str)
    ensures
        r@ == lc_name_of_key(key@),
{
    if same_text(key, "easy") {
        "Easy"
    } else if same_text(key, "medium") {
        "Medium"
    } else if same_text(key, "hard") {
        "Hard"
    } else {
        "Unknown"
    }
}

/// The stored level of a difficulty word, in any letter case: Easy is 2,
/// Medium 3, Hard 4.
pub fn lc_difficulty_to_int(d: &str) -> (r: Option<i64>)
    ensures
        r == lc_level_of_key(lowered(d@)),
{
    let k = to_lowercase(d);
    lc_level_from_key(k.as_str())
}

/// The display name of a difficulty word, in any letter case: "Easy",
/// "Medium", "Hard" or "Unknown".
pub fn normalize_difficulty(d: &str) -> (r: &'static str)
    ensures
        r@ == lc_name_of_key(lowered(d@)),
{
    let k = to_lowercase(d);
    lc_name_from_key(k.as_str())
}

/// The display names lowercased are the difficulty words.
proof fn lemma_names_lowered()
    ensures
        lowered("Easy"@) == "easy"@,
        lowered("Medium"@) == "medium"@,
        lowered("Hard"@) == "hard"@,
        lowered("Unknown"@) == "unknown"@,
{
    reveal_strlit("Easy");
    reveal_strlit("easy");
    reveal_strlit("Medium");
    reveal_strlit("medium");
    reveal_strlit("Hard");
    reveal_strlit("hard");
    reveal_strlit("Unknown");
    reveal_strlit("unknown");
    assert(is_ascii_text("Easy"@));
    assert("Easy"@.map_values(|c: char| ascii_lower_char(c)) =~= "easy"@);
    assert(is_ascii_text("Medium"@));
    assert("Medium"@.map_values(|c: char| ascii_lower_char(c)) =~= "medium"@);
    assert(is_ascii_text("Hard"@));
    assert("Hard"@.map_values(|c: char| ascii_lower_char(c)) =~= "hard"@);
    assert(is_ascii_text("Unknown"@));
    assert("Unknown"@.map_values(|c: char| ascii_lower_char(c)) =~= "unknown"@);
}

/// Normalising a difficulty word agrees with its level: the name is
/// "Unknown" exactly when the word has no level, and otherwise Easy, Medium
/// or Hard, the same word in other letter case with the same level.
/// Normalising a normalised name gives it back.
pub proof fn lemma_normalize_difficulty(d: Seq<char>)
    ensures
        (lc_name_of_key(lowered(d)) == "Unknown"@) == (lc_level_of_key(lowered(d)) is None),
        ({
            let r = lc_name_of_key(lowered(d));
            &&& r != "Unknown"@ ==> (r == "Easy"@ || r == "Medium"@ || r == "Hard"@)
            &&& r != "Unknown"@ ==> lowered(r) == lowered(d)
            &&& lc_level_of_key(lowered(r)) == lc_level_of_key(lowered(d))
            &&& lc_name_of_key(lowered(r)) == r
        }),
{
    lemma_names_lowered();
    reveal_strlit("Easy");
    reveal_strlit("easy");
    reveal_strlit("Medium");
    reveal_strlit("medium");
    reveal_strlit("Hard");
    reveal_strlit("hard");
    reveal_strlit("Unknown");
    reveal_strlit("unknown");
    let k = lowered(d);
    if k == "easy"@ {
        assert(lc_name_of_key(k) == "Easy"@);
    } else if k == "medium"@ {
        assert(lc_name_of_key(k) == "Medium"@);
    } else if k == "hard"@ {
        assert(lc_name_of_key(k) == "Hard"@);
    } else {
        assert(lc_name_of_key(k) == "Unknown"@);
        assert("unknown"@[0] != "easy"@[0]);
        assert("unknown"@[0] != "medium"@[0]);
        assert("unknown"@[0] != "hard"@[0]);
    }
}

/// A LeetCode entry ready to be stored.
#[derive(Debug, Clone)]
pub struct LcEntry {
    pub date: String,
    pub time: String,
    pub difficulty: i64,
    pub lc_difficulty: String,
    pub topic: Option<String>,
    pub notes: Option<String>,
}

/// What a LeetCode log request comes to.
#[derive(Debug, Clone)]
pub enum LcOutcome {
    /// No difficulty was given.
    MissingDifficulty,
    /// The difficulty is not Easy, Medium or Hard.
    InvalidDifficulty(String),
    /// The entry to store.
    Log(LcEntry),
}

/// Decides a LeetCode log request. `today` and `now` stand for the current
/// date and time, used where no date or time is given.
pub fn plan_lc(
    difficulty: Option<String>,
    topic: Option<String>,
    notes: Option<String>,
    date: Option<String>,
    time: Option<String>,
    today: String,
    now: String,
) -> (r: LcOutcome)
    ensures
        match difficulty {
            None => r is MissingDifficulty,
            Some(d) => match lc_level_of_key(lowered(d@)) {
                None => r matches LcOutcome::InvalidDifficulty(s) && s@ == d@,
                Some(level) => r matches LcOutcome::Log(e) && {
                    &&& e.difficulty == level
                    &&& e.lc_difficulty@ == lc_name_of_key(lowered(d@))
                    &&& e.date@ == (match date {
                        Some(x) => x@,
                        None => today@,
                    })
                    &&& e.time@ == (match time {
                        Some(x) => x@,
                        None => now@,
                    })
                    &&& opt_view(e.topic) == opt_view(topic)
                    &&& opt_view(e.notes) == opt_view(notes)
                },
            },
        },
{
    let d = match difficulty {
        Some(d) => d,
        None => return LcOutcome::MissingDifficulty,
    };
    let k = to_lowercase(d.as_str());
    let level = match lc_level_from_key(k.as_str()) {
        Some(l) => l,
        None => return LcOutcome::InvalidDifficulty(d),
    };
    let name = lc_name_from_key(k.as_str());
    let mut lc_difficulty = String::new();
    lc_difficulty.append(name);
    let date = match date {
        Some(x) => x,
        None => today,
    };
    let time = match time {
        Some(x) => x,
        None => now,
    };
    LcOutcome::Log(LcEntry { date, time, difficulty: level, lc_difficulty, topic, notes })
}

} // verus!
