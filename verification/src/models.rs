//! The records the journal keeps: activities (Codeforces and LeetCode
//! problems), tasks and notes.

use vstd::prelude::*;
use crate::backup::{difficulty_stars, stars_text, dash};
use crate::json::{json_text_of_list, tags_from_field, tags_of_field};
use crate::text::{ascii_lower_char, is_ascii_text, lowered, opt_view, same_text, to_lowercase, trim, trimmed, trim_end, trim_start, views};

verus! {

/// A solved problem on some platform (`"codeforces"`, `"leetcode"`, ...).
#[derive(Debug, Clone)]
pub struct Activity {
    pub id: i64,
    pub platform: String,
    pub date: String,
    pub time: Option<String>,
    pub difficulty: Option<i64>,
    pub rating: Option<i64>,
    pub lc_difficulty: Option<String>,
    pub topic: Option<String>,
    /// JSON array of strings, stored as text.
    pub tags: Option<String>,
    pub notes: Option<String>,
    pub created_at: String,
    pub updated_at: String,
}

/// A task; `priority` is 1 (Low), 2 (Medium) or 3 (High).
#[derive(Debug, Clone)]
pub struct Task {
    pub id: i64,
    pub title: String,
    pub description: Option<String>,
    pub status: Option<String>,
    pub priority: i64,
    pub deadline: Option<String>,
    pub created_at: String,
    pub updated_at: String,
}

/// A free-text note.
#[derive(Debug, Clone)]
pub struct Note {
    pub id: i64,
    pub date: String,
    pub time: Option<String>,
    pub text: String,
    pub created_at: String,
    pub updated_at: String,
}

/// Everything logged on a given date, collected for display.
pub struct DayView {
    pub date: String,
    pub activities: Vec<Activity>,
    pub tasks: Vec<Task>,
    pub notes: Vec<Note>,
}

/// The label of a task priority: 2 is Medium, 3 is High, anything else Low.
pub open spec fn priority_label_of(p: i64) -> Seq<char> {
    if p == 2 {
        "Medium"@
    } else if p == 3 {
        "High"@
    } else {
        "Low"@
    }
}

/// The priority that a (trimmed, lowercased) answer names.
pub open spec fn priority_of_key(k: Seq<char>) -> Option<i64> {
    if k == "1"@ || k == "low"@ {
        Some(1)
    } else if k == "2"@ || k == "medium"@ {
        Some(2)
    } else if k == "3"@ || k == "high"@ {
        Some(3)
    } else {
        None
    }
}

impl Activity {
    /// The tags of this activity, read from the JSON `tags` field; none when
    /// the field is absent or not a JSON array of strings. A field written by
    /// `serde_json::to_string` from a list of tags reads back as that list.
    pub fn parse_tags(&self) -> (r: Vec<String>)
        ensures
            views(r@) == tags_of_field(opt_view(self.tags)),
            forall|l: Seq<Seq<char>>|
                opt_view(self.tags) == Some(#[trigger] json_text_of_list(l)) ==> views(r@) == l,
    {
        tags_from_field(&self.tags)
    }

    /// Difficulty as a star string, e.g. 3 gives "★★★☆☆"; a dash when absent.
    pub fn difficulty_stars(&self) -> (r: String)
        ensures
            r@ == match self.difficulty {
                Some(d) => stars_text(d),
                None => dash(),
            },
    {
        match self.difficulty {
            Some(d) => difficulty_stars(d),
            None => {
                let mut s = String::new();
                crate::text::push_char(&mut s, '\u{2013}');
                s
            },
        }
    }

    /// The LeetCode difficulty, if present.
    pub fn lc_diff_display(&self) -> (r: Option<String>)
        ensures
            r == self.lc_difficulty,
    {
        self.lc_difficulty.clone()
    }
}

impl Task {
    /// "Low", "Medium" or "High".
    pub fn priority_label(&self) -> (r: &'static str)
        ensures
            r@ == priority_label_of(self.priority),
    {
        if self.priority == 2 {
            "Medium"
        } else if self.priority == 3 {
            "High"
        } else {
            "Low"
        }
    }

    /// The status, or a dash when there is none.
    pub fn status_display(&self) -> (r: &str)
        ensures
            r@ == match self.status {
                Some(s) => s@,
                None => dash(),
            },
    {
        match &self.status {
            Some(s) => s.as_str(),
            None => {
                let d = "\u{2013}";
                proof {
                    reveal_strlit("\u{2013}");
                }
                assert(d@ =~= dash());
                d
            },
        }
    }
}

/// The priority that an already normalised answer names: "1"/"low" is 1,
/// "2"/"medium" is 2, "3"/"high" is 3.
pub fn priority_from_key(key: &str) -> (r: Option<i64>)
    ensures
        r == priority_of_key(key@),
{
    if same_text(key, "1") || same_text(key, "low") {
        Some(1)
    } else if same_text(key, "2") || same_text(key, "medium") {
        Some(2)
    } else if same_text(key, "3") || same_text(key, "high") {
        Some(3)
    } else {
        None
    }
}

/// Parse a priority value from user input: "1"/"low" gives 1, "2"/"medium"
/// gives 2, "3"/"high" gives 3; surrounding whitespace and letter case are
/// ignored.
pub fn parse_priority(s: &str) -> (r: Option<i64>)
    ensures
        r == priority_of_key(lowered(trimmed(s@))),
{
    let t = trim(s);
    let k = to_lowercase(t.as_str());
    priority_from_key(k.as_str())
}

/// The priority labels lowercased, and left alone by trimming.
proof fn lemma_labels_lowered()
    ensures
        lowered(trimmed("Low"@)) == "low"@,
        lowered(trimmed("Medium"@)) == "medium"@,
        lowered(trimmed("High"@)) == "high"@,
{
    reveal_strlit("Low");
    reveal_strlit("low");
    reveal_strlit("Medium");
    reveal_strlit("medium");
    reveal_strlit("High");
    reveal_strlit("high");
    assert(trim_start("Low"@) == "Low"@);
    assert(trim_end("Low"@) == "Low"@);
    assert(trim_start("Medium"@) == "Medium"@);
    assert(trim_end("Medium"@) == "Medium"@);
    assert(trim_start("High"@) == "High"@);
    assert(trim_end("High"@) == "High"@);
    assert(is_ascii_text("Low"@));
    assert("Low"@.map_values(|c: char| ascii_lower_char(c)) =~= "low"@);
    assert(is_ascii_text("Medium"@));
    assert("Medium"@.map_values(|c: char| ascii_lower_char(c)) =~= "medium"@);
    assert(is_ascii_text("High"@));
    assert("High"@.map_values(|c: char| ascii_lower_char(c)) =~= "high"@);
}

/// A task's priority label reads back as its priority: `parse_priority`
/// of "Low", "Medium" and "High" gives 1, 2 and 3; and an answer names
/// priority `p` exactly when, trimmed and lowercased, it is `p`'s digit or
/// `p`'s label lowercased.
pub proof fn lemma_priority_label_parses_back(p: i64)
    requires
        1 <= p <= 3,
    ensures
        priority_of_key(lowered(trimmed(priority_label_of(p)))) == Some(p),
        forall|k: Seq<char>|
            #[trigger] priority_of_key(k) == Some(p) <==> (k == (if p == 1 {
                "1"@
            } else if p == 2 {
                "2"@
            } else {
                "3"@
            }) || k == lowered(trimmed(priority_label_of(p)))),
{
    lemma_labels_lowered();
    reveal_strlit("1");
    reveal_strlit("2");
    reveal_strlit("3");
    reveal_strlit("low");
    reveal_strlit("medium");
    reveal_strlit("high");
    assert("low"@[0] != "1"@[0] && "medium"@[0] != "2"@[0] && "high"@[0] != "3"@[0]);
    assert("1"@[0] != "2"@[0] && "1"@[0] != "3"@[0] && "2"@[0] != "3"@[0]);
    assert("low"@[0] != "medium"@[0] && "low"@[0] != "high"@[0] && "medium"@[0] != "high"@[0]);
    assert("low"@[0] != "2"@[0] && "low"@[0] != "3"@[0] && "medium"@[0] != "1"@[0]);
    assert("medium"@[0] != "3"@[0] && "high"@[0] != "1"@[0] && "high"@[0] != "2"@[0]);
}

} // verus!
