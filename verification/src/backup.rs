//! The plain-text logs kept beside the database: one line per entry, appended
//! to `codeforces.txt`, `leetcode.txt` and `notes.txt`.

use vstd::prelude::*;
use crate::num::{i64_text, int_text};
use crate::text::{join, join_strings, views};

verus! {

/// File that Codeforces entries are appended to.
pub const CF_LOG_FILE: &'static str = "codeforces.txt";

/// File that LeetCode entries are appended to.
pub const LC_LOG_FILE: &'static str = "leetcode.txt";

/// File that notes are appended to.
pub const NOTE_LOG_FILE: &'static str = "notes.txt";

/// The placeholder written for a missing value (an en dash).
pub open spec fn dash() -> Seq<char> {
    seq!['\u{2013}']
}

/// A difficulty clamped into `1..=5`.
pub open spec fn clamped_difficulty(d: i64) -> int {
    if d < 1 {
        1
    } else if d > 5 {
        5
    } else {
        d as int
    }
}

/// Five stars, as many filled as the clamped difficulty.
pub open spec fn stars_text(d: i64) -> Seq<char> {
    let k = clamped_difficulty(d);
    Seq::new(k as nat, |i: int| '\u{2605}') + Seq::new((5 - k) as nat, |i: int| '\u{2606}')
}

/// Text of an optional value, with a dash when it is absent.
pub open spec fn or_dash(o: Option<Seq<char>>) -> Seq<char> {
    match o {
        Some(s) => s,
        None => dash(),
    }
}

/// The Codeforces log line.
pub open spec fn cf_line(
    rating: i64,
    difficulty: i64,
    tags: Seq<Seq<char>>,
    notes: Option<Seq<char>>,
    date: Seq<char>,
    time: Seq<char>,
) -> Seq<char> {
    let tags_text = if tags.len() == 0 {
        dash()
    } else {
        join(tags, ", "@)
    };
    "["@ + date + " "@ + time + "] CF | Rating: "@ + int_text(rating as int) + " | Diff: "@
        + stars_text(difficulty) + " | Tags: "@ + tags_text + " | Notes: "@ + or_dash(notes)
}

/// The LeetCode log line.
pub open spec fn lc_line(
    lc_difficulty: Seq<char>,
    topic: Option<Seq<char>>,
    notes: Option<Seq<char>>,
    date: Seq<char>,
    time: Seq<char>,
) -> Seq<char> {
    "["@ + date + " "@ + time + "] LC | "@ + lc_difficulty + " | Topic: "@ + or_dash(topic)
        + " | Notes: "@ + or_dash(notes)
}

/// The note log line.
pub open spec fn note_line(text: Seq<char>, date: Seq<char>, time: Seq<char>) -> Seq<char> {
    "["@ + date + " "@ + time + "] NOTE | "@ + text
}

/// The view of an optional string slice.
pub open spec fn opt_str_view(o: Option<&str>) -> Option<Seq<char>> {
    match o {
        Some(s) => Some(s@),
        None => None,
    }
}

/// The difficulty as five stars, e.g. 3 gives "★★★☆☆"; out-of-range values are
/// clamped into `1..=5`.
pub fn difficulty_stars(d: i64) -> (s: String)
    ensures
        s@ == stars_text(d),
{
    let k: i64 = if d < 1 {
        1
    } else if d > 5 {
        5
    } else {
        d
    };
    let mut s = String::new();
    let mut i: i64 = 0;
    while i < 5
        invariant
            1 <= k <= 5,
            k == clamped_difficulty(d),
            0 <= i <= 5,
            s@ == Seq::new(i as nat, |j: int| if j < k { '\u{2605}' } else { '\u{2606}' }),
        decreases 5 - i,
    {
        if i < k {
            crate::text::push_char(&mut s, '\u{2605}');
        } else {
            crate::text::push_char(&mut s, '\u{2606}');
        }
        assert(s@ =~= Seq::new((i + 1) as nat, |j: int| if j < k { '\u{2605}' } else { '\u{2606}' }));
        i += 1;
    }
    assert(s@ =~= stars_text(d));
    s
}

fn push_or_dash(s: &mut String, o: Option<&str>)
    ensures
        final(s)@ == old(s)@ + or_dash(opt_str_view(o)),
{
    match o {
        Some(t) => s.append(t),
        None => {
            crate::text::push_char(s, '\u{2013}');
            assert(final(s)@ =~= old(s)@ + dash());
        },
    }
}

/// Appends the Codeforces log line, and its newline, to `log`.
pub fn append_cf(
    log: &mut String,
    rating: i64,
    difficulty: i64,
    tags: &Vec<String>,
    notes: Option<&str>,
    date: &str,
    time: &str,
)
    ensures
        final(log)@ == old(log)@ + cf_line(
            rating,
            difficulty,
            views(tags@),
            opt_str_view(notes),
            date@,
            time@,
        ) + seq!['\n'],
{
    let mut line = String::new();
    line.append("[");
    line.append(date);
    line.append(" ");
    line.append(time);
    line.append("] CF | Rating: ");
    let r = i64_text(rating);
    line.append(r.as_str());
    line.append(" | Diff: ");
    let stars = difficulty_stars(difficulty);
    line.append(stars.as_str());
    line.append(" | Tags: ");
    if tags.len() == 0 {
        crate::text::push_char(&mut line, '\u{2013}');
    } else {
        let t = join_strings(tags, ", ");
        line.append(t.as_str());
    }
    line.append(" | Notes: ");
    push_or_dash(&mut line, notes);
    assert(line@ =~= cf_line(rating, difficulty, views(tags@), opt_str_view(notes), date@, time@));
    log.append(line.as_str());
    crate::text::push_char(log, '\n');
}

/// Appends the LeetCode log line, and its newline, to `log`.
pub fn append_lc(
    log: &mut String,
    lc_difficulty: &str,
    topic: Option<&str>,
    notes: Option<&str>,
    date: &str,
    time: &str,
)
    ensures
        final(log)@ == old(log)@ + lc_line(
            lc_difficulty@,
            opt_str_view(topic),
            opt_str_view(notes),
            date@,
            time@,
        ) + seq!['\n'],
{
    let mut line = String::new();
    line.append("[");
    line.append(date);
    line.append(" ");
    line.append(time);
    line.append("] LC | ");
    line.append(lc_difficulty);
    line.append(" | Topic: ");
    push_or_dash(&mut line, topic);
    line.append(" | Notes: ");
    push_or_dash(&mut line, notes);
    assert(line@ =~= lc_line(lc_difficulty@, opt_str_view(topic), opt_str_view(notes), date@, time@));
    log.append(line.as_str());
    crate::text::push_char(log, '\n');
}

/// Appends the note log line, and its newline, to `log`.
pub fn append_note(log: &mut String, text: &str, date: &str, time: &str)
    ensures
        final(log)@ == old(log)@ + note_line(text@, date@, time@) + seq!['\n'],
{
    let mut line = String::new();
    line.append("[");
    line.append(date);
    line.append(" ");
    line.append(time);
    line.append("] NOTE | ");
    line.append(text);
    assert(line@ =~= note_line(text@, date@, time@));
    log.append(line.as_str());
    crate::text::push_char(log, '\n');
}

} // verus!
