//! What the day, task and activity views show: which entries, the text of
//! each table cell and the colour it is shown in. Printing is left to the
//! caller.

use vstd::prelude::*;
use crate::backup::{dash, stars_text};
use crate::json::tags_of_field;
use crate::models::{Activity, DayView, Note, Task};
use crate::num::{i64_text, int_text};
use crate::text::{join, join_strings, opt_view, same_text, views};

verus! {

/// The colour a cell is shown in.
#[derive(Debug, Clone, Copy, PartialEq, Eq)]
pub enum Tone {
    Plain,
    DarkGrey,
    Cyan,
    Yellow,
    Green,
    Red,
    Magenta,
}

/// Whether a day view has anything to show.
pub fn has_anything(view: &DayView) -> (b: bool)
    ensures
        b == (view.activities.len() > 0 || view.tasks.len() > 0 || view.notes.len() > 0),
{
    view.activities.len() > 0 || view.tasks.len() > 0 || view.notes.len() > 0
}

/// The positions, in order, of the activities of one platform.
pub fn platform_indices(activities: &Vec<Activity>, platform: &str) -> (r: Vec<usize>)
    ensures
        forall|k: int| 0 <= k < r.len() ==> #[trigger] r@[k] < activities.len() && activities@[r@[k] as int].platform@ == platform@,
        forall|a: int, b: int| 0 <= a < b < r.len() ==> r@[a] < r@[b],
        forall|j: int| 0 <= j < activities.len() && activities@[j].platform@ == platform@ ==> r@.contains(j as usize),
{
    let mut r: Vec<usize> = Vec::new();
    let mut i: usize = 0;
    while i < activities.len()
        invariant
            i <= activities.len(),
            forall|k: int| 0 <= k < r.len() ==> #[trigger] r@[k] < i && activities@[r@[k] as int].platform@ == platform@,
            forall|a: int, b: int| 0 <= a < b < r.len() ==> r@[a] < r@[b],
            forall|j: int| 0 <= j < i && activities@[j].platform@ == platform@ ==> r@.contains(j as usize),
        decreases activities.len() - i,
    {
        if same_text(activities[i].platform.as_str(), platform) {
            let ghost old_r = r@;
            r.push(i);
            assert forall|j: int| 0 <= j < i + 1 && activities@[j].platform@ == platform@ implies r@.contains(j as usize) by {
                if j == i {
                    assert(r@[r@.len() - 1] == i);
                } else {
                    let k = choose|k: int| 0 <= k < old_r.len() && old_r[k] == j as usize;
                    assert(r@[k] == j as usize);
                }
            }
        }
        i += 1;
    }
    r
}

/// The text of an optional value, with a dash when absent.
pub open spec fn or_dash_view(o: Option<Seq<char>>) -> Seq<char> {
    match o {
        Some(s) => s,
        None => dash(),
    }
}

/// The text of an optional value, empty when absent.
pub open spec fn or_empty_view(o: Option<Seq<char>>) -> Seq<char> {
    match o {
        Some(s) => s,
        None => Seq::empty(),
    }
}

fn or_dash(o: &Option<String>) -> (r: String)
    ensures
        r@ == or_dash_view(opt_view(*o)),
{
    match o {
        Some(s) => s.clone(),
        None => {
            let mut s = String::new();
            crate::text::push_char(&mut s, '\u{2013}');
            s
        },
    }
}

fn or_empty(o: &Option<String>) -> (r: String)
    ensures
        r@ == or_empty_view(opt_view(*o)),
{
    match o {
        Some(s) => s.clone(),
        None => String::new(),
    }
}

/// A rating as text, or a dash when absent.
pub open spec fn rating_view(r: Option<i64>) -> Seq<char> {
    match r {
        Some(n) => int_text(n as int),
        None => dash(),
    }
}

/// A rating as text, or a dash when absent.
pub fn rating_text(r: Option<i64>) -> (s: String)
    ensures
        s@ == rating_view(r),
{
    match r {
        Some(n) => i64_text(n),
        None => {
            let mut s = String::new();
            crate::text::push_char(&mut s, '\u{2013}');
            s
        },
    }
}

/// The cells of a Codeforces row: date, time, rating, difficulty stars, tags
/// and notes.
pub open spec fn cf_cells_view(a: Activity) -> Seq<Seq<char>> {
    seq![
        a.date@,
        or_dash_view(opt_view(a.time)),
        rating_view(a.rating),
        match a.difficulty {
            Some(d) => stars_text(d),
            None => dash(),
        },
        join(tags_of_field(opt_view(a.tags)), ", "@),
        or_empty_view(opt_view(a.notes)),
    ]
}

/// The cells of a Codeforces row (without its id).
pub fn cf_cells(a: &Activity) -> (r: Vec<String>)
    ensures
        views(r@) == cf_cells_view(*a),
{
    let mut r: Vec<String> = Vec::new();
    r.push(a.date.clone());
    r.push(or_dash(&a.time));
    r.push(rating_text(a.rating));
    r.push(a.difficulty_stars());
    let tags = a.parse_tags();
    r.push(join_strings(&tags, ", "));
    r.push(or_empty(&a.notes));
    assert(views(r@) =~= cf_cells_view(*a));
    r
}

/// The cells of a LeetCode row: date, time, difficulty, topic and notes.
pub open spec fn lc_cells_view(a: Activity) -> Seq<Seq<char>> {
    seq![
        a.date@,
        or_dash_view(opt_view(a.time)),
        or_dash_view(opt_view(a.lc_difficulty)),
        or_empty_view(opt_view(a.topic)),
        or_empty_view(opt_view(a.notes)),
    ]
}

/// The cells of a LeetCode row (without its id).
pub fn lc_cells(a: &Activity) -> (r: Vec<String>)
    ensures
        views(r@) == lc_cells_view(*a),
{
    let mut r: Vec<String> = Vec::new();
    r.push(a.date.clone());
    r.push(or_dash(&a.time));
    r.push(or_dash(&a.lc_difficulty));
    r.push(or_empty(&a.topic));
    r.push(or_empty(&a.notes));
    assert(views(r@) =~= lc_cells_view(*a));
    r
}

/// The colour of a LeetCode difficulty.
pub open spec fn lc_tone_of(d: Seq<char>) -> Tone {
    if d == "Easy"@ {
        Tone::Green
    } else if d == "Medium"@ {
        Tone::Yellow
    } else if d == "Hard"@ {
        Tone::Red
    } else {
        Tone::Plain
    }
}

/// The colour of a LeetCode difficulty.
pub fn lc_tone(d: &str) -> (t: Tone)
    ensures
        t == lc_tone_of(d@),
{
    if same_text(d, "Easy") {
        Tone::Green
    } else if same_text(d, "Medium") {
        Tone::Yellow
    } else if same_text(d, "Hard") {
        Tone::Red
    } else {
        Tone::Plain
    }
}

/// The text and colour of a task status cell.
pub open spec fn status_cell_of(status: Option<Seq<char>>) -> (Seq<char>, Tone) {
    match status {
        Some(s) => if s == "Todo"@ {
            (s, Tone::DarkGrey)
        } else if s == "Doing"@ {
            (s, Tone::Yellow)
        } else if s == "Done"@ {
            (s, Tone::Green)
        } else if s == "Cancelled"@ {
            (s, Tone::Red)
        } else {
            (s, Tone::Cyan)
        },
        None => (dash(), Tone::DarkGrey),
    }
}

/// The text and colour of a task status cell.
pub fn status_cell(status: &Option<String>) -> (r: (String, Tone))
    ensures
        (r.0@, r.1) == status_cell_of(opt_view(*status)),
{
    match status {
        Some(s) => {
            let t = if same_text(s.as_str(), "Todo") {
                Tone::DarkGrey
            } else if same_text(s.as_str(), "Doing") {
                Tone::Yellow
            } else if same_text(s.as_str(), "Done") {
                Tone::Green
            } else if same_text(s.as_str(), "Cancelled") {
                Tone::Red
            } else {
                Tone::Cyan
            };
            (s.clone(), t)
        },
        None => {
            let mut s = String::new();
            crate::text::push_char(&mut s, '\u{2013}');
            (s, Tone::DarkGrey)
        },
    }
}

/// The text and colour of a task priority cell: 3 is High, 2 Medium,
/// anything else Low.
pub fn priority_cell(p: i64) -> (r: (&'static str, Tone))
    ensures
        r.0@ == crate::models::priority_label_of(p),
        r.1 == (if p == 3 {
            Tone::Red
        } else if p == 2 {
            Tone::Yellow
        } else {
            Tone::DarkGrey
        }),
{
    if p == 3 {
        ("High", Tone::Red)
    } else if p == 2 {
        ("Medium", Tone::Yellow)
    } else {
        ("Low", Tone::DarkGrey)
    }
}

/// The deadline cell of a task.
pub fn deadline_text(t: &Task) -> (r: String)
    ensures
        r@ == or_dash_view(opt_view(t.deadline)),
{
    or_dash(&t.deadline)
}

/// The description cell of a task.
pub fn description_text(t: &Task) -> (r: String)
    ensures
        r@ == or_empty_view(opt_view(t.description)),
{
    or_empty(&t.description)
}

/// The time shown after a note's id: " [HH:MM]", or nothing.
pub fn note_time_part(n: &Note) -> (r: String)
    ensures
        r@ == match n.time {
            Some(t) => " ["@ + t@ + "]"@,
            None => Seq::empty(),
        },
{
    match &n.time {
        Some(t) => {
            let mut s = String::new();
            s.append(" [");
            s.append(t.as_str());
            s.append("]");
            s
        },
        None => String::new(),
    }
}

/// The icon and heading of an activity list.
pub fn list_heading(platform: &str) -> (r: (&'static str, String))
    ensures
        platform@ == "codeforces"@ ==> r.0@ == "\u{26a1}"@ && r.1@ == "CODEFORCES"@,
        platform@ == "leetcode"@ ==> r.0@ == "\u{1f4d8}"@ && r.1@ == "LEETCODE"@,
        platform@ != "codeforces"@ && platform@ != "leetcode"@ ==> r.0@ == "\u{b7}"@ && r.1@
            == platform@,
{
    let mut label = String::new();
    proof {
        reveal_strlit("codeforces");
        reveal_strlit("leetcode");
        assert("codeforces"@[0] != "leetcode"@[0]);
    }
    if same_text(platform, "codeforces") {
        label.append("CODEFORCES");
        ("\u{26a1}", label)
    } else if same_text(platform, "leetcode") {
        label.append("LEETCODE");
        ("\u{1f4d8}", label)
    } else {
        label.append(platform);
        ("\u{b7}", label)
    }
}

/// Each cell of a Codeforces row: the date; the time, or a dash when there
/// is none; the rating in decimal, or a dash; five stars, as many of them
/// filled as the difficulty clamped into 1..5, or a dash when there is no
/// difficulty; the tags joined with ", "; the notes, or nothing when there
/// are none.
pub proof fn lemma_cf_cells(a: Activity)
    ensures
        cf_cells_view(a).len() == 6,
        cf_cells_view(a)[0] == a.date@,
        cf_cells_view(a)[1] == (match a.time {
            Some(t) => t@,
            None => seq!['\u{2013}'],
        }),
        cf_cells_view(a)[2] == (match a.rating {
            Some(r) => int_text(r as int),
            None => seq!['\u{2013}'],
        }),
        match a.difficulty {
            Some(d) => {
                let k = if d < 1 {
                    1
                } else if d > 5 {
                    5
                } else {
                    d as int
                };
                &&& cf_cells_view(a)[3].len() == 5
                &&& forall|i: int|
                    0 <= i < 5 ==> #[trigger] cf_cells_view(a)[3][i] == (if i < k {
                        '\u{2605}'
                    } else {
                        '\u{2606}'
                    })
            },
            None => cf_cells_view(a)[3] == seq!['\u{2013}'],
        },
        cf_cells_view(a)[4] == join(tags_of_field(opt_view(a.tags)), ", "@),
        cf_cells_view(a)[5] == (match a.notes {
            Some(n) => n@,
            None => Seq::<char>::empty(),
        }),
{
}

/// Each cell of a LeetCode row: the date; the time, or a dash when there is
/// none; the difficulty, or a dash; the topic, or nothing; the notes, or
/// nothing.
pub proof fn lemma_lc_cells(a: Activity)
    ensures
        lc_cells_view(a).len() == 5,
        lc_cells_view(a)[0] == a.date@,
        lc_cells_view(a)[1] == (match a.time {
            Some(t) => t@,
            None => seq!['\u{2013}'],
        }),
        lc_cells_view(a)[2] == (match a.lc_difficulty {
            Some(d) => d@,
            None => seq!['\u{2013}'],
        }),
        lc_cells_view(a)[3] == (match a.topic {
            Some(t) => t@,
            None => Seq::<char>::empty(),
        }),
        lc_cells_view(a)[4] == (match a.notes {
            Some(n) => n@,
            None => Seq::<char>::empty(),
        }),
{
}

} // verus!
