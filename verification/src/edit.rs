//! Editing a stored activity or note: only the fields given change.

use vstd::prelude::*;
use crate::fields::{split_all, split_all_exec};
use crate::json::{json_text_of_list, tags_json, tags_of_field};
use crate::models::{Activity, Note};
use crate::text::{chars_of, opt_view, trim_bounds, trimmed, string_of_range, views};

verus! {

/// The trimmed, non-empty pieces of `ps`, in order.
pub open spec fn kept_trimmed(ps: Seq<Seq<char>>) -> Seq<Seq<char>>
    decreases ps.len(),
{
    if ps.len() == 0 {
        Seq::empty()
    } else {
        (if trimmed(ps[0]).len() > 0 {
            seq![trimmed(ps[0])]
        } else {
            Seq::empty()
        }) + kept_trimmed(ps.drop_first())
    }
}

/// The tags of a comma-separated list: each piece trimmed, empty pieces
/// dropped.
pub open spec fn tag_list_of(s: Seq<char>) -> Seq<Seq<char>> {
    kept_trimmed(split_all(s, ','))
}

/// The tags of a comma-separated list, e.g. "E1, WA3,,BinarySearch" gives
/// E1, WA3 and BinarySearch.
pub fn split_tag_list(s: &str) -> (r: Vec<String>)
    ensures
        views(r@) == tag_list_of(s@),
{
    let v = chars_of(s);
    let ps = split_all_exec(&v, ',');
    let ghost pv = ps@.map_values(|f: Vec<char>| f@);
    let mut r: Vec<String> = Vec::new();
    let mut i: usize = 0;
    assert(pv.skip(0) =~= pv);
    assert(views(r@) + kept_trimmed(pv) =~= kept_trimmed(pv));
    while i < ps.len()
        invariant
            i <= ps.len(),
            pv == ps@.map_values(|f: Vec<char>| f@),
            pv == split_all(s@, ','),
            views(r@) + kept_trimmed(pv.skip(i as int)) == kept_trimmed(pv),
        decreases ps.len() - i,
    {
        let ghost t = pv.skip(i as int);
        assert(t.drop_first() =~= pv.skip(i + 1));
        assert(t[0] == ps@[i as int]@);
        let (lo, hi) = trim_bounds(&ps[i]);
        let ghost before = views(r@);
        if lo < hi {
            r.push(string_of_range(&ps[i], lo, hi));
            assert(views(r@) =~= before.push(trimmed(t[0])));
        }
        assert(views(r@) + kept_trimmed(pv.skip(i + 1)) =~= before + kept_trimmed(t));
        i += 1;
    }
    assert(kept_trimmed(pv.skip(i as int)) =~= Seq::<Seq<char>>::empty());
    assert(views(r@) =~= kept_trimmed(pv));
    r
}

/// The fields an activity edit may change; absent ones stay as they are.
#[derive(Debug, Clone)]
pub struct ActivityEdit {
    pub date: Option<String>,
    pub time: Option<String>,
    pub rating: Option<i64>,
    pub difficulty: Option<i64>,
    pub notes: Option<String>,
    /// New tags, comma-separated; replaces the existing ones.
    pub tags: Option<String>,
    pub topic: Option<String>,
    pub lc_difficulty: Option<String>,
}

/// The activity fields to store after an edit.
#[derive(Debug, Clone)]
pub struct ActivityUpdate {
    pub date: String,
    pub time: Option<String>,
    pub rating: Option<i64>,
    pub difficulty: Option<i64>,
    pub lc_difficulty: Option<String>,
    pub topic: Option<String>,
    /// JSON array of tags.
    pub tags: Option<String>,
    pub notes: Option<String>,
}

/// The given value, else the existing one.
pub open spec fn or_keep(given: Option<String>, existing: Option<String>) -> Option<Seq<char>> {
    match given {
        Some(x) => Some(x@),
        None => opt_view(existing),
    }
}

fn or_keep_exec(given: Option<String>, existing: &Option<String>) -> (r: Option<String>)
    ensures
        opt_view(r) == or_keep(given, *existing),
{
    match given {
        Some(x) => Some(x),
        None => existing.clone(),
    }
}

/// Merges an edit into an existing activity: every field given replaces the
/// stored one, every other field stays as it is. Tags given as a list are
/// stored as a JSON array that reads back as that list (no tags when the
/// list is empty).
pub fn merge_activity_edit(existing: &Activity, edit: ActivityEdit) -> (u: ActivityUpdate)
    ensures
        u.date@ == (match edit.date {
            Some(x) => x@,
            None => existing.date@,
        }),
        opt_view(u.time) == or_keep(edit.time, existing.time),
        u.rating == (match edit.rating {
            Some(x) => Some(x),
            None => existing.rating,
        }),
        u.difficulty == (match edit.difficulty {
            Some(x) => Some(x),
            None => existing.difficulty,
        }),
        opt_view(u.notes) == or_keep(edit.notes, existing.notes),
        opt_view(u.topic) == or_keep(edit.topic, existing.topic),
        opt_view(u.lc_difficulty) == or_keep(edit.lc_difficulty, existing.lc_difficulty),
        match edit.tags {
            None => opt_view(u.tags) == opt_view(existing.tags),
            Some(t) => {
                let l = tag_list_of(t@);
                &&& l.len() == 0 ==> u.tags is None
                &&& l.len() > 0 ==> (u.tags matches Some(j) && j@ == json_text_of_list(l))
                &&& tags_of_field(opt_view(u.tags)) == l
            },
        },
{
    let new_tags = match edit.tags {
        Some(t) => {
            let list = split_tag_list(t.as_str());
            let j = tags_json(&list);
            assert(views(list@).len() == 0 ==> tags_of_field(opt_view(j)) =~= views(list@));
            j
        },
        None => existing.tags.clone(),
    };
    let date = match edit.date {
        Some(x) => x,
        None => existing.date.clone(),
    };
    ActivityUpdate {
        date,
        time: or_keep_exec(edit.time, &existing.time),
        rating: match edit.rating {
            Some(x) => Some(x),
            None => existing.rating,
        },
        difficulty: match edit.difficulty {
            Some(x) => Some(x),
            None => existing.difficulty,
        },
        lc_difficulty: or_keep_exec(edit.lc_difficulty, &existing.lc_difficulty),
        topic: or_keep_exec(edit.topic, &existing.topic),
        tags: new_tags,
        notes: or_keep_exec(edit.notes, &existing.notes),
    }
}

/// The note fields to store after an edit.
#[derive(Debug, Clone)]
pub struct NoteUpdate {
    pub text: String,
    pub date: String,
    pub time: Option<String>,
}

/// Merges an edit into an existing note: every field given replaces the
/// stored one, every other field stays as it is.
pub fn merge_note_edit(
    existing: &Note,
    text: Option<String>,
    date: Option<String>,
    time: Option<String>,
) -> (u: NoteUpdate)
    ensures
        u.text@ == (match text {
            Some(x) => x@,
            None => existing.text@,
        }),
        u.date@ == (match date {
            Some(x) => x@,
            None => existing.date@,
        }),
        opt_view(u.time) == or_keep(time, existing.time),
{
    let text = match text {
        Some(x) => x,
        None => existing.text.clone(),
    };
    let date = match date {
        Some(x) => x,
        None => existing.date.clone(),
    };
    NoteUpdate { text, date, time: or_keep_exec(time, &existing.time) }
}

} // verus!
