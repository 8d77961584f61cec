//! Logging a Codeforces problem: the words after the rating and difficulty
//! (tags, a quoted note, date and time flags) and what a log request
//! becomes.

use vstd::prelude::*;
use crate::json::{json_list_of_text, json_text_of_list, tags_json};
use crate::text::{chars_of, chars_eq, contains_char, has_char, opt_view, starts_with, string_of_range, views};

verus! {

/// What the words after the rating and difficulty hold.
pub struct CfRestFields {
    pub tags: Seq<Seq<char>>,
    pub notes: Option<Seq<char>>,
    pub date: Option<Seq<char>>,
    pub time: Option<Seq<char>>,
}

/// Whether `t` starts with `p`.
pub open spec fn has_prefix(t: Seq<char>, p: Seq<char>) -> bool {
    p.len() <= t.len() && t.take(p.len() as int) == p
}

/// Reads the words `ts` on top of what `acc` holds: `--date`/`-d` and
/// `--time`/`-t` take the next word (none when there is none), `--date=` and
/// `--time=` carry their value, a word with a space is the note, any other
/// word is a tag. A later date, time or note replaces an earlier one.
pub open spec fn scan_rest(ts: Seq<Seq<char>>, acc: CfRestFields) -> CfRestFields
    decreases ts.len(),
{
    if ts.len() == 0 {
        acc
    } else {
        let t = ts[0];
        let next = if ts.len() > 1 {
            Some(ts[1])
        } else {
            None
        };
        let after_pair = if ts.len() > 1 {
            ts.skip(2)
        } else {
            Seq::empty()
        };
        if t == "--date"@ || t == "-d"@ {
            scan_rest(
                after_pair,
                CfRestFields { tags: acc.tags, notes: acc.notes, date: next, time: acc.time },
            )
        } else if t == "--time"@ || t == "-t"@ {
            scan_rest(
                after_pair,
                CfRestFields { tags: acc.tags, notes: acc.notes, date: acc.date, time: next },
            )
        } else if has_prefix(t, "--date="@) {
            scan_rest(
                ts.drop_first(),
                CfRestFields {
                    tags: acc.tags,
                    notes: acc.notes,
                    date: Some(t.skip("--date="@.len() as int)),
                    time: acc.time,
                },
            )
        } else if has_prefix(t, "--time="@) {
            scan_rest(
                ts.drop_first(),
                CfRestFields {
                    tags: acc.tags,
                    notes: acc.notes,
                    date: acc.date,
                    time: Some(t.skip("--time="@.len() as int)),
                },
            )
        } else if has_char(t, ' ') {
            scan_rest(
                ts.drop_first(),
                CfRestFields { tags: acc.tags, notes: Some(t), date: acc.date, time: acc.time },
            )
        } else {
            scan_rest(
                ts.drop_first(),
                CfRestFields { tags: acc.tags.push(t), notes: acc.notes, date: acc.date, time: acc.time },
            )
        }
    }
}

/// What the words after the rating and difficulty hold.
pub open spec fn cf_rest_of(ts: Seq<Seq<char>>) -> CfRestFields {
    scan_rest(ts, CfRestFields { tags: Seq::empty(), notes: None, date: None, time: None })
}

/// The words after the rating and difficulty, read.
#[derive(Debug, Clone)]
pub struct CfRest {
    pub tags: Vec<String>,
    pub notes: Option<String>,
    pub date: Option<String>,
    pub time: Option<String>,
}

impl View for CfRest {
    type V = CfRestFields;

    open spec fn view(&self) -> CfRestFields {
        CfRestFields {
            tags: views(self.tags@),
            notes: opt_view(self.notes),
            date: opt_view(self.date),
            time: opt_view(self.time),
        }
    }
}

fn clone_opt(o: Option<&String>) -> (r: Option<String>)
    ensures
        opt_view(r) == match o {
            Some(s) => Some(s@),
            None => None,
        },
{
    match o {
        Some(s) => Some(s.clone()),
        None => None,
    }
}

/// Reads the words after the rating and difficulty (see `scan_rest`).
pub fn parse_cf_rest(rest: &Vec<String>) -> (r: CfRest)
    ensures
        r@ == cf_rest_of(views(rest@)),
{
    let ghost ts = views(rest@);
    let long_date = chars_of("--date");
    let short_date = chars_of("-d");
    let long_time = chars_of("--time");
    let short_time = chars_of("-t");
    let date_eq = chars_of("--date=");
    let time_eq = chars_of("--time=");
    let mut r = CfRest { tags: Vec::new(), notes: None, date: None, time: None };
    let mut i: usize = 0;
    assert(ts.skip(0) =~= ts);
    assert(r@ == CfRestFields { tags: Seq::empty(), notes: None, date: None, time: None }) by {
        assert(views(r.tags@) =~= Seq::<Seq<char>>::empty());
    }
    while i < rest.len()
        invariant
            i <= rest.len(),
            ts == views(rest@),
            long_date@ == "--date"@,
            short_date@ == "-d"@,
            long_time@ == "--time"@,
            short_time@ == "-t"@,
            date_eq@ == "--date="@,
            time_eq@ == "--time="@,
            scan_rest(ts.skip(i as int), r@) == cf_rest_of(ts),
        decreases rest.len() - i,
    {
        let ghost t = ts.skip(i as int);
        assert(t[0] == rest@[i as int]@);
        assert(i + 1 < rest.len() ==> t[1] == rest@[i + 1]@);
        let v = chars_of(rest[i].as_str());
        if chars_eq(&v, &long_date) || chars_eq(&v, &short_date) {
            let next = clone_opt(rest.get(i + 1));
            if i + 1 < rest.len() {
                assert(t[1] == rest@[i + 1]@);
                assert(t.skip(2) =~= ts.skip(i + 2));
            } else {
                assert(ts.skip(rest.len() as int) =~= Seq::<Seq<char>>::empty());
            }
            r.date = next;
            i = if i + 1 < rest.len() { i + 2 } else { rest.len() };
        } else if chars_eq(&v, &long_time) || chars_eq(&v, &short_time) {
            let next = clone_opt(rest.get(i + 1));
            if i + 1 < rest.len() {
                assert(t[1] == rest@[i + 1]@);
                assert(t.skip(2) =~= ts.skip(i + 2));
            } else {
                assert(ts.skip(rest.len() as int) =~= Seq::<Seq<char>>::empty());
            }
            r.time = next;
            i = if i + 1 < rest.len() { i + 2 } else { rest.len() };
        } else if starts_with(&v, &date_eq) {
            assert(t.drop_first() =~= ts.skip(i + 1));
            r.date = Some(string_of_range(&v, date_eq.len(), v.len()));
            assert(v@.subrange(date_eq@.len() as int, v@.len() as int) =~= v@.skip(date_eq@.len() as int));
            i += 1;
        } else if starts_with(&v, &time_eq) {
            assert(t.drop_first() =~= ts.skip(i + 1));
            r.time = Some(string_of_range(&v, time_eq.len(), v.len()));
            assert(v@.subrange(time_eq@.len() as int, v@.len() as int) =~= v@.skip(time_eq@.len() as int));
            i += 1;
        } else if contains_char(&v, ' ') {
            assert(t.drop_first() =~= ts.skip(i + 1));
            r.notes = Some(rest[i].clone());
            i += 1;
        } else {
            assert(t.drop_first() =~= ts.skip(i + 1));
            let ghost before = views(r.tags@);
            r.tags.push(rest[i].clone());
            assert(views(r.tags@) =~= before.push(rest@[i as int]@));
            i += 1;
        }
    }
    assert(ts.skip(i as int) =~= Seq::<Seq<char>>::empty());
    r
}

/// A Codeforces entry ready to be stored.
#[derive(Debug, Clone)]
pub struct CfEntry {
    pub rating: i64,
    pub difficulty: i64,
    pub tags: Vec<String>,
    pub notes: Option<String>,
    /// The tags as a JSON array, or `None` when there are none.
    pub tags_json: Option<String>,
    pub date: String,
    pub time: String,
}

/// What a Codeforces log request comes to.
#[derive(Debug, Clone)]
pub enum CfOutcome {
    /// No rating was given.
    MissingRating,
    /// A rating but no difficulty was given.
    MissingDifficulty(i64),
    /// The difficulty is not in `1..=5`.
    DifficultyOutOfRange(i64),
    /// The entry to store.
    Log(CfEntry),
}

/// The date or time of an entry: the flag given to the command, else the one
/// found among the words, else the current one.
pub open spec fn chosen(given: Option<String>, found: Option<Seq<char>>, current: Seq<char>) -> Seq<char> {
    match given {
        Some(x) => x@,
        None => match found {
            Some(y) => y,
            None => current,
        },
    }
}

/// Decides a Codeforces log request. `today` and `now` stand for the
/// current date and time.
pub fn plan_cf(
    rating: Option<i64>,
    difficulty: Option<i64>,
    rest: &Vec<String>,
    date: Option<String>,
    time: Option<String>,
    today: String,
    now: String,
) -> (r: CfOutcome)
    ensures
        match rating {
            None => r is MissingRating,
            Some(rt) => match difficulty {
                None => r matches CfOutcome::MissingDifficulty(x) && x == rt,
                Some(d) => if !(1 <= d <= 5) {
                    r matches CfOutcome::DifficultyOutOfRange(x) && x == d
                } else {
                    let p = cf_rest_of(views(rest@));
                    match r {
                        CfOutcome::Log(e) => {
                            &&& e.rating == rt
                            &&& e.difficulty == d
                            &&& views(e.tags@) == p.tags
                            &&& opt_view(e.notes) == p.notes
                            &&& e.date@ == chosen(date, p.date, today@)
                            &&& e.time@ == chosen(time, p.time, now@)
                            &&& p.tags.len() == 0 ==> e.tags_json is None
                            &&& p.tags.len() > 0 ==> (e.tags_json matches Some(j) && j@
                                == json_text_of_list(p.tags) && json_list_of_text(j@) == Some(
                                p.tags,
                            ))
                        },
                        _ => false,
                    }
                },
            },
        },
{
    let rt = match rating {
        Some(x) => x,
        None => return CfOutcome::MissingRating,
    };
    let d = match difficulty {
        Some(x) => x,
        None => return CfOutcome::MissingDifficulty(rt),
    };
    if !(1 <= d && d <= 5) {
        return CfOutcome::DifficultyOutOfRange(d);
    }
    let p = parse_cf_rest(rest);
    let tags_json = tags_json(&p.tags);
    let date = match date {
        Some(x) => x,
        None => match p.date {
            Some(y) => y,
            None => today,
        },
    };
    let time = match time {
        Some(x) => x,
        None => match p.time {
            Some(y) => y,
            None => now,
        },
    };
    CfOutcome::Log(
        CfEntry { rating: rt, difficulty: d, tags: p.tags, notes: p.notes, tags_json, date, time },
    )
}

/// Whether `t` is a flag that takes the next word as its value.
pub open spec fn is_value_flag(t: Seq<char>) -> bool {
    t == "--date"@ || t == "-d"@ || t == "--time"@ || t == "-t"@
}

/// The words `w` are read on their own: no flag among them takes its value
/// from beyond their end.
pub open spec fn reads_whole(w: Seq<Seq<char>>) -> bool
    decreases w.len(),
{
    if w.len() == 0 {
        true
    } else if is_value_flag(w[0]) {
        w.len() >= 2 && reads_whole(w.skip(2))
    } else {
        reads_whole(w.drop_first())
    }
}

/// No word of `v` sets the time.
pub open spec fn no_time_flag(v: Seq<Seq<char>>) -> bool {
    forall|i: int|
        0 <= i < v.len() ==> #[trigger] v[i] != "--time"@ && v[i] != "-t"@ && !has_prefix(
            v[i],
            "--time="@,
        )
}

/// No word of `v` sets the date.
pub open spec fn no_date_flag(v: Seq<Seq<char>>) -> bool {
    forall|i: int|
        0 <= i < v.len() ==> #[trigger] v[i] != "--date"@ && v[i] != "-d"@ && !has_prefix(
            v[i],
            "--date="@,
        )
}

/// A plain word: no flag, no value-carrying prefix, no space.
pub open spec fn is_plain_word(t: Seq<char>) -> bool {
    &&& !is_value_flag(t)
    &&& !has_prefix(t, "--date="@)
    &&& !has_prefix(t, "--time="@)
    &&& !has_char(t, ' ')
}

proof fn lemma_flag_words()
    ensures
        "--date"@.len() == 6,
        "--time"@.len() == 6,
        "-d"@.len() == 2,
        "-t"@.len() == 2,
        "--date="@.len() == 7,
        "--time="@.len() == 7,
        "--time"@ != "--date"@,
        "-t"@ != "-d"@,
        "--time"@[2] == 't',
        "-t"@[1] == 't',
        "--date"@[2] == 'd',
        "-d"@[1] == 'd',
        "--date="@[2] == 'd',
        "--time="@[2] == 't',
        !has_char("--date"@, ' ') && !has_char("--time"@, ' ') && !has_char("-d"@, ' ')
            && !has_char("-t"@, ' '),
{
    reveal_strlit("--date");
    reveal_strlit("--time");
    reveal_strlit("-d");
    reveal_strlit("-t");
    reveal_strlit("--date=");
    reveal_strlit("--time=");
    assert("--time"@[2] != "--date"@[2]);
    assert("-t"@[1] != "-d"@[1]);
}

/// Reading words read whole, then more words, is reading the first and
/// going on with the rest.
proof fn lemma_scan_concat(w: Seq<Seq<char>>, u: Seq<Seq<char>>, acc: CfRestFields)
    requires
        reads_whole(w),
    ensures
        scan_rest(w + u, acc) == scan_rest(u, scan_rest(w, acc)),
    decreases w.len(),
{
    if w.len() == 0 {
        assert(w + u =~= u);
    } else {
        let wu = w + u;
        assert(wu[0] == w[0]);
        if is_value_flag(w[0]) {
            assert(wu[1] == w[1]);
            assert(wu.skip(2) =~= w.skip(2) + u);
            let t = w[0];
            let next = Some(w[1]);
            let a2 = if t == "--date"@ || t == "-d"@ {
                CfRestFields { tags: acc.tags, notes: acc.notes, date: next, time: acc.time }
            } else {
                CfRestFields { tags: acc.tags, notes: acc.notes, date: acc.date, time: next }
            };
            assert(scan_rest(wu, acc) == scan_rest(w.skip(2) + u, a2));
            assert(scan_rest(w, acc) == scan_rest(w.skip(2), a2));
            lemma_scan_concat(w.skip(2), u, a2);
        } else {
            assert(wu.drop_first() =~= w.drop_first() + u);
            lemma_scan_concat_step(w, u, acc);
        }
    }
}

proof fn lemma_scan_concat_step(w: Seq<Seq<char>>, u: Seq<Seq<char>>, acc: CfRestFields)
    requires
        w.len() > 0,
        !is_value_flag(w[0]),
        reads_whole(w),
        (w + u).drop_first() == w.drop_first() + u,
        (w + u)[0] == w[0],
    ensures
        scan_rest(w + u, acc) == scan_rest(u, scan_rest(w, acc)),
    decreases w.len(), 0int,
{
    let t = w[0];
    let a2 = if has_prefix(t, "--date="@) {
        CfRestFields {
            tags: acc.tags,
            notes: acc.notes,
            date: Some(t.skip("--date="@.len() as int)),
            time: acc.time,
        }
    } else if has_prefix(t, "--time="@) {
        CfRestFields {
            tags: acc.tags,
            notes: acc.notes,
            date: acc.date,
            time: Some(t.skip("--time="@.len() as int)),
        }
    } else if has_char(t, ' ') {
        CfRestFields { tags: acc.tags, notes: Some(t), date: acc.date, time: acc.time }
    } else {
        CfRestFields { tags: acc.tags.push(t), notes: acc.notes, date: acc.date, time: acc.time }
    };
    assert(scan_rest(w + u, acc) == scan_rest(w.drop_first() + u, a2));
    assert(scan_rest(w, acc) == scan_rest(w.drop_first(), a2));
    lemma_scan_concat(w.drop_first(), u, a2);
}

/// Each field read depends only on the same field before the reading.
proof fn lemma_scan_fields(v: Seq<Seq<char>>, a: CfRestFields, b: CfRestFields)
    ensures
        a.tags == b.tags ==> scan_rest(v, a).tags == scan_rest(v, b).tags,
        a.notes == b.notes ==> scan_rest(v, a).notes == scan_rest(v, b).notes,
        a.date == b.date ==> scan_rest(v, a).date == scan_rest(v, b).date,
        a.time == b.time ==> scan_rest(v, a).time == scan_rest(v, b).time,
    decreases v.len(),
{
    if v.len() > 0 {
        let t = v[0];
        let next = if v.len() > 1 {
            Some(v[1])
        } else {
            None
        };
        let rest2 = if v.len() > 1 {
            v.skip(2)
        } else {
            Seq::empty()
        };
        if t == "--date"@ || t == "-d"@ {
            lemma_scan_fields(
                rest2,
                CfRestFields { tags: a.tags, notes: a.notes, date: next, time: a.time },
                CfRestFields { tags: b.tags, notes: b.notes, date: next, time: b.time },
            );
        } else if t == "--time"@ || t == "-t"@ {
            lemma_scan_fields(
                rest2,
                CfRestFields { tags: a.tags, notes: a.notes, date: a.date, time: next },
                CfRestFields { tags: b.tags, notes: b.notes, date: b.date, time: next },
            );
        } else if has_prefix(t, "--date="@) {
            let d = Some(t.skip("--date="@.len() as int));
            lemma_scan_fields(
                v.drop_first(),
                CfRestFields { tags: a.tags, notes: a.notes, date: d, time: a.time },
                CfRestFields { tags: b.tags, notes: b.notes, date: d, time: b.time },
            );
        } else if has_prefix(t, "--time="@) {
            let x = Some(t.skip("--time="@.len() as int));
            lemma_scan_fields(
                v.drop_first(),
                CfRestFields { tags: a.tags, notes: a.notes, date: a.date, time: x },
                CfRestFields { tags: b.tags, notes: b.notes, date: b.date, time: x },
            );
        } else if has_char(t, ' ') {
            lemma_scan_fields(
                v.drop_first(),
                CfRestFields { tags: a.tags, notes: Some(t), date: a.date, time: a.time },
                CfRestFields { tags: b.tags, notes: Some(t), date: b.date, time: b.time },
            );
        } else {
            lemma_scan_fields(
                v.drop_first(),
                CfRestFields { tags: a.tags.push(t), notes: a.notes, date: a.date, time: a.time },
                CfRestFields { tags: b.tags.push(t), notes: b.notes, date: b.date, time: b.time },
            );
        }
    }
}

/// Words that set no time leave the time as it was.
proof fn lemma_keeps_time(v: Seq<Seq<char>>, a: CfRestFields)
    requires
        no_time_flag(v),
    ensures
        scan_rest(v, a).time == a.time,
    decreases v.len(),
{
    if v.len() > 0 {
        let t = v[0];
        assert(t != "--time"@ && t != "-t"@ && !has_prefix(t, "--time="@));
        if v.len() > 1 {
            assert forall|i: int| 0 <= i < v.skip(2).len() implies #[trigger] v.skip(2)[i]
                != "--time"@ && v.skip(2)[i] != "-t"@ && !has_prefix(v.skip(2)[i], "--time="@) by {
                assert(v.skip(2)[i] == v[i + 2]);
            }
        }
        assert forall|i: int| 0 <= i < v.drop_first().len() implies #[trigger] v.drop_first()[i]
            != "--time"@ && v.drop_first()[i] != "-t"@ && !has_prefix(
            v.drop_first()[i],
            "--time="@,
        ) by {
            assert(v.drop_first()[i] == v[i + 1]);
        }
        let next = if v.len() > 1 {
            Some(v[1])
        } else {
            None
        };
        let rest2 = if v.len() > 1 {
            v.skip(2)
        } else {
            Seq::empty()
        };
        if t == "--date"@ || t == "-d"@ {
            lemma_keeps_time(
                rest2,
                CfRestFields { tags: a.tags, notes: a.notes, date: next, time: a.time },
            );
        } else if has_prefix(t, "--date="@) {
            lemma_keeps_time(
                v.drop_first(),
                CfRestFields {
                    tags: a.tags,
                    notes: a.notes,
                    date: Some(t.skip("--date="@.len() as int)),
                    time: a.time,
                },
            );
        } else if has_char(t, ' ') {
            lemma_keeps_time(
                v.drop_first(),
                CfRestFields { tags: a.tags, notes: Some(t), date: a.date, time: a.time },
            );
        } else {
            lemma_keeps_time(
                v.drop_first(),
                CfRestFields { tags: a.tags.push(t), notes: a.notes, date: a.date, time: a.time },
            );
        }
    }
}

/// Words that set no date leave the date as it was.
proof fn lemma_keeps_date(v: Seq<Seq<char>>, a: CfRestFields)
    requires
        no_date_flag(v),
    ensures
        scan_rest(v, a).date == a.date,
    decreases v.len(),
{
    if v.len() > 0 {
        let t = v[0];
        assert(t != "--date"@ && t != "-d"@ && !has_prefix(t, "--date="@));
        if v.len() > 1 {
            assert forall|i: int| 0 <= i < v.skip(2).len() implies #[trigger] v.skip(2)[i]
                != "--date"@ && v.skip(2)[i] != "-d"@ && !has_prefix(v.skip(2)[i], "--date="@) by {
                assert(v.skip(2)[i] == v[i + 2]);
            }
        }
        assert forall|i: int| 0 <= i < v.drop_first().len() implies #[trigger] v.drop_first()[i]
            != "--date"@ && v.drop_first()[i] != "-d"@ && !has_prefix(
            v.drop_first()[i],
            "--date="@,
        ) by {
            assert(v.drop_first()[i] == v[i + 1]);
        }
        let next = if v.len() > 1 {
            Some(v[1])
        } else {
            None
        };
        let rest2 = if v.len() > 1 {
            v.skip(2)
        } else {
            Seq::empty()
        };
        if t == "--time"@ || t == "-t"@ {
            lemma_keeps_date(
                rest2,
                CfRestFields { tags: a.tags, notes: a.notes, date: a.date, time: next },
            );
        } else if has_prefix(t, "--time="@) {
            lemma_keeps_date(
                v.drop_first(),
                CfRestFields {
                    tags: a.tags,
                    notes: a.notes,
                    date: a.date,
                    time: Some(t.skip("--time="@.len() as int)),
                },
            );
        } else if has_char(t, ' ') {
            lemma_keeps_date(
                v.drop_first(),
                CfRestFields { tags: a.tags, notes: Some(t), date: a.date, time: a.time },
            );
        } else {
            lemma_keeps_date(
                v.drop_first(),
                CfRestFields { tags: a.tags.push(t), notes: a.notes, date: a.date, time: a.time },
            );
        }
    }
}

/// `--time x` or `-t x` among the words sets the time to `x` unless a later
/// word sets it again, and takes `x` with it: the tags, the note and the date
/// are those of the words without the pair.
pub proof fn lemma_time_flag(w: Seq<Seq<char>>, f: Seq<char>, x: Seq<char>, v: Seq<Seq<char>>)
    requires
        reads_whole(w),
        f == "--time"@ || f == "-t"@,
    ensures
        no_time_flag(v) ==> cf_rest_of(w + seq![f, x] + v).time == Some(x),
        cf_rest_of(w + seq![f, x] + v).tags == cf_rest_of(w + v).tags,
        cf_rest_of(w + seq![f, x] + v).notes == cf_rest_of(w + v).notes,
        cf_rest_of(w + seq![f, x] + v).date == cf_rest_of(w + v).date,
{
    lemma_flag_words();
    let init = CfRestFields { tags: Seq::empty(), notes: None, date: None, time: None };
    let u = seq![f, x] + v;
    assert(w + seq![f, x] + v =~= w + u);
    lemma_scan_concat(w, u, init);
    lemma_scan_concat(w, v, init);
    let a = scan_rest(w, init);
    assert(u[0] == f && u[1] == x);
    assert(u.skip(2) =~= v);
    let b = CfRestFields { tags: a.tags, notes: a.notes, date: a.date, time: Some(x) };
    assert(f != "--date"@ && f != "-d"@);
    assert(scan_rest(u, a) == scan_rest(v, b));
    lemma_scan_fields(v, a, b);
    if no_time_flag(v) {
        lemma_keeps_time(v, b);
    }
}

/// `--date x` or `-d x` among the words sets the date to `x` unless a later
/// word sets it again, and takes `x` with it: the tags, the note and the time
/// are those of the words without the pair.
pub proof fn lemma_date_flag(w: Seq<Seq<char>>, f: Seq<char>, x: Seq<char>, v: Seq<Seq<char>>)
    requires
        reads_whole(w),
        f == "--date"@ || f == "-d"@,
    ensures
        no_date_flag(v) ==> cf_rest_of(w + seq![f, x] + v).date == Some(x),
        cf_rest_of(w + seq![f, x] + v).tags == cf_rest_of(w + v).tags,
        cf_rest_of(w + seq![f, x] + v).notes == cf_rest_of(w + v).notes,
        cf_rest_of(w + seq![f, x] + v).time == cf_rest_of(w + v).time,
{
    lemma_flag_words();
    let init = CfRestFields { tags: Seq::empty(), notes: None, date: None, time: None };
    let u = seq![f, x] + v;
    assert(w + seq![f, x] + v =~= w + u);
    lemma_scan_concat(w, u, init);
    lemma_scan_concat(w, v, init);
    let a = scan_rest(w, init);
    assert(u[0] == f && u[1] == x);
    assert(u.skip(2) =~= v);
    let b = CfRestFields { tags: a.tags, notes: a.notes, date: Some(x), time: a.time };
    assert(scan_rest(u, a) == scan_rest(v, b));
    lemma_scan_fields(v, a, b);
    if no_date_flag(v) {
        lemma_keeps_date(v, b);
    }
}

/// Words that are all plain are the tags, in order, with no note, date or
/// time.
pub proof fn lemma_plain_words_are_tags(v: Seq<Seq<char>>)
    requires
        forall|i: int| 0 <= i < v.len() ==> is_plain_word(#[trigger] v[i]),
    ensures
        cf_rest_of(v).tags == v,
        cf_rest_of(v).notes is None,
        cf_rest_of(v).date is None,
        cf_rest_of(v).time is None,
{
    lemma_plain_scan(v, CfRestFields { tags: Seq::empty(), notes: None, date: None, time: None });
    assert(Seq::<Seq<char>>::empty() + v =~= v);
}

proof fn lemma_plain_scan(v: Seq<Seq<char>>, a: CfRestFields)
    requires
        forall|i: int| 0 <= i < v.len() ==> is_plain_word(#[trigger] v[i]),
    ensures
        scan_rest(v, a) == (CfRestFields {
            tags: a.tags + v,
            notes: a.notes,
            date: a.date,
            time: a.time,
        }),
    decreases v.len(),
{
    if v.len() == 0 {
        assert(a.tags + v =~= a.tags);
    } else {
        let t = v[0];
        assert(is_plain_word(t));
        assert forall|i: int| 0 <= i < v.drop_first().len() implies is_plain_word(
            #[trigger] v.drop_first()[i],
        ) by {
            assert(v.drop_first()[i] == v[i + 1]);
        }
        let b = CfRestFields { tags: a.tags.push(t), notes: a.notes, date: a.date, time: a.time };
        lemma_plain_scan(v.drop_first(), b);
        assert(a.tags.push(t) + v.drop_first() =~= a.tags + v);
    }
}

/// Words with no space in them leave the note as it was.
proof fn lemma_keeps_notes(v: Seq<Seq<char>>, a: CfRestFields)
    requires
        forall|i: int| 0 <= i < v.len() ==> !has_char(#[trigger] v[i], ' '),
    ensures
        scan_rest(v, a).notes == a.notes,
    decreases v.len(),
{
    if v.len() > 0 {
        let t = v[0];
        assert(!has_char(t, ' '));
        if v.len() > 1 {
            assert forall|i: int| 0 <= i < v.skip(2).len() implies !has_char(
                #[trigger] v.skip(2)[i],
                ' ',
            ) by {
                assert(v.skip(2)[i] == v[i + 2]);
            }
        }
        assert forall|i: int| 0 <= i < v.drop_first().len() implies !has_char(
            #[trigger] v.drop_first()[i],
            ' ',
        ) by {
            assert(v.drop_first()[i] == v[i + 1]);
        }
        let next = if v.len() > 1 {
            Some(v[1])
        } else {
            None
        };
        let rest2 = if v.len() > 1 {
            v.skip(2)
        } else {
            Seq::empty()
        };
        if t == "--date"@ || t == "-d"@ {
            lemma_keeps_notes(
                rest2,
                CfRestFields { tags: a.tags, notes: a.notes, date: next, time: a.time },
            );
        } else if t == "--time"@ || t == "-t"@ {
            lemma_keeps_notes(
                rest2,
                CfRestFields { tags: a.tags, notes: a.notes, date: a.date, time: next },
            );
        } else if has_prefix(t, "--date="@) {
            lemma_keeps_notes(
                v.drop_first(),
                CfRestFields {
                    tags: a.tags,
                    notes: a.notes,
                    date: Some(t.skip("--date="@.len() as int)),
                    time: a.time,
                },
            );
        } else if has_prefix(t, "--time="@) {
            lemma_keeps_notes(
                v.drop_first(),
                CfRestFields {
                    tags: a.tags,
                    notes: a.notes,
                    date: a.date,
                    time: Some(t.skip("--time="@.len() as int)),
                },
            );
        } else {
            lemma_keeps_notes(
                v.drop_first(),
                CfRestFields { tags: a.tags.push(t), notes: a.notes, date: a.date, time: a.time },
            );
        }
    }
}

/// A word with a space in it (and no `--date=` or `--time=` before it) is
/// the note, unless a later word is a note again; it is not a tag, and the
/// tags, date and time are those of the words without it.
pub proof fn lemma_note_word(w: Seq<Seq<char>>, n: Seq<char>, v: Seq<Seq<char>>)
    requires
        reads_whole(w),
        has_char(n, ' '),
        !has_prefix(n, "--date="@),
        !has_prefix(n, "--time="@),
    ensures
        (forall|i: int| 0 <= i < v.len() ==> !has_char(#[trigger] v[i], ' ')) ==> cf_rest_of(
            w + seq![n] + v,
        ).notes == Some(n),
        cf_rest_of(w + seq![n] + v).tags == cf_rest_of(w + v).tags,
        cf_rest_of(w + seq![n] + v).date == cf_rest_of(w + v).date,
        cf_rest_of(w + seq![n] + v).time == cf_rest_of(w + v).time,
{
    lemma_flag_words();
    let init = CfRestFields { tags: Seq::empty(), notes: None, date: None, time: None };
    let u = seq![n] + v;
    assert(w + seq![n] + v =~= w + u);
    lemma_scan_concat(w, u, init);
    lemma_scan_concat(w, v, init);
    let a = scan_rest(w, init);
    assert(u[0] == n);
    assert(u.drop_first() =~= v);
    assert(n != "--date"@ && n != "-d"@ && n != "--time"@ && n != "-t"@);
    let b = CfRestFields { tags: a.tags, notes: Some(n), date: a.date, time: a.time };
    assert(scan_rest(u, a) == scan_rest(v, b));
    lemma_scan_fields(v, a, b);
    if forall|i: int| 0 <= i < v.len() ==> !has_char(#[trigger] v[i], ' ') {
        lemma_keeps_notes(v, b);
    }
}

/// The date and time of an entry: a flag given to the command wins over one
/// found among the words, which wins over the current one.
pub proof fn lemma_chosen(given: Option<String>, found: Option<Seq<char>>, current: Seq<char>)
    ensures
        given matches Some(x) ==> chosen(given, found, current) == x@,
        given is None ==> (found matches Some(y) ==> chosen(given, found, current) == y),
        given is None && found is None ==> chosen(given, found, current) == current,
{
}

} // verus!
