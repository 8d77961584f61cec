//! Backup checkpoints: each table written as a text file of pipe-separated
//! lines, and read back from such a file on restore.

use vstd::prelude::*;
use crate::fields::{
    lemma_escape_has_char, lemma_escape_last, lemma_escape_no_pipe, lemma_lines_cons,
    lemma_non_empty_field, lemma_record_line, lemma_trim_end_newlines_none, lemma_unescape_escape,
    escape_pipes, escape_pipes_exec, is_skipped_line, lines_exec, lines_of, non_empty, non_empty_spec,
    pipe_join, push_fields, split_fields, split_fields_exec, trim_end_newlines, trim_end_newlines_exec,
    unescape_pipes, unescape_pipes_exec,
};
use crate::num::{i64_text, int_text, parse_i64_chars, parse_i64_spec, is_digit};
use crate::text::{chars_of, has_char, is_ws, opt_view, trimmed, views};

verus! {

/// File name of the activities table in a checkpoint.
pub const ACTIVITIES_FILE: &'static str = "activities.txt";

/// File name of the notes table in a checkpoint.
pub const NOTES_FILE: &'static str = "notes.txt";

/// File name of the tasks table in a checkpoint.
pub const TASKS_FILE: &'static str = "tasks.txt";

/// One row of the activities table.
#[derive(Debug, Clone)]
pub struct ActivityRecord {
    pub id: i64,
    pub platform: String,
    pub date: String,
    pub time: Option<String>,
    pub difficulty: Option<i64>,
    pub rating: Option<i64>,
    pub lc_difficulty: Option<String>,
    pub topic: Option<String>,
    pub tags: Option<String>,
    pub notes: Option<String>,
}

/// What an activity row holds, as text.
pub struct ActivityFields {
    pub id: i64,
    pub platform: Seq<char>,
    pub date: Seq<char>,
    pub time: Option<Seq<char>>,
    pub difficulty: Option<i64>,
    pub rating: Option<i64>,
    pub lc_difficulty: Option<Seq<char>>,
    pub topic: Option<Seq<char>>,
    pub tags: Option<Seq<char>>,
    pub notes: Option<Seq<char>>,
}

impl View for ActivityRecord {
    type V = ActivityFields;

    open spec fn view(&self) -> ActivityFields {
        ActivityFields {
            id: self.id,
            platform: self.platform@,
            date: self.date@,
            time: opt_view(self.time),
            difficulty: self.difficulty,
            rating: self.rating,
            lc_difficulty: opt_view(self.lc_difficulty),
            topic: opt_view(self.topic),
            tags: opt_view(self.tags),
            notes: opt_view(self.notes),
        }
    }
}

/// The text of an optional field; empty when absent.
pub open spec fn opt_text(o: Option<Seq<char>>) -> Seq<char> {
    match o {
        Some(s) => s,
        None => Seq::empty(),
    }
}

/// The decimal text of an optional number; empty when absent.
pub open spec fn opt_int_text(o: Option<i64>) -> Seq<char> {
    match o {
        Some(n) => int_text(n as int),
        None => Seq::empty(),
    }
}

/// The number read from a field, or `default` where it is not one.
pub open spec fn int_or(s: Seq<char>, default: i64) -> i64 {
    match parse_i64_spec(s) {
        Some(v) => v,
        None => default,
    }
}

/// The fields of an activity line.
pub open spec fn activity_fields(a: ActivityFields) -> Seq<Seq<char>> {
    seq![
        int_text(a.id as int),
        a.platform,
        a.date,
        opt_text(a.time),
        opt_int_text(a.difficulty),
        opt_int_text(a.rating),
        opt_text(a.lc_difficulty),
        opt_text(a.topic),
        escape_pipes(opt_text(a.tags)),
        escape_pipes(opt_text(a.notes)),
    ]
}

/// The lines written for activity rows, in order.
pub open spec fn activity_lines(rows: Seq<ActivityFields>) -> Seq<char>
    decreases rows.len(),
{
    if rows.len() == 0 {
        Seq::empty()
    } else {
        pipe_join(activity_fields(rows[0])) + seq!['\n'] + activity_lines(rows.drop_first())
    }
}

/// The activities backup file.
pub open spec fn activities_backup(rows: Seq<ActivityFields>, timestamp: Seq<char>) -> Seq<char> {
    "# Progit Activities Backup \u{2014} "@ + timestamp + seq!['\n']
        + "# Fields: id|platform|date|time|difficulty|rating|lc_difficulty|topic|tags|notes"@
        + seq!['\n'] + activity_lines(rows)
}

/// The activity that a backup line holds; `None` for comments, blank lines
/// and lines with fewer than ten fields.
pub open spec fn activity_of_line(l: Seq<char>) -> Option<ActivityFields> {
    if is_skipped_line(l) {
        None
    } else {
        let p = split_fields(l, 10);
        if p.len() < 10 {
            None
        } else {
            Some(
                ActivityFields {
                    id: int_or(p[0], 0),
                    platform: p[1],
                    date: p[2],
                    time: non_empty_spec(p[3]),
                    difficulty: parse_i64_spec(p[4]),
                    rating: parse_i64_spec(p[5]),
                    lc_difficulty: non_empty_spec(p[6]),
                    topic: non_empty_spec(unescape_pipes(p[7])),
                    tags: non_empty_spec(unescape_pipes(p[8])),
                    notes: non_empty_spec(unescape_pipes(trim_end_newlines(p[9]))),
                },
            )
        }
    }
}

/// The activities that the lines `ls` hold, in order.
pub open spec fn activities_of_lines(ls: Seq<Seq<char>>) -> Seq<ActivityFields>
    decreases ls.len(),
{
    if ls.len() == 0 {
        Seq::empty()
    } else {
        match activity_of_line(ls[0]) {
            Some(a) => seq![a] + activities_of_lines(ls.drop_first()),
            None => activities_of_lines(ls.drop_first()),
        }
    }
}

fn opt_string(o: &Option<String>) -> (r: String)
    ensures
        r@ == opt_text(opt_view(*o)),
{
    match o {
        Some(s) => s.clone(),
        None => String::new(),
    }
}

fn opt_i64_string(o: Option<i64>) -> (r: String)
    ensures
        r@ == opt_int_text(o),
{
    match o {
        Some(n) => i64_text(n),
        None => String::new(),
    }
}

/// Writes the activities backup file for `rows`.
pub fn dump_activities(rows: &Vec<ActivityRecord>, timestamp: &str) -> (out: String)
    ensures
        out@ == activities_backup(rows@.map_values(|r: ActivityRecord| r@), timestamp@),
{
    let ghost all = rows@.map_values(|r: ActivityRecord| r@);
    let mut out = String::new();
    out.append("# Progit Activities Backup \u{2014} ");
    out.append(timestamp);
    crate::text::push_char(&mut out, '\n');
    out.append("# Fields: id|platform|date|time|difficulty|rating|lc_difficulty|topic|tags|notes");
    crate::text::push_char(&mut out, '\n');
    let ghost head = out@;
    let mut i: usize = 0;
    assert(all.skip(0) =~= all);
    assert(out@ + activity_lines(all.skip(0)) == activities_backup(all, timestamp@));
    while i < rows.len()
        invariant
            i <= rows.len(),
            all == rows@.map_values(|r: ActivityRecord| r@),
            out@ + activity_lines(all.skip(i as int)) == activities_backup(all, timestamp@),
        decreases rows.len() - i,
    {
        let r = &rows[i];
        let mut fs: Vec<String> = Vec::new();
        fs.push(i64_text(r.id));
        fs.push(r.platform.clone());
        fs.push(r.date.clone());
        fs.push(opt_string(&r.time));
        fs.push(opt_i64_string(r.difficulty));
        fs.push(opt_i64_string(r.rating));
        fs.push(opt_string(&r.lc_difficulty));
        fs.push(opt_string(&r.topic));
        let tags = opt_string(&r.tags);
        fs.push(escape_pipes_exec(tags.as_str()));
        let notes = opt_string(&r.notes);
        fs.push(escape_pipes_exec(notes.as_str()));
        assert(views(fs@) =~= activity_fields(all[i as int]));
        let ghost before = out@;
        push_fields(&mut out, &fs);
        crate::text::push_char(&mut out, '\n');
        assert(all.skip(i as int).drop_first() =~= all.skip(i + 1));
        assert(activity_lines(all.skip(i as int)) == pipe_join(activity_fields(all[i as int])) + seq![
            '\n',
        ] + activity_lines(all.skip(i + 1)));
        assert(out@ + activity_lines(all.skip(i + 1)) =~= before + activity_lines(
            all.skip(i as int),
        ));
        i += 1;
    }
    assert(activity_lines(all.skip(i as int)) =~= Seq::<char>::empty());
    assert(out@ =~= activities_backup(all, timestamp@));
    out
}

fn int_or_exec(v: &Vec<char>, default: i64) -> (r: i64)
    ensures
        r == int_or(v@, default),
{
    match parse_i64_chars(v) {
        Some(n) => n,
        None => default,
    }
}

fn unescaped_non_empty(v: &Vec<char>) -> (r: Option<String>)
    ensures
        opt_view(r) == non_empty_spec(unescape_pipes(v@)),
{
    let u = unescape_pipes_exec(v);
    non_empty(&u)
}

/// Whether the line `v` is a comment or blank.
pub fn is_skipped_line_exec(v: &Vec<char>) -> (b: bool)
    ensures
        b == is_skipped_line(v@),
{
    if v.len() > 0 && v[0] == '#' {
        return true;
    }
    let (lo, hi) = crate::text::trim_bounds(v);
    lo == hi
}

/// The activity that one backup line holds.
pub fn activity_from_line(line: &Vec<char>) -> (r: Option<ActivityRecord>)
    ensures
        match r {
            Some(a) => activity_of_line(line@) == Some(a@),
            None => activity_of_line(line@) is None,
        },
{
    if is_skipped_line_exec(line) {
        return None;
    }
    let p = split_fields_exec(line, 10);
    let ghost pv = p@.map_values(|f: Vec<char>| f@);
    if p.len() < 10 {
        return None;
    }
    assert(pv[0] == p@[0]@ && pv[1] == p@[1]@ && pv[2] == p@[2]@ && pv[3] == p@[3]@ && pv[4]
        == p@[4]@ && pv[5] == p@[5]@ && pv[6] == p@[6]@ && pv[7] == p@[7]@ && pv[8] == p@[8]@
        && pv[9] == p@[9]@);
    let notes_raw = trim_end_newlines_exec(&p[9]);
    let a = ActivityRecord {
        id: int_or_exec(&p[0], 0),
        platform: crate::text::string_of(&p[1]),
        date: crate::text::string_of(&p[2]),
        time: non_empty(&p[3]),
        difficulty: parse_i64_chars(&p[4]),
        rating: parse_i64_chars(&p[5]),
        lc_difficulty: non_empty(&p[6]),
        topic: unescaped_non_empty(&p[7]),
        tags: unescaped_non_empty(&p[8]),
        notes: unescaped_non_empty(&notes_raw),
    };
    Some(a)
}

/// Reads the activities out of an activities backup file, in file order.
pub fn parse_activities_backup(text: &str) -> (r: Vec<ActivityRecord>)
    ensures
        r@.map_values(|a: ActivityRecord| a@) == activities_of_lines(lines_of(text@)),
{
    let v = chars_of(text);
    let ls = lines_exec(&v);
    let ghost lv = ls@.map_values(|f: Vec<char>| f@);
    let mut r: Vec<ActivityRecord> = Vec::new();
    let mut i: usize = 0;
    assert(lv.skip(0) =~= lv);
    assert(r@.map_values(|a: ActivityRecord| a@) + activities_of_lines(lv) =~= activities_of_lines(lv));
    while i < ls.len()
        invariant
            i <= ls.len(),
            lv == ls@.map_values(|f: Vec<char>| f@),
            lv == lines_of(text@),
            r@.map_values(|a: ActivityRecord| a@) + activities_of_lines(lv.skip(i as int))
                == activities_of_lines(lv),
        decreases ls.len() - i,
    {
        assert(lv.skip(i as int).drop_first() =~= lv.skip(i + 1));
        assert(lv.skip(i as int)[0] == ls@[i as int]@);
        let ghost before = r@.map_values(|a: ActivityRecord| a@);
        match activity_from_line(&ls[i]) {
            Some(a) => {
                r.push(a);
                assert(r@.map_values(|a: ActivityRecord| a@) =~= before.push(a@));
                assert(r@.map_values(|a: ActivityRecord| a@) + activities_of_lines(lv.skip(i + 1))
                    =~= before + activities_of_lines(lv.skip(i as int)));
            },
            None => {},
        }
        i += 1;
    }
    assert(activities_of_lines(lv.skip(i as int)) =~= Seq::<ActivityFields>::empty());
    assert(r@.map_values(|a: ActivityRecord| a@) =~= activities_of_lines(lv));
    r
}

/// A text field that a line can carry: no pipe, no newline.
pub open spec fn clean_field(s: Seq<char>) -> bool {
    !has_char(s, '|') && !has_char(s, '\n')
}

/// A text that a trimmed optional field gives back unchanged.
pub open spec fn trimmed_text(s: Seq<char>) -> bool {
    s.len() > 0 && trimmed(s) == s
}

/// An optional field that a line can carry and a restore gives back.
pub open spec fn clean_opt_field(o: Option<Seq<char>>) -> bool {
    o matches Some(s) ==> clean_field(s) && trimmed_text(s)
}

/// An activity that a backup line gives back unchanged: no newline anywhere,
/// no pipe but in the notes, optional texts non-empty and trimmed.
pub open spec fn restorable_activity(a: ActivityFields) -> bool {
    &&& clean_field(a.platform)
    &&& clean_field(a.date)
    &&& clean_opt_field(a.time)
    &&& clean_opt_field(a.lc_difficulty)
    &&& clean_opt_field(a.topic)
    &&& clean_opt_field(a.tags)
    &&& a.notes matches Some(s) ==> !has_char(s, '\n') && trimmed_text(s)
}

proof fn lemma_int_text_field(n: int)
    ensures
        int_text(n).len() > 0,
        clean_field(int_text(n)),
        int_text(n)[0] != '#',
        !is_ws(int_text(n)[0]),
{
    crate::num::lemma_int_text_chars(n);
    let t = int_text(n);
    if has_char(t, '|') {
        let i = choose|i: int| 0 <= i < t.len() && t[i] == '|';
        assert(is_digit(t[i]) || t[i] == '-');
    }
    if has_char(t, '\n') {
        let i = choose|i: int| 0 <= i < t.len() && t[i] == '\n';
        assert(is_digit(t[i]) || t[i] == '-');
    }
    assert(is_digit(t[0]) || t[0] == '-');
}

proof fn lemma_opt_int_field(o: Option<i64>)
    ensures
        clean_field(opt_int_text(o)),
        parse_i64_spec(opt_int_text(o)) == o,
{
    match o {
        Some(n) => {
            lemma_int_text_field(n as int);
            crate::num::lemma_parse_i64_text(n);
        },
        None => {},
    }
}

/// An optional field without pipes is unchanged by unescaping.
proof fn lemma_unescape_clean(s: Seq<char>)
    requires
        !has_char(s, '|'),
    ensures
        unescape_pipes(s) == s,
        escape_pipes(s) == s,
{
    lemma_escape_no_pipe(s);
    lemma_unescape_escape(s);
}

/// The last field of a line, escaped: no newline, and no carriage return at
/// its end, when the text is trimmed (or empty) and holds no newline.
proof fn lemma_last_field(o: Option<Seq<char>>)
    requires
        o matches Some(s) ==> !has_char(s, '\n') && trimmed_text(s),
    ensures
        !has_char(escape_pipes(opt_text(o)), '\n'),
        escape_pipes(opt_text(o)).len() == 0 || escape_pipes(opt_text(o)).last() != '\r',
        non_empty_spec(unescape_pipes(trim_end_newlines(escape_pipes(opt_text(o))))) == o,
{
    let t = opt_text(o);
    lemma_escape_has_char(t, '\n');
    lemma_trim_end_newlines_none(escape_pipes(t));
    lemma_unescape_escape(t);
    lemma_non_empty_field(o);
    match o {
        Some(s) => {
            crate::text::lemma_trimmed_ends(s);
            lemma_escape_last(s);
        },
        None => {
            assert(escape_pipes(t) =~= Seq::<char>::empty());
        },
    }
}

/// One activity line is read back as a line of its own holding that activity.
#[verifier::spinoff_prover]
#[verifier::rlimit(40)]
proof fn lemma_activity_line(a: ActivityFields, rest: Seq<char>)
    requires
        restorable_activity(a),
    ensures
        lines_of(pipe_join(activity_fields(a)) + seq!['\n'] + rest) == seq![
            pipe_join(activity_fields(a)),
        ] + lines_of(rest),
        activity_of_line(pipe_join(activity_fields(a))) == Some(a),
{
    let fs = activity_fields(a);
    lemma_int_text_field(a.id as int);
    crate::num::lemma_parse_i64_text(a.id);
    lemma_opt_int_field(a.difficulty);
    lemma_opt_int_field(a.rating);
    lemma_non_empty_field(a.time);
    lemma_non_empty_field(a.lc_difficulty);
    lemma_non_empty_field(a.topic);
    lemma_non_empty_field(a.tags);
    lemma_unescape_clean(opt_text(a.topic));
    lemma_unescape_clean(opt_text(a.tags));
    lemma_last_field(a.notes);
    assert(!has_char(opt_text(a.time), '|') && !has_char(opt_text(a.time), '\n'));
    assert(!has_char(opt_text(a.lc_difficulty), '|') && !has_char(opt_text(a.lc_difficulty), '\n'));
    assert(!has_char(opt_text(a.topic), '|') && !has_char(opt_text(a.topic), '\n'));
    assert(!has_char(opt_text(a.tags), '|') && !has_char(opt_text(a.tags), '\n'));
    assert forall|i: int| 0 <= i < fs.len() implies !has_char(#[trigger] fs[i], '\n') by {}
    assert forall|i: int| 0 <= i < fs.len() - 1 implies !has_char(#[trigger] fs[i], '|') by {}
    lemma_record_line(fs, rest);
    let p = split_fields(pipe_join(fs), 10);
    assert(p == fs);
    assert(activity_of_line(pipe_join(fs)) =~= Some(a));
}

proof fn lemma_activity_lines(rows: Seq<ActivityFields>)
    requires
        forall|i: int| 0 <= i < rows.len() ==> restorable_activity(#[trigger] rows[i]),
    ensures
        activities_of_lines(lines_of(activity_lines(rows))) == rows,
    decreases rows.len(),
{
    if rows.len() == 0 {
        assert(lines_of(activity_lines(rows)) =~= Seq::<Seq<char>>::empty());
        assert(activities_of_lines(Seq::<Seq<char>>::empty()) =~= rows);
    } else {
        let rest = rows.drop_first();
        assert forall|i: int| 0 <= i < rest.len() implies restorable_activity(#[trigger] rest[i]) by {
            assert(rest[i] == rows[i + 1]);
        }
        lemma_activity_lines(rest);
        assert(restorable_activity(rows[0]));
        lemma_activity_line(rows[0], activity_lines(rest));
        let line = pipe_join(activity_fields(rows[0]));
        let ls = seq![line] + lines_of(activity_lines(rest));
        assert(ls.drop_first() =~= lines_of(activity_lines(rest)));
        assert(activities_of_lines(ls) == seq![rows[0]] + activities_of_lines(ls.drop_first()));
        assert(activities_of_lines(ls) =~= rows);
    }
}

proof fn lemma_header_line(lit: &str, ts: Seq<char>)
    requires
        lit@.len() > 0,
        lit@[0] == '#',
        !has_char(lit@, '\n'),
        !has_char(ts, '\n'),
    ensures
        !has_char(lit@ + ts, '\n'),
        is_skipped_line(strip_cr_of(lit@ + ts)),
{
    let h = lit@ + ts;
    if has_char(h, '\n') {
        let i = choose|i: int| 0 <= i < h.len() && h[i] == '\n';
        if i < lit@.len() {
            assert(lit@[i] == '\n');
        } else {
            assert(ts[i - lit@.len()] == '\n');
        }
    }
    assert(strip_cr_of(h)[0] == '#') by {
        if lit@.len() == 1 && ts.len() == 0 {
            assert(h.last() == '#');
        }
    }
}

/// `strip_cr`, for use in this file.
pub open spec fn strip_cr_of(s: Seq<char>) -> Seq<char> {
    crate::fields::strip_cr(s)
}

/// The two comment lines that open a backup file are read back as two
/// lines that a restore passes over.
proof fn lemma_two_headers(lit1: &str, lit2: &str, ts: Seq<char>, body: Seq<char>)
    requires
        lit1@.len() > 0,
        lit1@[0] == '#',
        !has_char(lit1@, '\n'),
        lit2@.len() > 0,
        lit2@[0] == '#',
        !has_char(lit2@, '\n'),
        !has_char(ts, '\n'),
    ensures
        ({
            let ls = lines_of(lit1@ + ts + seq!['\n'] + lit2@ + seq!['\n'] + body);
            &&& ls.len() >= 2
            &&& is_skipped_line(ls[0])
            &&& is_skipped_line(ls[1])
            &&& ls.drop_first().drop_first() == lines_of(body)
        }),
{
    lemma_header_line(lit1, ts);
    lemma_header_line(lit2, Seq::empty());
    assert(lit2@ + Seq::<char>::empty() =~= lit2@);
    let h1 = lit1@ + ts;
    let h2 = lit2@;
    let text = lit1@ + ts + seq!['\n'] + lit2@ + seq!['\n'] + body;
    assert(text =~= h1 + seq!['\n'] + (h2 + seq!['\n'] + body));
    lemma_lines_cons(h1, h2 + seq!['\n'] + body);
    lemma_lines_cons(h2, body);
    let ls = lines_of(text);
    assert(ls =~= seq![strip_cr_of(h1), strip_cr_of(h2)] + lines_of(body));
    assert(ls.drop_first().drop_first() =~= lines_of(body));
}

/// A backup of activity rows is read back as the same rows, in order, for
/// every row that a line can carry unchanged (see `restorable_activity`) and
/// every timestamp without a newline.
pub proof fn lemma_activities_backup_restore(rows: Seq<ActivityFields>, timestamp: Seq<char>)
    requires
        forall|i: int| 0 <= i < rows.len() ==> restorable_activity(#[trigger] rows[i]),
        !has_char(timestamp, '\n'),
    ensures
        activities_of_lines(lines_of(activities_backup(rows, timestamp))) == rows,
{
    let lit1 = "# Progit Activities Backup \u{2014} ";
    let lit2 = "# Fields: id|platform|date|time|difficulty|rating|lc_difficulty|topic|tags|notes";
    reveal_strlit("# Progit Activities Backup \u{2014} ");
    reveal_strlit("# Fields: id|platform|date|time|difficulty|rating|lc_difficulty|topic|tags|notes");
    assert(!has_char(lit1@, '\n'));
    assert(!has_char(lit2@, '\n'));
    let body = activity_lines(rows);
    lemma_two_headers(lit1, lit2, timestamp, body);
    let ls = lines_of(activities_backup(rows, timestamp));
    assert(activities_of_lines(ls) == activities_of_lines(ls.drop_first()));
    assert(activities_of_lines(ls.drop_first()) == activities_of_lines(ls.drop_first().drop_first()));
    lemma_activity_lines(rows);
}

/// One row of the notes table.
#[derive(Debug, Clone)]
pub struct NoteRecord {
    pub id: i64,
    pub date: String,
    pub time: Option<String>,
    pub text: String,
}

/// What a note row holds, as text.
pub struct NoteFields {
    pub id: i64,
    pub date: Seq<char>,
    pub time: Option<Seq<char>>,
    pub text: Seq<char>,
}

impl View for NoteRecord {
    type V = NoteFields;

    open spec fn view(&self) -> NoteFields {
        NoteFields { id: self.id, date: self.date@, time: opt_view(self.time), text: self.text@ }
    }
}

/// The fields of a note line.
pub open spec fn note_fields(n: NoteFields) -> Seq<Seq<char>> {
    seq![int_text(n.id as int), n.date, opt_text(n.time), escape_pipes(n.text)]
}

/// The lines written for note rows, in order.
pub open spec fn note_lines(rows: Seq<NoteFields>) -> Seq<char>
    decreases rows.len(),
{
    if rows.len() == 0 {
        Seq::empty()
    } else {
        pipe_join(note_fields(rows[0])) + seq!['\n'] + note_lines(rows.drop_first())
    }
}

/// The notes backup file.
pub open spec fn notes_backup(rows: Seq<NoteFields>, timestamp: Seq<char>) -> Seq<char> {
    "# Progit Notes Backup \u{2014} "@ + timestamp + seq!['\n'] + "# Fields: id|date|time|text"@
        + seq!['\n'] + note_lines(rows)
}

/// The note that a backup line holds; `None` for comments, blank lines and
/// lines with fewer than four fields.
pub open spec fn note_of_line(l: Seq<char>) -> Option<NoteFields> {
    if is_skipped_line(l) {
        None
    } else {
        let p = split_fields(l, 4);
        if p.len() < 4 {
            None
        } else {
            Some(
                NoteFields {
                    id: int_or(p[0], 0),
                    date: p[1],
                    time: non_empty_spec(p[2]),
                    text: unescape_pipes(trim_end_newlines(p[3])),
                },
            )
        }
    }
}

/// The notes that the lines `ls` hold, in order.
pub open spec fn notes_of_lines(ls: Seq<Seq<char>>) -> Seq<NoteFields>
    decreases ls.len(),
{
    if ls.len() == 0 {
        Seq::empty()
    } else {
        match note_of_line(ls[0]) {
            Some(n) => seq![n] + notes_of_lines(ls.drop_first()),
            None => notes_of_lines(ls.drop_first()),
        }
    }
}

/// Writes the notes backup file for `rows`.
pub fn dump_notes(rows: &Vec<NoteRecord>, timestamp: &str) -> (out: String)
    ensures
        out@ == notes_backup(rows@.map_values(|r: NoteRecord| r@), timestamp@),
{
    let ghost all = rows@.map_values(|r: NoteRecord| r@);
    let mut out = String::new();
    out.append("# Progit Notes Backup \u{2014} ");
    out.append(timestamp);
    crate::text::push_char(&mut out, '\n');
    out.append("# Fields: id|date|time|text");
    crate::text::push_char(&mut out, '\n');
    let mut i: usize = 0;
    assert(all.skip(0) =~= all);
    assert(out@ + note_lines(all.skip(0)) == notes_backup(all, timestamp@));
    while i < rows.len()
        invariant
            i <= rows.len(),
            all == rows@.map_values(|r: NoteRecord| r@),
            out@ + note_lines(all.skip(i as int)) == notes_backup(all, timestamp@),
        decreases rows.len() - i,
    {
        let r = &rows[i];
        let mut fs: Vec<String> = Vec::new();
        fs.push(i64_text(r.id));
        fs.push(r.date.clone());
        fs.push(opt_string(&r.time));
        fs.push(escape_pipes_exec(r.text.as_str()));
        assert(views(fs@) =~= note_fields(all[i as int]));
        let ghost before = out@;
        push_fields(&mut out, &fs);
        crate::text::push_char(&mut out, '\n');
        assert(all.skip(i as int).drop_first() =~= all.skip(i + 1));
        assert(note_lines(all.skip(i as int)) == pipe_join(note_fields(all[i as int])) + seq!['\n']
            + note_lines(all.skip(i + 1)));
        assert(out@ + note_lines(all.skip(i + 1)) =~= before + note_lines(all.skip(i as int)));
        i += 1;
    }
    assert(note_lines(all.skip(i as int)) =~= Seq::<char>::empty());
    assert(out@ =~= notes_backup(all, timestamp@));
    out
}

/// The note that one backup line holds.
pub fn note_from_line(line: &Vec<char>) -> (r: Option<NoteRecord>)
    ensures
        match r {
            Some(n) => note_of_line(line@) == Some(n@),
            None => note_of_line(line@) is None,
        },
{
    if is_skipped_line_exec(line) {
        return None;
    }
    let p = split_fields_exec(line, 4);
    let ghost pv = p@.map_values(|f: Vec<char>| f@);
    if p.len() < 4 {
        return None;
    }
    assert(pv[0] == p@[0]@ && pv[1] == p@[1]@ && pv[2] == p@[2]@ && pv[3] == p@[3]@);
    let text_raw = trim_end_newlines_exec(&p[3]);
    let text = unescape_pipes_exec(&text_raw);
    let n = NoteRecord {
        id: int_or_exec(&p[0], 0),
        date: crate::text::string_of(&p[1]),
        time: non_empty(&p[2]),
        text: crate::text::string_of(&text),
    };
    Some(n)
}

/// Reads the notes out of a notes backup file, in file order.
pub fn parse_notes_backup(text: &str) -> (r: Vec<NoteRecord>)
    ensures
        r@.map_values(|n: NoteRecord| n@) == notes_of_lines(lines_of(text@)),
{
    let v = chars_of(text);
    let ls = lines_exec(&v);
    let ghost lv = ls@.map_values(|f: Vec<char>| f@);
    let mut r: Vec<NoteRecord> = Vec::new();
    let mut i: usize = 0;
    assert(lv.skip(0) =~= lv);
    assert(r@.map_values(|n: NoteRecord| n@) + notes_of_lines(lv) =~= notes_of_lines(lv));
    while i < ls.len()
        invariant
            i <= ls.len(),
            lv == ls@.map_values(|f: Vec<char>| f@),
            lv == lines_of(text@),
            r@.map_values(|n: NoteRecord| n@) + notes_of_lines(lv.skip(i as int)) == notes_of_lines(
                lv,
            ),
        decreases ls.len() - i,
    {
        assert(lv.skip(i as int).drop_first() =~= lv.skip(i + 1));
        assert(lv.skip(i as int)[0] == ls@[i as int]@);
        let ghost before = r@.map_values(|n: NoteRecord| n@);
        match note_from_line(&ls[i]) {
            Some(n) => {
                r.push(n);
                assert(r@.map_values(|n: NoteRecord| n@) =~= before.push(n@));
                assert(r@.map_values(|n: NoteRecord| n@) + notes_of_lines(lv.skip(i + 1)) =~= before
                    + notes_of_lines(lv.skip(i as int)));
            },
            None => {},
        }
        i += 1;
    }
    assert(notes_of_lines(lv.skip(i as int)) =~= Seq::<NoteFields>::empty());
    assert(r@.map_values(|n: NoteRecord| n@) =~= notes_of_lines(lv));
    r
}

/// A note that a backup line gives back unchanged: no pipe or newline in the
/// date, a non-empty trimmed time without pipe or newline, a text without
/// newline that does not end with a carriage return.
pub open spec fn restorable_note(n: NoteFields) -> bool {
    &&& clean_field(n.date)
    &&& clean_opt_field(n.time)
    &&& !has_char(n.text, '\n')
    &&& (n.text.len() == 0 || n.text.last() != '\r')
}

#[verifier::spinoff_prover]
#[verifier::rlimit(40)]
proof fn lemma_note_line(n: NoteFields, rest: Seq<char>)
    requires
        restorable_note(n),
    ensures
        lines_of(pipe_join(note_fields(n)) + seq!['\n'] + rest) == seq![pipe_join(note_fields(n))]
            + lines_of(rest),
        note_of_line(pipe_join(note_fields(n))) == Some(n),
{
    let fs = note_fields(n);
    lemma_int_text_field(n.id as int);
    crate::num::lemma_parse_i64_text(n.id);
    lemma_non_empty_field(n.time);
    lemma_escape_has_char(n.text, '\n');
    lemma_trim_end_newlines_none(escape_pipes(n.text));
    lemma_unescape_escape(n.text);
    if n.text.len() > 0 {
        lemma_escape_last(n.text);
    } else {
        assert(escape_pipes(n.text) =~= Seq::<char>::empty());
    }
    assert(!has_char(opt_text(n.time), '|') && !has_char(opt_text(n.time), '\n'));
    assert forall|i: int| 0 <= i < fs.len() implies !has_char(#[trigger] fs[i], '\n') by {}
    assert forall|i: int| 0 <= i < fs.len() - 1 implies !has_char(#[trigger] fs[i], '|') by {}
    lemma_record_line(fs, rest);
    assert(note_of_line(pipe_join(fs)) =~= Some(n));
}

proof fn lemma_note_lines(rows: Seq<NoteFields>)
    requires
        forall|i: int| 0 <= i < rows.len() ==> restorable_note(#[trigger] rows[i]),
    ensures
        notes_of_lines(lines_of(note_lines(rows))) == rows,
    decreases rows.len(),
{
    if rows.len() == 0 {
        assert(lines_of(note_lines(rows)) =~= Seq::<Seq<char>>::empty());
        assert(notes_of_lines(Seq::<Seq<char>>::empty()) =~= rows);
    } else {
        let rest = rows.drop_first();
        assert forall|i: int| 0 <= i < rest.len() implies restorable_note(#[trigger] rest[i]) by {
            assert(rest[i] == rows[i + 1]);
        }
        lemma_note_lines(rest);
        assert(restorable_note(rows[0]));
        lemma_note_line(rows[0], note_lines(rest));
        let line = pipe_join(note_fields(rows[0]));
        let ls = seq![line] + lines_of(note_lines(rest));
        assert(ls.drop_first() =~= lines_of(note_lines(rest)));
        assert(notes_of_lines(ls) == seq![rows[0]] + notes_of_lines(ls.drop_first()));
        assert(notes_of_lines(ls) =~= rows);
    }
}

/// A backup of note rows is read back as the same rows, in order, for every
/// row that a line can carry unchanged (see `restorable_note`) and every
/// timestamp without a newline.
pub proof fn lemma_notes_backup_restore(rows: Seq<NoteFields>, timestamp: Seq<char>)
    requires
        forall|i: int| 0 <= i < rows.len() ==> restorable_note(#[trigger] rows[i]),
        !has_char(timestamp, '\n'),
    ensures
        notes_of_lines(lines_of(notes_backup(rows, timestamp))) == rows,
{
    let lit1 = "# Progit Notes Backup \u{2014} ";
    let lit2 = "# Fields: id|date|time|text";
    reveal_strlit("# Progit Notes Backup \u{2014} ");
    reveal_strlit("# Fields: id|date|time|text");
    assert(!has_char(lit1@, '\n'));
    assert(!has_char(lit2@, '\n'));
    let body = note_lines(rows);
    lemma_two_headers(lit1, lit2, timestamp, body);
    let ls = lines_of(notes_backup(rows, timestamp));
    assert(notes_of_lines(ls) == notes_of_lines(ls.drop_first()));
    assert(notes_of_lines(ls.drop_first()) == notes_of_lines(ls.drop_first().drop_first()));
    lemma_note_lines(rows);
}

/// One row of the tasks table.
#[derive(Debug, Clone)]
pub struct TaskRecord {
    pub id: i64,
    pub title: String,
    pub description: Option<String>,
    pub status: Option<String>,
    pub priority: i64,
    pub deadline: Option<String>,
}

/// What a task row holds, as text.
pub struct TaskFields {
    pub id: i64,
    pub title: Seq<char>,
    pub description: Option<Seq<char>>,
    pub status: Option<Seq<char>>,
    pub priority: i64,
    pub deadline: Option<Seq<char>>,
}

impl View for TaskRecord {
    type V = TaskFields;

    open spec fn view(&self) -> TaskFields {
        TaskFields {
            id: self.id,
            title: self.title@,
            description: opt_view(self.description),
            status: opt_view(self.status),
            priority: self.priority,
            deadline: opt_view(self.deadline),
        }
    }
}

/// The fields of a task line.
pub open spec fn task_fields(t: TaskFields) -> Seq<Seq<char>> {
    seq![
        int_text(t.id as int),
        escape_pipes(t.title),
        escape_pipes(opt_text(t.description)),
        opt_text(t.status),
        int_text(t.priority as int),
        opt_text(t.deadline),
    ]
}

/// The lines written for task rows, in order.
pub open spec fn task_lines(rows: Seq<TaskFields>) -> Seq<char>
    decreases rows.len(),
{
    if rows.len() == 0 {
        Seq::empty()
    } else {
        pipe_join(task_fields(rows[0])) + seq!['\n'] + task_lines(rows.drop_first())
    }
}

/// The tasks backup file.
pub open spec fn tasks_backup(rows: Seq<TaskFields>, timestamp: Seq<char>) -> Seq<char> {
    "# Progit Tasks Backup \u{2014} "@ + timestamp + seq!['\n']
        + "# Fields: id|title|description|status|priority|deadline"@ + seq!['\n'] + task_lines(rows)
}

/// The task that a backup line holds; `None` for comments, blank lines and
/// lines with fewer than six fields. A priority that is not a number reads
/// as 1.
pub open spec fn task_of_line(l: Seq<char>) -> Option<TaskFields> {
    if is_skipped_line(l) {
        None
    } else {
        let p = split_fields(l, 6);
        if p.len() < 6 {
            None
        } else {
            Some(
                TaskFields {
                    id: int_or(p[0], 0),
                    title: unescape_pipes(p[1]),
                    description: non_empty_spec(unescape_pipes(p[2])),
                    status: non_empty_spec(p[3]),
                    priority: int_or(p[4], 1),
                    deadline: non_empty_spec(trim_end_newlines(p[5])),
                },
            )
        }
    }
}

/// The tasks that the lines `ls` hold, in order.
pub open spec fn tasks_of_lines(ls: Seq<Seq<char>>) -> Seq<TaskFields>
    decreases ls.len(),
{
    if ls.len() == 0 {
        Seq::empty()
    } else {
        match task_of_line(ls[0]) {
            Some(t) => seq![t] + tasks_of_lines(ls.drop_first()),
            None => tasks_of_lines(ls.drop_first()),
        }
    }
}

/// Writes the tasks backup file for `rows`.
pub fn dump_tasks(rows: &Vec<TaskRecord>, timestamp: &str) -> (out: String)
    ensures
        out@ == tasks_backup(rows@.map_values(|r: TaskRecord| r@), timestamp@),
{
    let ghost all = rows@.map_values(|r: TaskRecord| r@);
    let mut out = String::new();
    out.append("# Progit Tasks Backup \u{2014} ");
    out.append(timestamp);
    crate::text::push_char(&mut out, '\n');
    out.append("# Fields: id|title|description|status|priority|deadline");
    crate::text::push_char(&mut out, '\n');
    let mut i: usize = 0;
    assert(all.skip(0) =~= all);
    assert(out@ + task_lines(all.skip(0)) == tasks_backup(all, timestamp@));
    while i < rows.len()
        invariant
            i <= rows.len(),
            all == rows@.map_values(|r: TaskRecord| r@),
            out@ + task_lines(all.skip(i as int)) == tasks_backup(all, timestamp@),
        decreases rows.len() - i,
    {
        let r = &rows[i];
        let mut fs: Vec<String> = Vec::new();
        fs.push(i64_text(r.id));
        fs.push(escape_pipes_exec(r.title.as_str()));
        let desc = opt_string(&r.description);
        fs.push(escape_pipes_exec(desc.as_str()));
        fs.push(opt_string(&r.status));
        fs.push(i64_text(r.priority));
        fs.push(opt_string(&r.deadline));
        assert(views(fs@) =~= task_fields(all[i as int]));
        let ghost before = out@;
        push_fields(&mut out, &fs);
        crate::text::push_char(&mut out, '\n');
        assert(all.skip(i as int).drop_first() =~= all.skip(i + 1));
        assert(task_lines(all.skip(i as int)) == pipe_join(task_fields(all[i as int])) + seq!['\n']
            + task_lines(all.skip(i + 1)));
        assert(out@ + task_lines(all.skip(i + 1)) =~= before + task_lines(all.skip(i as int)));
        i += 1;
    }
    assert(task_lines(all.skip(i as int)) =~= Seq::<char>::empty());
    assert(out@ =~= tasks_backup(all, timestamp@));
    out
}

/// The task that one backup line holds.
pub fn task_from_line(line: &Vec<char>) -> (r: Option<TaskRecord>)
    ensures
        match r {
            Some(t) => task_of_line(line@) == Some(t@),
            None => task_of_line(line@) is None,
        },
{
    if is_skipped_line_exec(line) {
        return None;
    }
    let p = split_fields_exec(line, 6);
    let ghost pv = p@.map_values(|f: Vec<char>| f@);
    if p.len() < 6 {
        return None;
    }
    assert(pv[0] == p@[0]@ && pv[1] == p@[1]@ && pv[2] == p@[2]@ && pv[3] == p@[3]@ && pv[4]
        == p@[4]@ && pv[5] == p@[5]@);
    let title = unescape_pipes_exec(&p[1]);
    let deadline_raw = trim_end_newlines_exec(&p[5]);
    let t = TaskRecord {
        id: int_or_exec(&p[0], 0),
        title: crate::text::string_of(&title),
        description: unescaped_non_empty(&p[2]),
        status: non_empty(&p[3]),
        priority: int_or_exec(&p[4], 1),
        deadline: non_empty(&deadline_raw),
    };
    Some(t)
}

/// Reads the tasks out of a tasks backup file, in file order.
pub fn parse_tasks_backup(text: &str) -> (r: Vec<TaskRecord>)
    ensures
        r@.map_values(|t: TaskRecord| t@) == tasks_of_lines(lines_of(text@)),
{
    let v = chars_of(text);
    let ls = lines_exec(&v);
    let ghost lv = ls@.map_values(|f: Vec<char>| f@);
    let mut r: Vec<TaskRecord> = Vec::new();
    let mut i: usize = 0;
    assert(lv.skip(0) =~= lv);
    assert(r@.map_values(|t: TaskRecord| t@) + tasks_of_lines(lv) =~= tasks_of_lines(lv));
    while i < ls.len()
        invariant
            i <= ls.len(),
            lv == ls@.map_values(|f: Vec<char>| f@),
            lv == lines_of(text@),
            r@.map_values(|t: TaskRecord| t@) + tasks_of_lines(lv.skip(i as int)) == tasks_of_lines(
                lv,
            ),
        decreases ls.len() - i,
    {
        assert(lv.skip(i as int).drop_first() =~= lv.skip(i + 1));
        assert(lv.skip(i as int)[0] == ls@[i as int]@);
        let ghost before = r@.map_values(|t: TaskRecord| t@);
        match task_from_line(&ls[i]) {
            Some(t) => {
                r.push(t);
                assert(r@.map_values(|t: TaskRecord| t@) =~= before.push(t@));
                assert(r@.map_values(|t: TaskRecord| t@) + tasks_of_lines(lv.skip(i + 1)) =~= before
                    + tasks_of_lines(lv.skip(i as int)));
            },
            None => {},
        }
        i += 1;
    }
    assert(tasks_of_lines(lv.skip(i as int)) =~= Seq::<TaskFields>::empty());
    assert(r@.map_values(|t: TaskRecord| t@) =~= tasks_of_lines(lv));
    r
}

/// A task that a backup line gives back unchanged: a title without pipe or
/// newline, a description and status non-empty, trimmed, without pipe or
/// newline, a deadline non-empty, trimmed and without newline.
pub open spec fn restorable_task(t: TaskFields) -> bool {
    &&& clean_field(t.title)
    &&& clean_opt_field(t.description)
    &&& clean_opt_field(t.status)
    &&& t.deadline matches Some(s) ==> !has_char(s, '\n') && trimmed_text(s)
}

#[verifier::spinoff_prover]
#[verifier::rlimit(40)]
proof fn lemma_task_line(t: TaskFields, rest: Seq<char>)
    requires
        restorable_task(t),
    ensures
        lines_of(pipe_join(task_fields(t)) + seq!['\n'] + rest) == seq![pipe_join(task_fields(t))]
            + lines_of(rest),
        task_of_line(pipe_join(task_fields(t))) == Some(t),
{
    let fs = task_fields(t);
    lemma_int_text_field(t.id as int);
    crate::num::lemma_parse_i64_text(t.id);
    lemma_int_text_field(t.priority as int);
    crate::num::lemma_parse_i64_text(t.priority);
    lemma_unescape_clean(t.title);
    lemma_unescape_clean(opt_text(t.description));
    lemma_non_empty_field(t.description);
    lemma_non_empty_field(t.status);
    lemma_non_empty_field(t.deadline);
    lemma_trim_end_newlines_none(opt_text(t.deadline));
    match t.deadline {
        Some(s) => crate::text::lemma_trimmed_ends(s),
        None => {},
    }
    assert(!has_char(opt_text(t.description), '|') && !has_char(opt_text(t.description), '\n'));
    assert(!has_char(opt_text(t.status), '|') && !has_char(opt_text(t.status), '\n'));
    assert(!has_char(opt_text(t.deadline), '\n'));
    assert forall|i: int| 0 <= i < fs.len() implies !has_char(#[trigger] fs[i], '\n') by {}
    assert forall|i: int| 0 <= i < fs.len() - 1 implies !has_char(#[trigger] fs[i], '|') by {}
    lemma_record_line(fs, rest);
    assert(task_of_line(pipe_join(fs)) =~= Some(t));
}

proof fn lemma_task_lines(rows: Seq<TaskFields>)
    requires
        forall|i: int| 0 <= i < rows.len() ==> restorable_task(#[trigger] rows[i]),
    ensures
        tasks_of_lines(lines_of(task_lines(rows))) == rows,
    decreases rows.len(),
{
    if rows.len() == 0 {
        assert(lines_of(task_lines(rows)) =~= Seq::<Seq<char>>::empty());
        assert(tasks_of_lines(Seq::<Seq<char>>::empty()) =~= rows);
    } else {
        let rest = rows.drop_first();
        assert forall|i: int| 0 <= i < rest.len() implies restorable_task(#[trigger] rest[i]) by {
            assert(rest[i] == rows[i + 1]);
        }
        lemma_task_lines(rest);
        assert(restorable_task(rows[0]));
        lemma_task_line(rows[0], task_lines(rest));
        let line = pipe_join(task_fields(rows[0]));
        let ls = seq![line] + lines_of(task_lines(rest));
        assert(ls.drop_first() =~= lines_of(task_lines(rest)));
        assert(tasks_of_lines(ls) == seq![rows[0]] + tasks_of_lines(ls.drop_first()));
        assert(tasks_of_lines(ls) =~= rows);
    }
}

/// A backup of task rows is read back as the same rows, in order, for every
/// row that a line can carry unchanged (see `restorable_task`) and every
/// timestamp without a newline.
pub proof fn lemma_tasks_backup_restore(rows: Seq<TaskFields>, timestamp: Seq<char>)
    requires
        forall|i: int| 0 <= i < rows.len() ==> restorable_task(#[trigger] rows[i]),
        !has_char(timestamp, '\n'),
    ensures
        tasks_of_lines(lines_of(tasks_backup(rows, timestamp))) == rows,
{
    let lit1 = "# Progit Tasks Backup \u{2014} ";
    let lit2 = "# Fields: id|title|description|status|priority|deadline";
    reveal_strlit("# Progit Tasks Backup \u{2014} ");
    reveal_strlit("# Fields: id|title|description|status|priority|deadline");
    assert(!has_char(lit1@, '\n'));
    assert(!has_char(lit2@, '\n'));
    let body = task_lines(rows);
    lemma_two_headers(lit1, lit2, timestamp, body);
    let ls = lines_of(tasks_backup(rows, timestamp));
    assert(tasks_of_lines(ls) == tasks_of_lines(ls.drop_first()));
    assert(tasks_of_lines(ls.drop_first()) == tasks_of_lines(ls.drop_first().drop_first()));
    lemma_task_lines(rows);
}

} // verus!
