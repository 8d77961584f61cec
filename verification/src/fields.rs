//! Pipe-separated record lines: escaping, splitting into fields, and cutting
//! a text into lines the way `BufRead::lines` does.

use vstd::prelude::*;
use crate::text::{has_char, is_ws, trimmed, trim_bounds, string_of_range};

verus! {

/// Index of the first `c` in `s` (meaningful when `s` holds one).
pub open spec fn first_of(s: Seq<char>, c: char) -> int
    decreases s.len(),
{
    if s.len() == 0 || s[0] == c {
        0
    } else {
        1 + first_of(s.drop_first(), c)
    }
}

/// `s` cut at its first `n - 1` pipes (what `s.splitn(n, '|')` yields).
pub open spec fn split_fields(s: Seq<char>, n: nat) -> Seq<Seq<char>>
    decreases s.len(),
{
    if n == 0 {
        Seq::empty()
    } else if n == 1 || !has_char(s, '|') {
        seq![s]
    } else {
        let k = first_of(s, '|');
        if 0 <= k < s.len() {
            seq![s.take(k)] + split_fields(s.skip(k + 1), (n - 1) as nat)
        } else {
            seq![s]
        }
    }
}

/// `s` without a final carriage return.
pub open spec fn strip_cr(s: Seq<char>) -> Seq<char> {
    if s.len() > 0 && s.last() == '\r' {
        s.drop_last()
    } else {
        s
    }
}

/// The lines of `s` as `BufRead::lines` yields them: cut at each newline, a
/// carriage return before the newline removed, no empty line after a final
/// newline.
pub open spec fn lines_of(s: Seq<char>) -> Seq<Seq<char>>
    decreases s.len(),
{
    if s.len() == 0 {
        Seq::empty()
    } else if !has_char(s, '\n') {
        seq![s]
    } else {
        let k = first_of(s, '\n');
        if 0 <= k < s.len() {
            seq![strip_cr(s.take(k))] + lines_of(s.skip(k + 1))
        } else {
            seq![s]
        }
    }
}

/// Every pipe of `s` preceded by a backslash (what `s.replace('|', "\\|")`
/// gives).
pub open spec fn escape_pipes(s: Seq<char>) -> Seq<char>
    decreases s.len(),
{
    if s.len() == 0 {
        Seq::empty()
    } else if s[0] == '|' {
        seq!['\\', '|'] + escape_pipes(s.drop_first())
    } else {
        seq![s[0]] + escape_pipes(s.drop_first())
    }
}

/// Every backslash-pipe pair of `s` replaced by a pipe, scanning from the left
/// (what `s.replace("\\|", "|")` gives).
pub open spec fn unescape_pipes(s: Seq<char>) -> Seq<char>
    decreases s.len(),
{
    if s.len() == 0 {
        Seq::empty()
    } else if s.len() >= 2 && s[0] == '\\' && s[1] == '|' {
        seq!['|'] + unescape_pipes(s.skip(2))
    } else {
        seq![s[0]] + unescape_pipes(s.drop_first())
    }
}

/// `s` without its trailing newlines.
pub open spec fn trim_end_newlines(s: Seq<char>) -> Seq<char>
    decreases s.len(),
{
    if s.len() > 0 && s.last() == '\n' {
        trim_end_newlines(s.drop_last())
    } else {
        s
    }
}

/// `s` trimmed, or `None` when nothing but whitespace is left.
pub open spec fn non_empty_spec(s: Seq<char>) -> Option<Seq<char>> {
    if trimmed(s).len() == 0 {
        None
    } else {
        Some(trimmed(s))
    }
}

pub proof fn lemma_first_of(s: Seq<char>, c: char, j: int)
    requires
        0 <= j < s.len(),
        s[j] == c,
        forall|k: int| 0 <= k < j ==> s[k] != c,
    ensures
        first_of(s, c) == j,
        has_char(s, c),
    decreases j,
{
    if j > 0 {
        lemma_first_of(s.drop_first(), c, j - 1);
    }
}

pub proof fn lemma_no_char(s: Seq<char>, c: char)
    requires
        forall|k: int| 0 <= k < s.len() ==> s[k] != c,
    ensures
        !has_char(s, c),
{
}

/// Cuts the line `v` into at most `n` fields at its pipes.
pub fn split_fields_exec(v: &Vec<char>, n: usize) -> (r: Vec<Vec<char>>)
    ensures
        r@.map_values(|f: Vec<char>| f@) == split_fields(v@, n as nat),
{
    let mut r: Vec<Vec<char>> = Vec::new();
    if n == 0 {
        assert(r@.map_values(|f: Vec<char>| f@) =~= Seq::<Seq<char>>::empty());
        return r;
    }
    let mut start: usize = 0;
    let mut i: usize = 0;
    let len = v.len();
    assert(v@.skip(0) =~= v@);
    assert(r@.map_values(|f: Vec<char>| f@) + split_fields(v@, n as nat) =~= split_fields(v@, n as nat));
    while i < len && r.len() + 1 < n
        invariant
            start <= i <= len == v.len(),
            r.len() < n,
            r@.map_values(|f: Vec<char>| f@) + split_fields(v@.skip(start as int), (n - r.len()) as nat)
                == split_fields(v@, n as nat),
            forall|k: int| start <= k < i ==> v@[k] != '|',
        decreases len - i,
    {
        if v[i] == '|' {
            let ghost s = v@.skip(start as int);
            proof {
                lemma_first_of(s, '|', i - start);
            }
            let mut f: Vec<char> = Vec::new();
            let mut k = start;
            while k < i
                invariant
                    start <= k <= i < len == v.len(),
                    f@ == v@.subrange(start as int, k as int),
                decreases i - k,
            {
                f.push(v[k]);
                assert(v@.subrange(start as int, k + 1) =~= v@.subrange(start as int, k as int).push(v@[k as int]));
                k += 1;
            }
            proof {
                assert(s.take(i - start) =~= f@);
                assert(s.skip(i - start + 1) =~= v@.skip(i + 1));
                let m = (n - r.len()) as nat;
                assert(split_fields(s, m) == seq![f@] + split_fields(v@.skip(i + 1), (m - 1) as nat));
            }
            let ghost old_r = r@;
            r.push(f);
            assert(r@.map_values(|f: Vec<char>| f@) =~= old_r.map_values(|f: Vec<char>| f@).push(f@));
            start = i + 1;
        }
        i += 1;
    }
    let ghost s = v@.skip(start as int);
    let mut f: Vec<char> = Vec::new();
    let mut k = start;
    while k < len
        invariant
            start <= k <= len == v.len(),
            f@ == v@.subrange(start as int, k as int),
        decreases len - k,
    {
        f.push(v[k]);
        assert(v@.subrange(start as int, k + 1) =~= v@.subrange(start as int, k as int).push(v@[k as int]));
        k += 1;
    }
    assert(f@ =~= s);
    proof {
        if r.len() + 1 < n {
            assert forall|j: int| 0 <= j < s.len() implies s[j] != '|' by {
                assert(s[j] == v@[start + j]);
            }
            lemma_no_char(s, '|');
        }
    }
    assert(split_fields(s, (n - r.len()) as nat) == seq![s]);
    let ghost old_r = r@;
    r.push(f);
    assert(r@.map_values(|f: Vec<char>| f@) =~= old_r.map_values(|f: Vec<char>| f@).push(f@));
    r
}

/// Copies `v[lo..hi]`.
fn sub_chars(v: &Vec<char>, lo: usize, hi: usize) -> (f: Vec<char>)
    requires
        lo <= hi <= v.len(),
    ensures
        f@ == v@.subrange(lo as int, hi as int),
{
    let mut f: Vec<char> = Vec::new();
    let mut k = lo;
    while k < hi
        invariant
            lo <= k <= hi <= v.len(),
            f@ == v@.subrange(lo as int, k as int),
        decreases hi - k,
    {
        f.push(v[k]);
        assert(v@.subrange(lo as int, k + 1) =~= v@.subrange(lo as int, k as int).push(v@[k as int]));
        k += 1;
    }
    f
}

/// The lines of the text `v` (see `lines_of`).
pub fn lines_exec(v: &Vec<char>) -> (r: Vec<Vec<char>>)
    ensures
        r@.map_values(|f: Vec<char>| f@) == lines_of(v@),
{
    let mut r: Vec<Vec<char>> = Vec::new();
    let mut start: usize = 0;
    let mut i: usize = 0;
    let len = v.len();
    assert(v@.skip(0) =~= v@);
    assert(r@.map_values(|f: Vec<char>| f@) + lines_of(v@) =~= lines_of(v@));
    while i < len
        invariant
            start <= i <= len == v.len(),
            r@.map_values(|f: Vec<char>| f@) + lines_of(v@.skip(start as int)) == lines_of(v@),
            forall|k: int| start <= k < i ==> v@[k] != '\n',
        decreases len - i,
    {
        if v[i] == '\n' {
            let ghost s = v@.skip(start as int);
            proof {
                lemma_first_of(s, '\n', i - start);
            }
            let mut hi = i;
            if hi > start && v[hi - 1] == '\r' {
                hi = hi - 1;
            }
            let f = sub_chars(v, start, hi);
            proof {
                assert(strip_cr(s.take(i - start)) =~= f@);
                assert(s.skip(i - start + 1) =~= v@.skip(i + 1));
                assert(lines_of(s) == seq![f@] + lines_of(v@.skip(i + 1)));
            }
            let ghost old_r = r@;
            r.push(f);
            assert(r@.map_values(|f: Vec<char>| f@) =~= old_r.map_values(|f: Vec<char>| f@).push(f@));
            start = i + 1;
        }
        i += 1;
    }
    let ghost s = v@.skip(start as int);
    if start < len {
        let f = sub_chars(v, start, len);
        assert(f@ =~= s);
        assert forall|j: int| 0 <= j < s.len() implies s[j] != '\n' by {
            assert(s[j] == v@[start + j]);
        }
        proof {
            lemma_no_char(s, '\n');
        }
        let ghost old_r = r@;
        r.push(f);
        assert(r@.map_values(|f: Vec<char>| f@) =~= old_r.map_values(|f: Vec<char>| f@).push(f@));
    } else {
        assert(s.len() == 0);
        assert(r@.map_values(|f: Vec<char>| f@) + lines_of(s) =~= r@.map_values(|f: Vec<char>| f@));
    }
    r
}

/// `s` with every pipe preceded by a backslash.
pub fn escape_pipes_exec(s: &str) -> (r: String)
    ensures
        r@ == escape_pipes(s@),
{
    let v = crate::text::chars_of(s);
    let mut r = String::new();
    let mut i: usize = 0;
    assert(v@.skip(0) =~= v@);
    while i < v.len()
        invariant
            i <= v.len(),
            r@ + escape_pipes(v@.skip(i as int)) == escape_pipes(v@),
            v@ == s@,
        decreases v.len() - i,
    {
        let ghost t = v@.skip(i as int);
        assert(t.drop_first() =~= v@.skip(i + 1));
        let ghost old_r = r@;
        if v[i] == '|' {
            crate::text::push_char(&mut r, '\\');
            crate::text::push_char(&mut r, '|');
            assert(r@ =~= old_r + seq!['\\', '|']);
        } else {
            crate::text::push_char(&mut r, v[i]);
            assert(r@ =~= old_r + seq![t[0]]);
        }
        i += 1;
    }
    assert(escape_pipes(v@.skip(i as int)) =~= Seq::<char>::empty());
    assert(r@ =~= escape_pipes(v@));
    r
}

/// `v` with every backslash-pipe pair replaced by a pipe.
pub fn unescape_pipes_exec(v: &Vec<char>) -> (r: Vec<char>)
    ensures
        r@ == unescape_pipes(v@),
{
    let mut r: Vec<char> = Vec::new();
    let mut i: usize = 0;
    assert(v@.skip(0) =~= v@);
    while i < v.len()
        invariant
            i <= v.len(),
            r@ + unescape_pipes(v@.skip(i as int)) == unescape_pipes(v@),
        decreases v.len() - i,
    {
        let ghost t = v@.skip(i as int);
        let ghost old_r = r@;
        if i + 1 < v.len() && v[i] == '\\' && v[i + 1] == '|' {
            assert(t.skip(2) =~= v@.skip(i + 2));
            r.push('|');
            assert(r@ =~= old_r + seq!['|']);
            i += 2;
        } else {
            assert(t.drop_first() =~= v@.skip(i + 1));
            r.push(v[i]);
            assert(r@ =~= old_r + seq![t[0]]);
            i += 1;
        }
    }
    assert(unescape_pipes(v@.skip(i as int)) =~= Seq::<char>::empty());
    assert(r@ =~= unescape_pipes(v@));
    r
}

/// `v` without its trailing newlines.
pub fn trim_end_newlines_exec(v: &Vec<char>) -> (r: Vec<char>)
    ensures
        r@ == trim_end_newlines(v@),
{
    let mut j = v.len();
    assert(v@.take(j as int) =~= v@);
    while j > 0 && v[j - 1] == '\n'
        invariant
            j <= v.len(),
            trim_end_newlines(v@) == trim_end_newlines(v@.take(j as int)),
        decreases j,
    {
        assert(v@.take(j as int).drop_last() =~= v@.take(j - 1));
        j -= 1;
    }
    let r = sub_chars(v, 0, j);
    assert(r@ =~= v@.take(j as int));
    r
}

/// `v` trimmed, or `None` when nothing but whitespace is left.
pub fn non_empty(v: &Vec<char>) -> (r: Option<String>)
    ensures
        crate::text::opt_view(r) == non_empty_spec(v@),
{
    let (lo, hi) = trim_bounds(v);
    if lo == hi {
        None
    } else {
        Some(string_of_range(v, lo, hi))
    }
}

/// Backslash-pipe pairs in `escape_pipes(s)` come only from the pipes of `s`,
/// so unescaping gives `s` back.
pub proof fn lemma_unescape_escape(s: Seq<char>)
    ensures
        unescape_pipes(escape_pipes(s)) == s,
    decreases s.len(),
{
    if s.len() > 0 {
        let rest = s.drop_first();
        lemma_unescape_escape(rest);
        let e = escape_pipes(s);
        if s[0] == '|' {
            assert(e.skip(2) =~= escape_pipes(rest));
        } else {
            assert(e.drop_first() =~= escape_pipes(rest));
            if s[0] == '\\' && e.len() >= 2 {
                lemma_escape_first(rest);
            }
        }
        assert(unescape_pipes(e) =~= s);
    } else {
        assert(escape_pipes(s) =~= Seq::<char>::empty());
    }
}

proof fn lemma_escape_first(s: Seq<char>)
    ensures
        escape_pipes(s).len() >= s.len(),
        s.len() > 0 ==> escape_pipes(s)[0] != '|',
    decreases s.len(),
{
    if s.len() > 0 {
        lemma_escape_first(s.drop_first());
    }
}

/// Escaping a text without pipes leaves it unchanged.
pub proof fn lemma_escape_no_pipe(s: Seq<char>)
    requires
        !has_char(s, '|'),
    ensures
        escape_pipes(s) == s,
    decreases s.len(),
{
    if s.len() > 0 {
        assert(s[0] != '|');
        assert(!has_char(s.drop_first(), '|')) by {
            if has_char(s.drop_first(), '|') {
                let i = choose|i: int| 0 <= i < s.drop_first().len() && s.drop_first()[i] == '|';
                assert(s[i + 1] == '|');
            }
        }
        lemma_escape_no_pipe(s.drop_first());
        assert(escape_pipes(s) =~= s);
    } else {
        assert(escape_pipes(s) =~= s);
    }
}

/// Whether `s` holds `c` in its escaped form.
pub proof fn lemma_escape_has_char(s: Seq<char>, c: char)
    requires
        c != '|',
        c != '\\',
    ensures
        has_char(escape_pipes(s), c) == has_char(s, c),
    decreases s.len(),
{
    if s.len() > 0 {
        lemma_escape_has_char(s.drop_first(), c);
        let e = escape_pipes(s);
        let er = escape_pipes(s.drop_first());
        if s[0] == '|' {
            assert(e =~= seq!['\\', '|'] + er);
            if has_char(e, c) {
                let i = choose|i: int| 0 <= i < e.len() && e[i] == c;
                assert(er[i - 2] == c);
            }
            if has_char(s.drop_first(), c) {
                let i = choose|i: int| 0 <= i < er.len() && er[i] == c;
                assert(e[i + 2] == c);
            }
            if has_char(s, c) {
                let i = choose|i: int| 0 <= i < s.len() && s[i] == c;
                assert(s.drop_first()[i - 1] == c);
            }
        } else {
            assert(e =~= seq![s[0]] + er);
            if has_char(e, c) {
                let i = choose|i: int| 0 <= i < e.len() && e[i] == c;
                if i > 0 {
                    assert(er[i - 1] == c);
                } else {
                    assert(s[0] == c);
                }
            }
            if has_char(s.drop_first(), c) {
                let i = choose|i: int| 0 <= i < er.len() && er[i] == c;
                assert(e[i + 1] == c);
            }
            if has_char(s, c) {
                let i = choose|i: int| 0 <= i < s.len() && s[i] == c;
                if i > 0 {
                    assert(s.drop_first()[i - 1] == c);
                } else {
                    assert(e[0] == c);
                }
            }
        }
    } else {
        assert(escape_pipes(s) =~= s);
    }
}

/// The fields `fs` joined with single pipes.
pub open spec fn pipe_join(fs: Seq<Seq<char>>) -> Seq<char>
    decreases fs.len(),
{
    if fs.len() == 0 {
        Seq::empty()
    } else if fs.len() == 1 {
        fs[0]
    } else {
        fs[0] + seq!['|'] + pipe_join(fs.drop_first())
    }
}

/// Fields joined with pipes split back into the same fields, when no field
/// but the last holds a pipe.
pub proof fn lemma_split_pipe_join(fs: Seq<Seq<char>>)
    requires
        fs.len() >= 1,
        forall|i: int| 0 <= i < fs.len() - 1 ==> !has_char(#[trigger] fs[i], '|'),
    ensures
        split_fields(pipe_join(fs), fs.len()) == fs,
    decreases fs.len(),
{
    if fs.len() == 1 {
        assert(split_fields(pipe_join(fs), 1) =~= fs);
    } else {
        let a = fs[0];
        let rest = fs.drop_first();
        assert forall|i: int| 0 <= i < rest.len() - 1 implies !has_char(#[trigger] rest[i], '|') by {
            assert(rest[i] == fs[i + 1]);
        }
        lemma_split_pipe_join(rest);
        let s = pipe_join(fs);
        assert(s =~= a + seq!['|'] + pipe_join(rest));
        assert forall|k: int| 0 <= k < a.len() implies s[k] != '|' by {
            assert(s[k] == a[k]);
            if a[k] == '|' {
                assert(has_char(a, '|'));
            }
        }
        lemma_first_of(s, '|', a.len() as int);
        assert(s.take(a.len() as int) =~= a);
        assert(s.skip(a.len() as int + 1) =~= pipe_join(rest));
        assert(split_fields(s, fs.len()) =~= fs);
    }
}

/// A line without newlines, its newline, then more text: `lines_of` yields
/// the line (without a final carriage return), then the lines of the rest.
pub proof fn lemma_lines_cons(l: Seq<char>, rest: Seq<char>)
    requires
        !has_char(l, '\n'),
    ensures
        lines_of(l + seq!['\n'] + rest) == seq![strip_cr(l)] + lines_of(rest),
{
    let s = l + seq!['\n'] + rest;
    assert forall|k: int| 0 <= k < l.len() implies s[k] != '\n' by {
        assert(s[k] == l[k]);
        if l[k] == '\n' {
            assert(has_char(l, '\n'));
        }
    }
    lemma_first_of(s, '\n', l.len() as int);
    assert(s.take(l.len() as int) =~= l);
    assert(s.skip(l.len() as int + 1) =~= rest);
}

pub proof fn lemma_pipe_join_push(fs: Seq<Seq<char>>, x: Seq<char>)
    requires
        fs.len() >= 1,
    ensures
        pipe_join(fs.push(x)) == pipe_join(fs) + seq!['|'] + x,
    decreases fs.len(),
{
    if fs.len() == 1 {
        assert(fs.push(x).drop_first() =~= seq![x]);
        assert(pipe_join(seq![x]) == x);
        assert(pipe_join(fs) == fs[0]);
        assert(fs.push(x)[0] == fs[0]);
        assert(pipe_join(fs.push(x)) =~= pipe_join(fs) + seq!['|'] + x);
    } else {
        lemma_pipe_join_push(fs.drop_first(), x);
        assert(fs.push(x).drop_first() =~= fs.drop_first().push(x));
        assert(pipe_join(fs.push(x)) =~= pipe_join(fs) + seq!['|'] + x);
    }
}

/// A character other than the pipe occurs in the joined fields only where
/// it occurs in some field.
pub proof fn lemma_pipe_join_no_char(fs: Seq<Seq<char>>, c: char)
    requires
        c != '|',
        forall|i: int| 0 <= i < fs.len() ==> !has_char(#[trigger] fs[i], c),
    ensures
        !has_char(pipe_join(fs), c),
    decreases fs.len(),
{
    if fs.len() > 1 {
        let rest = fs.drop_first();
        assert forall|i: int| 0 <= i < rest.len() implies !has_char(#[trigger] rest[i], c) by {
            assert(rest[i] == fs[i + 1]);
        }
        lemma_pipe_join_no_char(rest, c);
        let s = pipe_join(fs);
        let a = fs[0];
        let t = pipe_join(rest);
        assert(s =~= a + seq!['|'] + t);
        if has_char(s, c) {
            let i = choose|i: int| 0 <= i < s.len() && s[i] == c;
            if i < a.len() {
                assert(a[i] == c);
                assert(has_char(a, c));
            } else if i > a.len() {
                assert(t[i - a.len() - 1] == c);
            }
        }
    } else if fs.len() == 1 {
        assert(!has_char(fs[0], c));
    }
}

/// The last character of joined fields: that of the last field, or the pipe
/// before it when it is empty.
pub proof fn lemma_pipe_join_last(fs: Seq<Seq<char>>)
    requires
        fs.len() >= 2,
    ensures
        pipe_join(fs).len() > 0,
        pipe_join(fs).last() == (if fs.last().len() > 0 {
            fs.last().last()
        } else {
            '|'
        }),
    decreases fs.len(),
{
    let rest = fs.drop_first();
    if fs.len() > 2 {
        lemma_pipe_join_last(rest);
    } else {
        assert(pipe_join(rest) == rest[0]);
    }
    assert(rest.last() == fs.last());
    let s = pipe_join(fs);
    assert(s =~= fs[0] + seq!['|'] + pipe_join(rest));
}

/// The first character of joined fields is that of the first field.
pub proof fn lemma_pipe_join_first(fs: Seq<Seq<char>>)
    requires
        fs.len() >= 1,
        fs[0].len() > 0,
    ensures
        pipe_join(fs).len() > 0,
        pipe_join(fs)[0] == fs[0][0],
{
    if fs.len() > 1 {
        assert(pipe_join(fs) =~= fs[0] + seq!['|'] + pipe_join(fs.drop_first()));
    }
}

/// Appends the fields `fs` joined with pipes to `out`.
pub fn push_fields(out: &mut String, fs: &Vec<String>)
    ensures
        final(out)@ == old(out)@ + pipe_join(crate::text::views(fs@)),
{
    let ghost vs = crate::text::views(fs@);
    if fs.len() == 0 {
        assert(old(out)@ + pipe_join(vs) =~= old(out)@);
        return;
    }
    out.append(fs[0].as_str());
    assert(vs.take(1) =~= seq![vs[0]]);
    let mut i: usize = 1;
    while i < fs.len()
        invariant
            1 <= i <= fs.len(),
            vs == crate::text::views(fs@),
            out@ == old(out)@ + pipe_join(vs.take(i as int)),
        decreases fs.len() - i,
    {
        proof {
            lemma_pipe_join_push(vs.take(i as int), vs[i as int]);
            assert(vs.take(i as int).push(vs[i as int]) =~= vs.take(i + 1));
        }
        crate::text::push_char(out, '|');
        out.append(fs[i].as_str());
        assert(out@ =~= old(out)@ + pipe_join(vs.take(i + 1)));
        i += 1;
    }
    assert(vs.take(fs.len() as int) =~= vs);
}

/// The last character of an escaped text is that of the text.
pub proof fn lemma_escape_last(s: Seq<char>)
    requires
        s.len() > 0,
    ensures
        escape_pipes(s).len() > 0,
        escape_pipes(s).last() == s.last(),
    decreases s.len(),
{
    if s.len() > 1 {
        lemma_escape_last(s.drop_first());
        assert(s.drop_first().last() == s.last());
    } else {
        assert(s.drop_first().len() == 0);
        assert(escape_pipes(s.drop_first()) =~= Seq::<char>::empty());
    }
}

/// Lines that a restore passes over: comments and blank lines.
pub open spec fn is_skipped_line(l: Seq<char>) -> bool {
    (l.len() > 0 && l[0] == '#') || trimmed(l).len() == 0
}

/// A record line written as pipe-joined fields and a newline is read back as
/// one line, not passed over, that splits into the same fields.
pub proof fn lemma_record_line(fs: Seq<Seq<char>>, rest: Seq<char>)
    requires
        fs.len() >= 2,
        forall|i: int| 0 <= i < fs.len() ==> !has_char(#[trigger] fs[i], '\n'),
        forall|i: int| 0 <= i < fs.len() - 1 ==> !has_char(#[trigger] fs[i], '|'),
        fs[0].len() > 0,
        fs[0][0] != '#',
        !is_ws(fs[0][0]),
        fs.last().len() == 0 || fs.last().last() != '\r',
    ensures
        lines_of(pipe_join(fs) + seq!['\n'] + rest) == seq![pipe_join(fs)] + lines_of(rest),
        !is_skipped_line(pipe_join(fs)),
        split_fields(pipe_join(fs), fs.len()) == fs,
{
    lemma_pipe_join_no_char(fs, '\n');
    lemma_lines_cons(pipe_join(fs), rest);
    lemma_pipe_join_last(fs);
    assert(strip_cr(pipe_join(fs)) == pipe_join(fs));
    lemma_pipe_join_first(fs);
    crate::text::lemma_trimmed_nonempty(pipe_join(fs));
    lemma_split_pipe_join(fs);
}

/// Trimming newlines off a text that holds none leaves it unchanged.
pub proof fn lemma_trim_end_newlines_none(s: Seq<char>)
    requires
        !has_char(s, '\n'),
    ensures
        trim_end_newlines(s) == s,
{
    if s.len() > 0 {
        assert(s[s.len() - 1] != '\n');
    }
}

/// The whole-field value comes back from `non_empty` for a non-empty trimmed
/// field, and `None` for an empty one.
pub proof fn lemma_non_empty_field(o: Option<Seq<char>>)
    requires
        o matches Some(s) ==> s.len() > 0 && trimmed(s) == s,
    ensures
        non_empty_spec(match o {
            Some(s) => s,
            None => Seq::empty(),
        }) == o,
{
    crate::text::lemma_trimmed_empty();
}

/// `s` cut at every `c` (what `s.split(c)` yields); empty pieces are kept.
pub open spec fn split_all(s: Seq<char>, c: char) -> Seq<Seq<char>>
    decreases s.len(),
{
    if !has_char(s, c) {
        seq![s]
    } else {
        let k = first_of(s, c);
        if 0 <= k < s.len() {
            seq![s.take(k)] + split_all(s.skip(k + 1), c)
        } else {
            seq![s]
        }
    }
}

/// Cuts `v` at every `c`.
pub fn split_all_exec(v: &Vec<char>, c: char) -> (r: Vec<Vec<char>>)
    ensures
        r@.map_values(|f: Vec<char>| f@) == split_all(v@, c),
{
    let mut r: Vec<Vec<char>> = Vec::new();
    let mut start: usize = 0;
    let mut i: usize = 0;
    let len = v.len();
    assert(v@.skip(0) =~= v@);
    assert(r@.map_values(|f: Vec<char>| f@) + split_all(v@, c) =~= split_all(v@, c));
    while i < len
        invariant
            start <= i <= len == v.len(),
            r@.map_values(|f: Vec<char>| f@) + split_all(v@.skip(start as int), c) == split_all(v@, c),
            forall|k: int| start <= k < i ==> v@[k] != c,
        decreases len - i,
    {
        if v[i] == c {
            let ghost s = v@.skip(start as int);
            proof {
                lemma_first_of(s, c, i - start);
            }
            let f = sub_chars(v, start, i);
            proof {
                assert(s.take(i - start) =~= f@);
                assert(s.skip(i - start + 1) =~= v@.skip(i + 1));
            }
            let ghost old_r = r@;
            r.push(f);
            assert(r@.map_values(|f: Vec<char>| f@) =~= old_r.map_values(|f: Vec<char>| f@).push(f@));
            start = i + 1;
        }
        i += 1;
    }
    let ghost s = v@.skip(start as int);
    let f = sub_chars(v, start, len);
    assert(f@ =~= s);
    assert forall|j: int| 0 <= j < s.len() implies s[j] != c by {
        assert(s[j] == v@[start + j]);
    }
    proof {
        lemma_no_char(s, c);
    }
    let ghost old_r = r@;
    r.push(f);
    assert(r@.map_values(|f: Vec<char>| f@) =~= old_r.map_values(|f: Vec<char>| f@).push(f@));
    r
}

} // verus!
