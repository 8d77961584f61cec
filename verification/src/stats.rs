//! Progress statistics: counts over Codeforces and LeetCode rows, the most
//! frequent tags and topics, and the current streak of active days.

use vstd::prelude::*;
use crate::calendar::{day_number, day_number_of};
use crate::backup::clamped_difficulty;
use crate::json::{tags_from_field, tags_of_field};
use crate::num::{i64_text, int_text};
use crate::text::same_text;
use crate::text::{chars_eq, chars_of, opt_view, views};

verus! {

/// Number of times `t` occurs in `s`.
pub open spec fn occurrences(s: Seq<Seq<char>>, t: Seq<char>) -> nat
    decreases s.len(),
{
    if s.len() == 0 {
        0
    } else {
        occurrences(s.drop_last(), t) + if s.last() == t {
            1nat
        } else {
            0nat
        }
    }
}

/// The view of a (text, count) entry.
pub open spec fn entry_view(e: (String, usize)) -> (Seq<char>, usize) {
    (e.0@, e.1)
}

/// The views of a list of (text, count) entries.
pub open spec fn entries_view(v: Seq<(String, usize)>) -> Seq<(Seq<char>, usize)> {
    v.map_values(|e: (String, usize)| entry_view(e))
}

/// Whether some entry of `es` has the text `t`.
pub open spec fn has_key(es: Seq<(Seq<char>, usize)>, t: Seq<char>) -> bool {
    exists|k: int| 0 <= k < es.len() && es[k].0 == t
}

/// `es` counts every distinct text of `s` exactly once, with its number of
/// occurrences.
pub open spec fn is_frequency_table(es: Seq<(Seq<char>, usize)>, s: Seq<Seq<char>>) -> bool {
    &&& forall|a: int, b: int| 0 <= a < b < es.len() ==> es[a].0 != es[b].0
    &&& forall|k: int| 0 <= k < es.len() ==> es[k].1 == occurrences(s, #[trigger] es[k].0)
    &&& forall|k: int| 0 <= k < es.len() ==> #[trigger] es[k].1 > 0
    &&& forall|j: int| 0 <= j < s.len() ==> has_key(es, #[trigger] s[j])
}

/// `top` holds at most `n` of the most frequent texts of `s`, most frequent
/// first, each once and with its number of occurrences; fewer than `n` only
/// when it holds every text of `s`. Texts that occur equally often may come in
/// either order.
pub open spec fn is_top_counts(top: Seq<(Seq<char>, usize)>, s: Seq<Seq<char>>, n: nat) -> bool {
    &&& top.len() <= n
    &&& forall|a: int, b: int| 0 <= a < b < top.len() ==> top[a].0 != top[b].0
    &&& forall|k: int| 0 <= k < top.len() ==> top[k].1 == occurrences(s, #[trigger] top[k].0)
    &&& forall|k: int| 0 <= k < top.len() ==> #[trigger] top[k].1 > 0
    &&& forall|a: int, b: int| 0 <= a < b < top.len() ==> top[a].1 >= top[b].1
    &&& top.len() < n ==> forall|j: int| 0 <= j < s.len() ==> has_key(top, #[trigger] s[j])
    &&& top.len() == n && n > 0 ==> forall|j: int|
        0 <= j < s.len() && !has_key(top, s[j]) ==> occurrences(s, #[trigger] s[j])
            <= top[n - 1].1
}

proof fn lemma_occurrences_bound(s: Seq<Seq<char>>, t: Seq<char>)
    ensures
        occurrences(s, t) <= s.len(),
    decreases s.len(),
{
    if s.len() > 0 {
        lemma_occurrences_bound(s.drop_last(), t);
    }
}

proof fn lemma_occurrences_positive(s: Seq<Seq<char>>, j: int)
    requires
        0 <= j < s.len(),
    ensures
        occurrences(s, s[j]) > 0,
    decreases s.len(),
{
    if j < s.len() - 1 {
        lemma_occurrences_positive(s.drop_last(), j);
    }
}

/// Counts the distinct texts of `s`, in the order they first occur.
pub fn frequencies(s: &Vec<String>) -> (r: Vec<(String, usize)>)
    ensures
        is_frequency_table(entries_view(r@), views(s@)),
{
    let ghost sv = views(s@);
    let mut r: Vec<(String, usize)> = Vec::new();
    let mut i: usize = 0;
    while i < s.len()
        invariant
            i <= s.len(),
            sv == views(s@),
            is_frequency_table(entries_view(r@), sv.take(i as int)),
        decreases s.len() - i,
    {
        let ghost pre = sv.take(i as int);
        let ghost post = sv.take(i + 1);
        assert(post.drop_last() =~= pre);
        assert(post.last() == s@[i as int]@);
        let t = chars_of(s[i].as_str());
        let mut k: usize = 0;
        let mut found = false;
        while k < r.len() && !found
            invariant
                k <= r.len(),
                found ==> k < r.len() && entries_view(r@)[k as int].0 == t@,
                forall|m: int| 0 <= m < k ==> entries_view(r@)[m].0 != t@,
            decreases r.len() - k, if found { 0int } else { 1int },
        {
            let u = chars_of(r[k].0.as_str());
            if chars_eq(&u, &t) {
                found = true;
            } else {
                k += 1;
            }
        }
        let ghost old_es = entries_view(r@);
        if found {
            assert(old_es[k as int].0 == t@);
            proof {
                lemma_occurrences_bound(pre, t@);
            }
            let c = r[k].1 + 1;
            let key = r[k].0.clone();
            r.set(k, (key, c));
            let ghost es = entries_view(r@);
            assert forall|m: int| 0 <= m < es.len() implies es[m].1 == occurrences(
                post,
                #[trigger] es[m].0,
            ) by {
                if m != k {
                    assert(es[m] == old_es[m]);
                }
            }
            assert forall|j: int| 0 <= j < post.len() implies has_key(es, #[trigger] post[j]) by {
                if j < i {
                    assert(post[j] == pre[j]);
                    let m = choose|m: int| 0 <= m < old_es.len() && old_es[m].0 == pre[j];
                    assert(es[m].0 == old_es[m].0);
                } else {
                    assert(es[k as int].0 == post[j]);
                }
            }
            assert forall|a: int, b: int| 0 <= a < b < es.len() implies es[a].0 != es[b].0 by {
                assert(es[a].0 == old_es[a].0 && es[b].0 == old_es[b].0);
            }
            assert forall|m: int| 0 <= m < es.len() implies #[trigger] es[m].1 > 0 by {
                if m != k {
                    assert(es[m] == old_es[m]);
                }
            }
            assert(is_frequency_table(es, post));
        } else {
            assert(!has_key(old_es, t@)) by {
                if has_key(old_es, t@) {
                    let m = choose|m: int| 0 <= m < old_es.len() && old_es[m].0 == t@;
                    assert(entries_view(r@)[m].0 != t@);
                }
            }
            assert(occurrences(pre, t@) == 0) by {
                if occurrences(pre, t@) > 0 {
                    lemma_occurrence_has_index(pre, t@);
                    let j = choose|j: int| 0 <= j < pre.len() && pre[j] == t@;
                    assert(has_key(old_es, pre[j]));
                }
            }
            let key = crate::text::string_of(&t);
            r.push((key, 1));
            let ghost es = entries_view(r@);
            assert(es =~= old_es.push((t@, 1usize)));
            assert forall|m: int| 0 <= m < es.len() implies es[m].1 == occurrences(
                post,
                #[trigger] es[m].0,
            ) by {
                if m < old_es.len() {
                    assert(es[m] == old_es[m]);
                }
            }
            assert forall|j: int| 0 <= j < post.len() implies has_key(es, #[trigger] post[j]) by {
                if j < i {
                    assert(post[j] == pre[j]);
                    let m = choose|m: int| 0 <= m < old_es.len() && old_es[m].0 == pre[j];
                    assert(es[m].0 == old_es[m].0);
                } else {
                    assert(es[old_es.len() as int].0 == post[j]);
                }
            }
            assert forall|a: int, b: int| 0 <= a < b < es.len() implies es[a].0 != es[b].0 by {
                if b == old_es.len() {
                    assert(es[a].0 == old_es[a].0);
                } else {
                    assert(es[a].0 == old_es[a].0 && es[b].0 == old_es[b].0);
                }
            }
            assert forall|m: int| 0 <= m < es.len() implies #[trigger] es[m].1 > 0 by {
                if m < old_es.len() {
                    assert(es[m] == old_es[m]);
                }
            }
            assert(is_frequency_table(es, post));
        }
        i += 1;
    }
    assert(sv.take(s.len() as int) =~= sv);
    r
}

proof fn lemma_occurrence_has_index(s: Seq<Seq<char>>, t: Seq<char>)
    requires
        occurrences(s, t) > 0,
    ensures
        exists|j: int| 0 <= j < s.len() && s[j] == t,
    decreases s.len(),
{
    if s.last() == t {
        assert(s[s.len() - 1] == t);
    } else {
        lemma_occurrence_has_index(s.drop_last(), t);
        let j = choose|j: int| 0 <= j < s.drop_last().len() && s.drop_last()[j] == t;
        assert(s[j] == t);
    }
}

/// Picks up to `n` entries of the frequency table `es` of `s`, most frequent
/// first; among equal counts the earlier entry first.
fn top_counts(es: &Vec<(String, usize)>, n: usize, Ghost(s): Ghost<Seq<Seq<char>>>) -> (r: Vec<(
    String,
    usize,
)>)
    requires
        is_frequency_table(entries_view(es@), s),
    ensures
        is_top_counts(entries_view(r@), s, n as nat),
{
    let ghost ev = entries_view(es@);
    let mut taken: Vec<bool> = Vec::new();
    let mut k0: usize = 0;
    while k0 < es.len()
        invariant
            k0 <= es.len(),
            taken.len() == k0,
            forall|k: int| 0 <= k < k0 ==> !taken@[k],
        decreases es.len() - k0,
    {
        taken.push(false);
        k0 += 1;
    }
    let mut r: Vec<(String, usize)> = Vec::new();
    let ghost mut idx: Seq<int> = Seq::empty();
    let mut done = false;
    while r.len() < n && !done
        invariant
            ev == entries_view(es@),
            is_frequency_table(ev, s),
            taken.len() == es.len(),
            r.len() <= n,
            idx.len() == r.len(),
            forall|m: int| 0 <= m < idx.len() ==> 0 <= #[trigger] idx[m] < es.len(),
            forall|a: int, b: int| 0 <= a < b < idx.len() ==> idx[a] != idx[b],
            forall|k: int| 0 <= k < es.len() ==> (taken@[k] <==> idx.contains(k)),
            forall|m: int| 0 <= m < r.len() ==> entries_view(r@)[m] == ev[#[trigger] idx[m]],
            forall|a: int, b: int|
                0 <= a < b < r.len() ==> entries_view(r@)[a].1 >= entries_view(r@)[b].1,
            r.len() > 0 ==> forall|k: int|
                0 <= k < es.len() && !taken@[k] ==> ev[k].1 <= entries_view(r@)[r.len() - 1].1,
            done ==> forall|k: int| 0 <= k < es.len() ==> taken@[k],
        decreases n - r.len(), if done { 0int } else { 1int },
    {
        let mut best: usize = 0;
        let mut have = false;
        let mut k: usize = 0;
        while k < es.len()
            invariant
                k <= es.len() == taken.len(),
                ev == entries_view(es@),
                have ==> best < es.len() && !taken@[best as int],
                have ==> forall|j: int| 0 <= j < k && !taken@[j] ==> ev[j].1 <= ev[best as int].1,
                !have ==> forall|j: int| 0 <= j < k ==> taken@[j],
            decreases es.len() - k,
        {
            if !taken[k] && (!have || es[k].1 > es[best].1) {
                best = k;
                have = true;
            }
            k += 1;
        }
        if !have {
            done = true;
        } else {
            let ghost old_r = entries_view(r@);
            let ghost old_taken = taken@;
            let ghost old_idx = idx;
            assert(!idx.contains(best as int));
            taken.set(best, true);
            let e = (es[best].0.clone(), es[best].1);
            r.push(e);
            proof {
                idx = idx.push(best as int);
            }
            let ghost nr = entries_view(r@);
            assert(nr =~= old_r.push(ev[best as int]));
            assert forall|j: int| 0 <= j < es.len() implies (taken@[j] <==> idx.contains(j)) by {
                if j == best {
                    assert(idx[idx.len() - 1] == j);
                } else {
                    if idx.contains(j) {
                        let m = choose|m: int| 0 <= m < idx.len() && idx[m] == j;
                        assert(m < idx.len() - 1);
                        assert(old_idx[m] == j);
                        assert(old_idx.contains(j));
                    } else if old_idx.contains(j) {
                        let m = choose|m: int| 0 <= m < old_idx.len() && old_idx[m] == j;
                        assert(idx[m] == j);
                    }
                }
            }
            assert forall|m: int| 0 <= m < r.len() implies entries_view(r@)[m] == ev[#[trigger] idx[m]] by {
                if m < r.len() - 1 {
                    assert(nr[m] == old_r[m]);
                }
            }
            assert forall|a: int, b: int| 0 <= a < b < r.len() implies entries_view(r@)[a].1
                >= entries_view(r@)[b].1 by {
                if b == r.len() - 1 {
                    if a < r.len() - 1 {
                        assert(old_r[a].1 >= old_r[old_r.len() - 1].1 || a == old_r.len() - 1);
                        assert(!old_taken[best as int]);
                    }
                } else {
                    assert(nr[a] == old_r[a] && nr[b] == old_r[b]);
                }
            }
        }
    }
    proof {
        let t = entries_view(r@);
        assert forall|a: int, b: int| 0 <= a < b < t.len() implies t[a].0 != t[b].0 by {
            assert(t[a] == ev[idx[a]] && t[b] == ev[idx[b]]);
        }
        assert forall|m: int| 0 <= m < t.len() implies t[m].1 == occurrences(s, #[trigger] t[m].0) by {
            assert(t[m] == ev[idx[m]]);
        }
        assert forall|m: int| 0 <= m < t.len() implies #[trigger] t[m].1 > 0 by {
            assert(t[m] == ev[idx[m]]);
        }
        if t.len() < n {
            assert forall|j: int| 0 <= j < s.len() implies has_key(t, #[trigger] s[j]) by {
                let k = choose|k: int| 0 <= k < ev.len() && ev[k].0 == s[j];
                assert(taken@[k]);
                assert(idx.contains(k));
                let m = choose|m: int| 0 <= m < idx.len() && idx[m] == k;
                assert(t[m] == ev[k]);
            }
        }
        if t.len() == n && n > 0 {
            assert forall|j: int| 0 <= j < s.len() && !has_key(t, s[j]) implies occurrences(
                s,
                #[trigger] s[j],
            ) <= t[n - 1].1 by {
                let k = choose|k: int| 0 <= k < ev.len() && ev[k].0 == s[j];
                if taken@[k] {
                    assert(idx.contains(k));
                    let m = choose|m: int| 0 <= m < idx.len() && idx[m] == k;
                    assert(t[m] == ev[k]);
                    assert(has_key(t, s[j]));
                } else {
                    assert(ev[k].1 <= t[n - 1].1);
                    assert(ev[k].1 == occurrences(s, ev[k].0));
                }
            }
        }
    }
    r
}

/// What the statistics read of one Codeforces activity.
#[derive(Debug, Clone)]
pub struct CfRow {
    pub rating: Option<i64>,
    pub difficulty: Option<i64>,
    /// JSON array of tags, as stored.
    pub tags: Option<String>,
}

/// What the statistics read of one LeetCode activity.
#[derive(Debug, Clone)]
pub struct LcRow {
    pub lc_difficulty: Option<String>,
    pub topic: Option<String>,
}

/// Codeforces statistics. The average rating is `rating_sum / rated_count`
/// when `rated_count > 0`.
#[derive(Debug, Clone)]
pub struct CfStats {
    pub total: i64,
    pub rating_sum: i64,
    pub rated_count: i64,
    pub this_week: i64,
    pub this_month: i64,
    /// Ratings below 1200, 1200-1399, 1400-1599, 1600-1799, 1800-1999,
    /// 2000-2199, and 2200 or more.
    pub rating_buckets: [i64; 7],
    /// Difficulties 1 (Easy) to 5 (Insane), clamped into that range.
    pub difficulty_counts: [i64; 5],
    /// The five most used tags with their counts.
    pub top_tags: Vec<(String, usize)>,
}

/// LeetCode statistics.
#[derive(Debug, Clone)]
pub struct LcStats {
    pub total: i64,
    pub easy: i64,
    pub medium: i64,
    pub hard: i64,
    pub this_week: i64,
    pub this_month: i64,
    /// The five most used topics with their counts.
    pub top_topics: Vec<(String, usize)>,
}

/// Note counts.
#[derive(Debug, Clone, Copy)]
pub struct NoteStats {
    pub total: i64,
    pub this_week: i64,
    pub this_month: i64,
}

/// Activity over all platforms.
#[derive(Debug, Clone)]
pub struct OverallStats {
    pub active_days: i64,
    pub first_log_date: Option<String>,
    pub current_streak: i64,
}

/// All statistics, with the number of days they cover (`None` for all time).
#[derive(Debug, Clone)]
pub struct StatsData {
    pub cf: CfStats,
    pub lc: LcStats,
    pub notes: NoteStats,
    pub overall: OverallStats,
    pub days_filter: Option<u32>,
}

/// The rating bucket of a rating.
pub open spec fn bucket_of(r: i64) -> int {
    if r < 1200 {
        0
    } else if r < 1400 {
        1
    } else if r < 1600 {
        2
    } else if r < 1800 {
        3
    } else if r < 2000 {
        4
    } else if r < 2200 {
        5
    } else {
        6
    }
}

/// Sum of the ratings present in `rows`.
pub open spec fn rating_total(rows: Seq<CfRow>) -> int
    decreases rows.len(),
{
    if rows.len() == 0 {
        0
    } else {
        rating_total(rows.drop_last()) + match rows.last().rating {
            Some(r) => r as int,
            None => 0,
        }
    }
}

/// Number of rows with a rating.
pub open spec fn rated_rows(rows: Seq<CfRow>) -> nat
    decreases rows.len(),
{
    if rows.len() == 0 {
        0
    } else {
        rated_rows(rows.drop_last()) + if rows.last().rating is Some {
            1nat
        } else {
            0nat
        }
    }
}

/// Number of rows whose rating falls in bucket `b`.
pub open spec fn bucket_rows(rows: Seq<CfRow>, b: int) -> nat
    decreases rows.len(),
{
    if rows.len() == 0 {
        0
    } else {
        bucket_rows(rows.drop_last(), b) + if rows.last().rating matches Some(r) && bucket_of(r)
            == b {
            1nat
        } else {
            0nat
        }
    }
}

/// Number of rows with a rating `r` such that `lo <= r < hi`.
pub open spec fn ratings_in(rows: Seq<CfRow>, lo: int, hi: int) -> nat {
    rows.filter(|row: CfRow| row.rating matches Some(r) && lo <= r < hi).len()
}

proof fn lemma_bucket_range(rows: Seq<CfRow>, b: int, lo: int, hi: int)
    requires
        forall|r: i64| #[trigger] bucket_of(r) == b <==> lo <= r < hi,
    ensures
        bucket_rows(rows, b) == ratings_in(rows, lo, hi),
    decreases rows.len(),
{
    reveal(Seq::filter);
    if rows.len() > 0 {
        lemma_bucket_range(rows.drop_last(), b, lo, hi);
        match rows.last().rating {
            Some(r) => {
                assert(bucket_of(r) == b <==> lo <= r < hi);
            },
            None => {},
        }
    }
}

/// The rating buckets are the documented ranges: below 1200, 1200-1399,
/// 1400-1599, 1600-1799, 1800-1999, 2000-2199, and 2200 or more; each
/// bucket counts exactly the rows whose rating lies in its range.
pub proof fn lemma_rating_buckets(rows: Seq<CfRow>)
    ensures
        bucket_rows(rows, 0) == ratings_in(rows, i64::MIN as int, 1200),
        bucket_rows(rows, 1) == ratings_in(rows, 1200, 1400),
        bucket_rows(rows, 2) == ratings_in(rows, 1400, 1600),
        bucket_rows(rows, 3) == ratings_in(rows, 1600, 1800),
        bucket_rows(rows, 4) == ratings_in(rows, 1800, 2000),
        bucket_rows(rows, 5) == ratings_in(rows, 2000, 2200),
        bucket_rows(rows, 6) == ratings_in(rows, 2200, i64::MAX as int + 1),
{
    lemma_bucket_range(rows, 0, i64::MIN as int, 1200);
    lemma_bucket_range(rows, 1, 1200, 1400);
    lemma_bucket_range(rows, 2, 1400, 1600);
    lemma_bucket_range(rows, 3, 1600, 1800);
    lemma_bucket_range(rows, 4, 1800, 2000);
    lemma_bucket_range(rows, 5, 2000, 2200);
    lemma_bucket_range(rows, 6, 2200, i64::MAX as int + 1);
}

/// Number of rows whose clamped difficulty is `k + 1`.
pub open spec fn difficulty_rows(rows: Seq<CfRow>, k: int) -> nat
    decreases rows.len(),
{
    if rows.len() == 0 {
        0
    } else {
        difficulty_rows(rows.drop_last(), k) + if rows.last().difficulty matches Some(d)
            && clamped_difficulty(d) - 1 == k {
            1nat
        } else {
            0nat
        }
    }
}

/// Number of rows with a difficulty `d` such that `lo <= d <= hi`.
pub open spec fn difficulties_in(rows: Seq<CfRow>, lo: int, hi: int) -> nat {
    rows.filter(|row: CfRow| row.difficulty matches Some(d) && lo <= d <= hi).len()
}

proof fn lemma_difficulty_range(rows: Seq<CfRow>, k: int, lo: int, hi: int)
    requires
        forall|d: i64| #[trigger] clamped_difficulty(d) - 1 == k <==> lo <= d <= hi,
    ensures
        difficulty_rows(rows, k) == difficulties_in(rows, lo, hi),
    decreases rows.len(),
{
    reveal(Seq::filter);
    if rows.len() > 0 {
        lemma_difficulty_range(rows.drop_last(), k, lo, hi);
        match rows.last().difficulty {
            Some(d) => {
                assert(clamped_difficulty(d) - 1 == k <==> lo <= d <= hi);
            },
            None => {},
        }
    }
}

/// The difficulty counts are for 1 (Easy) to 5 (Insane), a difficulty below
/// 1 counted as 1 and one above 5 as 5.
pub proof fn lemma_difficulty_counts(rows: Seq<CfRow>)
    ensures
        difficulty_rows(rows, 0) == difficulties_in(rows, i64::MIN as int, 1),
        difficulty_rows(rows, 1) == difficulties_in(rows, 2, 2),
        difficulty_rows(rows, 2) == difficulties_in(rows, 3, 3),
        difficulty_rows(rows, 3) == difficulties_in(rows, 4, 4),
        difficulty_rows(rows, 4) == difficulties_in(rows, 5, i64::MAX as int),
{
    lemma_difficulty_range(rows, 0, i64::MIN as int, 1);
    lemma_difficulty_range(rows, 1, 2, 2);
    lemma_difficulty_range(rows, 2, 3, 3);
    lemma_difficulty_range(rows, 3, 4, 4);
    lemma_difficulty_range(rows, 4, 5, i64::MAX as int);
}

/// All tags of the rows, row by row.
pub open spec fn cf_tags(rows: Seq<CfRow>) -> Seq<Seq<char>>
    decreases rows.len(),
{
    if rows.len() == 0 {
        Seq::empty()
    } else {
        cf_tags(rows.drop_last()) + tags_of_field(opt_view(rows.last().tags))
    }
}

/// Whether every prefix sum of the ratings fits in an `i64`.
pub open spec fn ratings_fit(rows: Seq<CfRow>) -> bool {
    forall|k: int| 0 <= k <= rows.len() ==> i64::MIN <= #[trigger] rating_total(rows.take(k)) <= i64::MAX
}

proof fn lemma_row_counts_bound(rows: Seq<CfRow>, b: int)
    ensures
        bucket_rows(rows, b) <= rows.len(),
        difficulty_rows(rows, b) <= rows.len(),
        rated_rows(rows) <= rows.len(),
    decreases rows.len(),
{
    if rows.len() > 0 {
        lemma_row_counts_bound(rows.drop_last(), b);
    }
}

/// Codeforces statistics over `rows`; the week and month counts are passed
/// through.
pub fn tally_cf(rows: &Vec<CfRow>, this_week: i64, this_month: i64) -> (st: CfStats)
    requires
        rows.len() <= i64::MAX,
        ratings_fit(rows@),
    ensures
        st.total == rows.len(),
        st.rating_sum == rating_total(rows@),
        st.rated_count == rated_rows(rows@),
        st.this_week == this_week,
        st.this_month == this_month,
        forall|b: int| 0 <= b < 7 ==> st.rating_buckets@[b] == bucket_rows(rows@, b),
        st.rating_buckets@[0] == ratings_in(rows@, i64::MIN as int, 1200),
        st.rating_buckets@[1] == ratings_in(rows@, 1200, 1400),
        st.rating_buckets@[2] == ratings_in(rows@, 1400, 1600),
        st.rating_buckets@[3] == ratings_in(rows@, 1600, 1800),
        st.rating_buckets@[4] == ratings_in(rows@, 1800, 2000),
        st.rating_buckets@[5] == ratings_in(rows@, 2000, 2200),
        st.rating_buckets@[6] == ratings_in(rows@, 2200, i64::MAX as int + 1),
        st.difficulty_counts@[0] == difficulties_in(rows@, i64::MIN as int, 1),
        st.difficulty_counts@[1] == difficulties_in(rows@, 2, 2),
        st.difficulty_counts@[2] == difficulties_in(rows@, 3, 3),
        st.difficulty_counts@[3] == difficulties_in(rows@, 4, 4),
        st.difficulty_counts@[4] == difficulties_in(rows@, 5, i64::MAX as int),
        forall|k: int| 0 <= k < 5 ==> st.difficulty_counts@[k] == difficulty_rows(rows@, k),
        is_top_counts(entries_view(st.top_tags@), cf_tags(rows@), 5),
{
    let mut total: i64 = 0;
    let mut sum: i64 = 0;
    let mut rated: i64 = 0;
    let mut buckets: [i64; 7] = [0i64; 7];
    let mut diffs: [i64; 5] = [0i64; 5];
    let mut all: Vec<String> = Vec::new();
    let mut i: usize = 0;
    while i < rows.len()
        invariant
            i <= rows.len() <= i64::MAX,
            ratings_fit(rows@),
            total == i,
            sum == rating_total(rows@.take(i as int)),
            rated == rated_rows(rows@.take(i as int)),
            forall|b: int| 0 <= b < 7 ==> buckets@[b] == bucket_rows(rows@.take(i as int), b),
            forall|k: int| 0 <= k < 5 ==> diffs@[k] == difficulty_rows(rows@.take(i as int), k),
            views(all@) == cf_tags(rows@.take(i as int)),
        decreases rows.len() - i,
    {
        let ghost pre = rows@.take(i as int);
        let ghost post = rows@.take(i + 1);
        assert(post.drop_last() =~= pre);
        assert(post.last() == rows@[i as int]);
        proof {
            lemma_row_counts_bound(pre, 0);
            assert forall|b: int| 0 <= b < 7 implies bucket_rows(pre, b) <= i by {
                lemma_row_counts_bound(pre, b);
            }
            assert forall|b: int| 0 <= b < 5 implies difficulty_rows(pre, b) <= i by {
                lemma_row_counts_bound(pre, b);
            }
        }
        let row = &rows[i];
        total = total + 1;
        match row.rating {
            Some(r) => {
                assert(rating_total(post) == sum + r);
                assert(i64::MIN <= rating_total(rows@.take(i + 1)) <= i64::MAX);
                sum = sum + r;
                rated = rated + 1;
                let b: usize = if r < 1200 {
                    0
                } else if r < 1400 {
                    1
                } else if r < 1600 {
                    2
                } else if r < 1800 {
                    3
                } else if r < 2000 {
                    4
                } else if r < 2200 {
                    5
                } else {
                    6
                };
                assert(b == bucket_of(r));
                let c = buckets[b] + 1;
                buckets.set(b, c);
            },
            None => {},
        }
        match row.difficulty {
            Some(d) => {
                let k: usize = if d < 1 {
                    0
                } else if d > 5 {
                    4
                } else {
                    (d - 1) as usize
                };
                assert(k == clamped_difficulty(d) - 1);
                let c = diffs[k] + 1;
                diffs.set(k, c);
            },
            None => {},
        }
        let ts = tags_from_field(&row.tags);
        let ghost before = views(all@);
        let mut j: usize = 0;
        while j < ts.len()
            invariant
                j <= ts.len(),
                views(all@) == before + views(ts@).take(j as int),
            decreases ts.len() - j,
        {
            let ghost old_all = all@;
            all.push(ts[j].clone());
            assert(views(all@) =~= views(old_all).push(ts@[j as int]@));
            assert(views(ts@).take(j + 1) =~= views(ts@).take(j as int).push(ts@[j as int]@));
            assert(views(all@) =~= before + views(ts@).take(j + 1));
            j += 1;
        }
        assert(views(ts@).take(ts.len() as int) =~= views(ts@));
        assert(cf_tags(post) =~= cf_tags(pre) + tags_of_field(opt_view(rows@[i as int].tags)));
        i += 1;
    }
    assert(rows@.take(rows.len() as int) =~= rows@);
    proof {
        lemma_rating_buckets(rows@);
        lemma_difficulty_counts(rows@);
    }
    let freq = frequencies(&all);
    let top = top_counts(&freq, 5, Ghost(views(all@)));
    CfStats {
        total,
        rating_sum: sum,
        rated_count: rated,
        this_week,
        this_month,
        rating_buckets: buckets,
        difficulty_counts: diffs,
        top_tags: top,
    }
}

/// The non-empty topics of the rows, in order.
pub open spec fn lc_topics(rows: Seq<LcRow>) -> Seq<Seq<char>>
    decreases rows.len(),
{
    if rows.len() == 0 {
        Seq::empty()
    } else {
        lc_topics(rows.drop_last()) + match rows.last().topic {
            Some(t) => if t@.len() > 0 {
                seq![t@]
            } else {
                Seq::empty()
            },
            None => Seq::empty(),
        }
    }
}

/// Number of rows whose LeetCode difficulty is exactly `name`.
pub open spec fn lc_rows_with(rows: Seq<LcRow>, name: Seq<char>) -> nat
    decreases rows.len(),
{
    if rows.len() == 0 {
        0
    } else {
        lc_rows_with(rows.drop_last(), name) + if rows.last().lc_difficulty matches Some(d) && d@
            == name {
            1nat
        } else {
            0nat
        }
    }
}

proof fn lemma_lc_rows_bound(rows: Seq<LcRow>, name: Seq<char>)
    ensures
        lc_rows_with(rows, name) <= rows.len(),
    decreases rows.len(),
{
    if rows.len() > 0 {
        lemma_lc_rows_bound(rows.drop_last(), name);
    }
}

/// LeetCode statistics over `rows`; the week and month counts are passed
/// through.
pub fn tally_lc(rows: &Vec<LcRow>, this_week: i64, this_month: i64) -> (st: LcStats)
    requires
        rows.len() <= i64::MAX,
    ensures
        st.total == rows.len(),
        st.easy == lc_rows_with(rows@, "Easy"@),
        st.medium == lc_rows_with(rows@, "Medium"@),
        st.hard == lc_rows_with(rows@, "Hard"@),
        st.this_week == this_week,
        st.this_month == this_month,
        is_top_counts(entries_view(st.top_topics@), lc_topics(rows@), 5),
{
    let mut total: i64 = 0;
    let mut easy: i64 = 0;
    let mut medium: i64 = 0;
    let mut hard: i64 = 0;
    let mut topics: Vec<String> = Vec::new();
    let mut i: usize = 0;
    while i < rows.len()
        invariant
            i <= rows.len() <= i64::MAX,
            total == i,
            easy == lc_rows_with(rows@.take(i as int), "Easy"@),
            medium == lc_rows_with(rows@.take(i as int), "Medium"@),
            hard == lc_rows_with(rows@.take(i as int), "Hard"@),
            views(topics@) == lc_topics(rows@.take(i as int)),
        decreases rows.len() - i,
    {
        let ghost pre = rows@.take(i as int);
        let ghost post = rows@.take(i + 1);
        assert(post.drop_last() =~= pre);
        assert(post.last() == rows@[i as int]);
        proof {
            lemma_lc_rows_bound(pre, "Easy"@);
            lemma_lc_rows_bound(pre, "Medium"@);
            lemma_lc_rows_bound(pre, "Hard"@);
        }
        proof {
            reveal_strlit("Easy");
            reveal_strlit("Medium");
            reveal_strlit("Hard");
            assert("Easy"@.len() == 4 && "Medium"@.len() == 6 && "Hard"@.len() == 4);
            assert("Easy"@[0] != "Hard"@[0]);
            assert("Easy"@ != "Medium"@ && "Easy"@ != "Hard"@ && "Medium"@ != "Hard"@);
        }
        let row = &rows[i];
        total = total + 1;
        match &row.lc_difficulty {
            Some(d) => {
                if same_text(d.as_str(), "Easy") {
                    easy = easy + 1;
                } else if same_text(d.as_str(), "Medium") {
                    medium = medium + 1;
                } else if same_text(d.as_str(), "Hard") {
                    hard = hard + 1;
                }
            },
            None => {},
        }
        let ghost before = views(topics@);
        match &row.topic {
            Some(t) => {
                if !t.as_str().is_empty() {
                    topics.push(t.clone());
                    assert(views(topics@) =~= before.push(t@));
                }
            },
            None => {},
        }
        assert(lc_topics(post) =~= views(topics@));
        i += 1;
    }
    assert(rows@.take(rows.len() as int) =~= rows@);
    let freq = frequencies(&topics);
    let top = top_counts(&freq, 5, Ghost(views(topics@)));
    LcStats { total, easy, medium, hard, this_week, this_month, top_topics: top }
}

/// The condition that limits a query to the last `days` days, today
/// included (the dates from `days - 1` days before today on), or nothing for
/// all time.
pub open spec fn date_clause_of(days: Option<u32>) -> Seq<char> {
    match days {
        Some(n) => "AND date >= date('now', '"@ + int_text(1 - n) + " days')"@,
        None => Seq::empty(),
    }
}

/// The condition that limits a query to the last `days` days, today
/// included, or nothing for all time.
pub fn date_clause(days: Option<u32>) -> (r: String)
    ensures
        r@ == date_clause_of(days),
{
    match days {
        Some(n) => {
            let mut s = String::new();
            s.append("AND date >= date('now', '");
            let t = i64_text(1 - (n as i64));
            s.append(t.as_str());
            s.append(" days')");
            s
        },
        None => String::new(),
    }
}

/// Whether an optional day number is day `d`.
pub open spec fn is_day(o: Option<i64>, d: int) -> bool {
    match o {
        Some(x) => x == d,
        None => false,
    }
}

/// Whether some date of `dates` reads as day `d`.
pub open spec fn is_active_day(dates: Seq<Seq<char>>, d: int) -> bool {
    exists|i: int| 0 <= i < dates.len() && is_day(#[trigger] day_number_of(dates[i]), d)
}

/// The day a streak counts back from: today when it is active, else
/// yesterday when it is, else none.
pub open spec fn streak_start(dates: Seq<Seq<char>>, today: int) -> Option<int> {
    if is_active_day(dates, today) {
        Some(today)
    } else if is_active_day(dates, today - 1) {
        Some(today - 1)
    } else {
        None
    }
}

/// `k` is the current streak: the number of consecutive active days ending
/// at the streak start (0 when there is no start).
pub open spec fn is_streak(dates: Seq<Seq<char>>, today: int, k: int) -> bool {
    match streak_start(dates, today) {
        None => k == 0,
        Some(s) => {
            &&& k >= 1
            &&& forall|d: int| s - k < d <= s ==> #[trigger] is_active_day(dates, d)
            &&& !is_active_day(dates, s - k)
        },
    }
}

fn contains_i64(v: &Vec<i64>, x: i64) -> (b: bool)
    ensures
        b == v@.contains(x),
{
    let mut i: usize = 0;
    while i < v.len()
        invariant
            i <= v.len(),
            forall|k: int| 0 <= k < i ==> v@[k] != x,
        decreases v.len() - i,
    {
        if v[i] == x {
            assert(v@[i as int] == x);
            return true;
        }
        i += 1;
    }
    false
}

/// The current streak: consecutive days with activity, counted back from
/// today (day number `today`) or, when today has none, from yesterday.
/// Dates that are not `YYYY-MM-DD` are ignored.
pub fn compute_streak(dates: &Vec<String>, today: i64) -> (k: i64)
    requires
        i32::MIN <= today <= i32::MAX,
    ensures
        is_streak(views(dates@), today as int, k as int),
{
    let ghost dv = views(dates@);
    let mut days: Vec<i64> = Vec::new();
    let mut i: usize = 0;
    while i < dates.len()
        invariant
            i <= dates.len(),
            dv == views(dates@),
            forall|k: int| 0 <= k < days.len() ==> i32::MIN <= #[trigger] days@[k] <= i32::MAX,
            forall|x: int| days@.contains(x as i64) && i32::MIN <= x <= i32::MAX <==> is_active_day(
                dv.take(i as int),
                x,
            ),
            forall|x: int| #[trigger] is_active_day(dv.take(i as int), x) ==> i32::MIN <= x <= i32::MAX,
        decreases dates.len() - i,
    {
        let ghost pre = dv.take(i as int);
        let ghost post = dv.take(i + 1);
        let d = day_number(dates[i].as_str());
        assert(post[i as int] == dates@[i as int]@);
        let ghost old_days = days@;
        match d {
            Some(n) => {
                days.push(n);
            },
            None => {},
        }
        assert forall|x: int| #[trigger] is_active_day(post, x) == (is_active_day(pre, x) || is_day(d, x)) by {
            if is_active_day(post, x) {
                let j = choose|j: int| 0 <= j < post.len() && is_day(#[trigger] day_number_of(post[j]), x);
                if j < i {
                    assert(pre[j] == post[j]);
                }
            }
            if is_active_day(pre, x) {
                let j = choose|j: int| 0 <= j < pre.len() && is_day(#[trigger] day_number_of(pre[j]), x);
                assert(pre[j] == post[j]);
            }
            if is_day(d, x) {
                assert(day_number_of(post[i as int]) == d);
            }
        }
        assert forall|x: int| days@.contains(x as i64) && i32::MIN <= x <= i32::MAX <==> is_active_day(post, x) by {
            if days@.contains(x as i64) && i32::MIN <= x <= i32::MAX {
                let k = choose|k: int| 0 <= k < days@.len() && days@[k] == x as i64;
                if k < old_days.len() {
                    assert(old_days[k] == x as i64);
                    assert(old_days.contains(x as i64));
                }
            }
            if is_active_day(pre, x) {
                let k = choose|k: int| 0 <= k < old_days.len() && old_days[k] == x as i64;
                assert(days@[k] == x as i64);
            }
            if is_day(d, x) {
                assert(days@[days@.len() - 1] == x);
            }
        }
        i += 1;
    }
    assert(dv.take(dates.len() as int) =~= dv);
    let start: i64;
    if contains_i64(&days, today) {
        start = today;
    } else if contains_i64(&days, today - 1) {
        assert(!is_active_day(dv, today as int));
        start = today - 1;
    } else {
        assert(!is_active_day(dv, today as int));
        assert(!is_active_day(dv, today - 1)) by {
            if is_active_day(dv, today - 1) {
                assert(today - 1 >= i32::MIN);
            }
        }
        return 0;
    }
    let mut lo: i64 = days[0];
    let mut m: usize = 1;
    while m < days.len()
        invariant
            1 <= m <= days.len(),
            forall|k: int| 0 <= k < m ==> lo <= #[trigger] days@[k],
            forall|k: int| 0 <= k < days.len() ==> i32::MIN <= #[trigger] days@[k] <= i32::MAX,
            i32::MIN <= lo <= i32::MAX,
        decreases days.len() - m,
    {
        if days[m] < lo {
            lo = days[m];
        }
        m += 1;
    }
    assert(days@.contains(start));
    let ghost w = choose|k: int| 0 <= k < days@.len() && days@[k] == start;
    assert(lo <= days@[w]);
    let mut streak: i64 = 0;
    let mut cur: i64 = start;
    while cur >= lo && contains_i64(&days, cur)
        invariant
            i32::MIN <= lo <= start <= i32::MAX,
            cur == start - streak,
            lo - 1 <= cur <= start,
            forall|k: int| 0 <= k < days.len() ==> lo <= #[trigger] days@[k] <= i32::MAX,
            forall|x: int| start - streak < x <= start ==> #[trigger] is_active_day(dv, x),
            forall|x: int| days@.contains(x as i64) && i32::MIN <= x <= i32::MAX <==> is_active_day(dv, x),
        decreases cur - lo + 1,
    {
        assert(is_active_day(dv, cur as int));
        streak = streak + 1;
        cur = cur - 1;
    }
    assert(!is_active_day(dv, start - streak)) by {
        if is_active_day(dv, start - streak) {
            assert(days@.contains(cur));
            let k = choose|k: int| 0 <= k < days@.len() && days@[k] == cur;
            assert(lo <= days@[k]);
        }
    }
    assert(streak >= 1) by {
        assert(days@.contains(start));
    }
    streak
}

/// Activity over all platforms, from the distinct active dates in ascending
/// order and today's day number.
pub fn overall_stats(active_dates: &Vec<String>, today: i64) -> (o: OverallStats)
    requires
        i32::MIN <= today <= i32::MAX,
    ensures
        o.active_days == active_dates.len() as i64,
        opt_view(o.first_log_date) == (if active_dates.len() > 0 {
            Some(active_dates@[0]@)
        } else {
            None
        }),
        is_streak(views(active_dates@), today as int, o.current_streak as int),
{
    let first = if active_dates.len() > 0 {
        Some(active_dates[0].clone())
    } else {
        None
    };
    OverallStats {
        active_days: active_dates.len() as i64,
        first_log_date: first,
        current_streak: compute_streak(active_dates, today),
    }
}

} // verus!
