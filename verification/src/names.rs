//! The order in which checkpoint names are listed: the order of text,
//! character by character by code point, a prefix before what extends it.

use vstd::prelude::*;
use vstd::relations::sorted_by;
use crate::text::{chars_of, views};

verus! {

/// `a` comes no later than `b` in the order of text.
pub open spec fn text_le(a: Seq<char>, b: Seq<char>) -> bool
    decreases a.len(),
{
    if a.len() == 0 {
        true
    } else if b.len() == 0 {
        false
    } else if a[0] == b[0] {
        text_le(a.drop_first(), b.drop_first())
    } else {
        a[0] < b[0]
    }
}

/// Any two texts are ordered one way or the other.
pub proof fn lemma_text_le_total(a: Seq<char>, b: Seq<char>)
    ensures
        text_le(a, b) || text_le(b, a),
    decreases a.len(),
{
    if a.len() > 0 && b.len() > 0 && a[0] == b[0] {
        lemma_text_le_total(a.drop_first(), b.drop_first());
    }
}

/// The order of text is transitive.
pub proof fn lemma_text_le_transitive(a: Seq<char>, b: Seq<char>, c: Seq<char>)
    requires
        text_le(a, b),
        text_le(b, c),
    ensures
        text_le(a, c),
    decreases a.len(),
{
    if a.len() > 0 && b.len() > 0 && c.len() > 0 && a[0] == b[0] && b[0] == c[0] {
        lemma_text_le_transitive(a.drop_first(), b.drop_first(), c.drop_first());
    }
}

/// Two texts ordered both ways are equal.
pub proof fn lemma_text_le_antisymmetric(a: Seq<char>, b: Seq<char>)
    requires
        text_le(a, b),
        text_le(b, a),
    ensures
        a == b,
    decreases a.len(),
{
    if a.len() > 0 && b.len() > 0 && a[0] == b[0] {
        lemma_text_le_antisymmetric(a.drop_first(), b.drop_first());
        assert forall|i: int| 0 <= i < a.len() implies a[i] == b[i] by {
            if i > 0 {
                assert(a[i] == a.drop_first()[i - 1]);
                assert(b[i] == b.drop_first()[i - 1]);
            }
        }
        assert(a =~= b);
    }
}

/// Whether `a` comes no later than `b` in the order of text.
pub fn text_at_most(a: &str, b: &str) -> (r: bool)
    ensures
        r == text_le(a@, b@),
{
    let v = chars_of(a);
    let w = chars_of(b);
    let mut i: usize = 0;
    assert(v@.skip(0) =~= v@ && w@.skip(0) =~= w@);
    while i < v.len() && i < w.len() && v[i] == w[i]
        invariant
            i <= v.len(),
            i <= w.len(),
            text_le(v@, w@) == text_le(v@.skip(i as int), w@.skip(i as int)),
        decreases v.len() - i,
    {
        let ghost vs = v@.skip(i as int);
        let ghost ws = w@.skip(i as int);
        assert(vs.drop_first() =~= v@.skip(i + 1));
        assert(ws.drop_first() =~= w@.skip(i + 1));
        i += 1;
    }
    if i == v.len() {
        true
    } else if i == w.len() {
        false
    } else {
        v[i] < w[i]
    }
}

/// `names` in the order of text: the same names, each as often, in order.
pub fn sorted_names(names: Vec<String>) -> (r: Vec<String>)
    ensures
        views(r@).to_multiset() == views(names@).to_multiset(),
        sorted_by(views(r@), |a: Seq<char>, b: Seq<char>| text_le(a, b)),
{
    let mut r: Vec<String> = Vec::new();
    let mut i: usize = 0;
    assert(views(r@) =~= views(names@.take(0)));
    while i < names.len()
        invariant
            i <= names.len(),
            views(r@).to_multiset() == views(names@.take(i as int)).to_multiset(),
            forall|a: int, b: int|
                0 <= a < b < r.len() ==> text_le(#[trigger] r@[a]@, #[trigger] r@[b]@),
        decreases names.len() - i,
    {
        let x = names[i].clone();
        let mut p: usize = 0;
        while p < r.len() && text_at_most(r[p].as_str(), x.as_str())
            invariant
                p <= r.len(),
                forall|k: int| 0 <= k < p ==> text_le(#[trigger] r@[k]@, x@),
            decreases r.len() - p,
        {
            p += 1;
        }
        proof {
            if p < r.len() {
                lemma_text_le_total(r@[p as int]@, x@);
                assert forall|k: int| p <= k < r.len() implies text_le(x@, #[trigger] r@[k]@) by {
                    if k > p {
                        lemma_text_le_transitive(x@, r@[p as int]@, r@[k]@);
                    }
                }
            }
        }
        let ghost old_r = r@;
        r.insert(p, x);
        proof {
            assert(views(r@) =~= views(old_r).insert(p as int, names@[i as int]@));
            vstd::seq_lib::to_multiset_insert(views(old_r), p as int, names@[i as int]@);
            assert(views(names@.take(i + 1)) =~= views(names@.take(i as int)).push(
                names@[i as int]@,
            ));
            vstd::seq_lib::to_multiset_build(views(names@.take(i as int)), names@[i as int]@);
            assert forall|a: int, b: int| 0 <= a < b < r.len() implies text_le(
                #[trigger] r@[a]@,
                #[trigger] r@[b]@,
            ) by {
                if b < p {
                    assert(r@[a] == old_r[a] && r@[b] == old_r[b]);
                } else if b == p {
                    assert(r@[a] == old_r[a]);
                } else if a == p {
                    assert(r@[b] == old_r[b - 1]);
                } else if a < p {
                    assert(r@[a] == old_r[a] && r@[b] == old_r[b - 1]);
                    lemma_text_le_transitive(old_r[a]@, x@, old_r[b - 1]@);
                } else {
                    assert(r@[a] == old_r[a - 1] && r@[b] == old_r[b - 1]);
                }
            }
        }
        i += 1;
    }
    assert(names@.take(names.len() as int) =~= names@);
    r
}

} // verus!
