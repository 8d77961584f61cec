//! Decimal text of `i64` values: the format that `i64::to_string` writes and
//! the one that `str::parse::<i64>` accepts.

use vstd::prelude::*;

verus! {

/// The ASCII character of the decimal digit `d`.
pub open spec fn digit_char(d: nat) -> char {
    (d + 48) as char
}

/// Whether `c` is an ASCII decimal digit.
pub open spec fn is_digit(c: char) -> bool {
    48 <= c as u32 <= 57
}

/// Whether every character of `s` is an ASCII decimal digit.
pub open spec fn all_digits(s: Seq<char>) -> bool {
    forall|i: int| 0 <= i < s.len() ==> is_digit(#[trigger] s[i])
}

/// The decimal digits of `n`, without leading zeros.
pub open spec fn digits_of(n: nat) -> Seq<char>
    decreases n,
{
    if n < 10 {
        seq![digit_char(n)]
    } else {
        digits_of(n / 10).push(digit_char(n % 10))
    }
}

/// The decimal text of `n`, with a leading `-` when it is negative.
pub open spec fn int_text(n: int) -> Seq<char> {
    if n < 0 {
        seq!['-'] + digits_of((-n) as nat)
    } else {
        digits_of(n as nat)
    }
}

/// The number that the decimal digits `s` denote.
pub open spec fn digits_value(s: Seq<char>) -> int
    decreases s.len(),
{
    if s.len() == 0 {
        0
    } else {
        digits_value(s.drop_last()) * 10 + (s.last() as u32 - 48)
    }
}

/// What the text `s` denotes as a signed decimal integer: an optional `+` or
/// `-`, then one or more ASCII digits; `None` for any other text.
pub open spec fn parse_int(s: Seq<char>) -> Option<int> {
    if s.len() == 0 {
        None
    } else {
        let signed = s[0] == '+' || s[0] == '-';
        let ds = if signed { s.drop_first() } else { s };
        if ds.len() == 0 || !all_digits(ds) {
            None
        } else if s[0] == '-' {
            Some(-digits_value(ds))
        } else {
            Some(digits_value(ds))
        }
    }
}

/// What `str::parse::<i64>` gives for `s`: the denoted integer when it fits
/// in `i64`, else `None`.
pub open spec fn parse_i64_spec(s: Seq<char>) -> Option<i64> {
    match parse_int(s) {
        Some(v) => if i64::MIN <= v <= i64::MAX {
            Some(v as i64)
        } else {
            None
        },
        None => None,
    }
}

fn digit_char_exec(d: u64) -> (c: char)
    requires
        d < 10,
    ensures
        c == digit_char(d as nat),
{
    (d as u8 + 48) as char
}

fn digits_text(m: u64) -> (v: Vec<char>)
    ensures
        v@ == digits_of(m as nat),
    decreases m,
{
    if m < 10 {
        let mut v = Vec::new();
        v.push(digit_char_exec(m));
        v
    } else {
        let mut v = digits_text(m / 10);
        v.push(digit_char_exec(m % 10));
        v
    }
}

/// The decimal text of `n` (what `n.to_string()` gives).
pub fn i64_text(n: i64) -> (s: String)
    ensures
        s@ == int_text(n as int),
{
    let mut s = String::new();
    let mag: u64 = if n < 0 {
        let w: i128 = -(n as i128);
        w as u64
    } else {
        n as u64
    };
    if n < 0 {
        crate::text::push_char(&mut s, '-');
    }
    let ds = digits_text(mag);
    let t = crate::text::string_of(&ds);
    s.append(t.as_str());
    assert(s@ =~= int_text(n as int));
    s
}

proof fn lemma_digits_value_mono(s: Seq<char>, k: int)
    requires
        0 <= k <= s.len(),
        all_digits(s),
    ensures
        0 <= digits_value(s.take(k)) <= digits_value(s),
    decreases s.len() - k,
{
    if k < s.len() {
        lemma_digits_value_mono(s, k + 1);
        assert(s.take(k + 1).drop_last() =~= s.take(k));
        assert(is_digit(s[k]));
    } else {
        assert(s.take(k) =~= s);
        lemma_digits_value_nonneg(s);
    }
}

proof fn lemma_digits_value_nonneg(s: Seq<char>)
    requires
        all_digits(s),
    ensures
        0 <= digits_value(s),
    decreases s.len(),
{
    if s.len() > 0 {
        assert(all_digits(s.drop_last())) by {
            assert forall|i: int| 0 <= i < s.drop_last().len() implies is_digit(
                #[trigger] s.drop_last()[i],
            ) by {
                assert(s.drop_last()[i] == s[i]);
            }
        }
        lemma_digits_value_nonneg(s.drop_last());
        assert(is_digit(s[s.len() - 1]));
    }
}

/// The value of the decimal text `s` as an `i64` (what `s.parse::<i64>().ok()`
/// gives).
pub fn parse_i64(s: &str) -> (r: Option<i64>)
    ensures
        r == parse_i64_spec(s@),
{
    let v = crate::text::chars_of(s);
    parse_i64_chars(&v)
}

/// The value of the decimal text `v` as an `i64`.
pub fn parse_i64_chars(v: &Vec<char>) -> (r: Option<i64>)
    ensures
        r == parse_i64_spec(v@),
{
    let n = v.len();
    if n == 0 {
        return None;
    }
    let signed = v[0] == '+' || v[0] == '-';
    let neg = v[0] == '-';
    let start: usize = if signed { 1 } else { 0 };
    let ghost ds = if signed { v@.drop_first() } else { v@ };
    assert(ds =~= v@.skip(start as int));
    if start == n {
        return None;
    }
    let mut acc: i128 = 0;
    let mut i: usize = start;
    let ghost limit: int = 0x8000_0000_0000_0000;
    while i < n
        invariant
            start <= i <= n == v.len(),
            n > 0,
            signed == (v@[0] == '+' || v@[0] == '-'),
            neg == (v@[0] == '-'),
            start == (if signed { 1usize } else { 0usize }),
            ds == (if signed { v@.drop_first() } else { v@ }),
            ds == v@.skip(start as int),
            all_digits(ds.take(i - start)),
            acc == digits_value(ds.take(i - start)),
            0 <= acc <= limit,
            limit == 0x8000_0000_0000_0000,
        decreases n - i,
    {
        let c = v[i];
        let cv = c as u32;
        if cv < 48 || cv > 57 {
            assert(!all_digits(ds)) by {
                assert(ds[i - start] == c);
            }
            return None;
        }
        let d: i128 = (cv - 48) as i128;
        assert(ds.take(i - start + 1).drop_last() =~= ds.take(i - start));
        assert(ds.take(i - start + 1).last() == c);
        let next = acc * 10 + d;
        assert(all_digits(ds.take(i - start + 1))) by {
            assert forall|k: int| 0 <= k < ds.take(i - start + 1).len() implies is_digit(
                #[trigger] ds.take(i - start + 1)[k],
            ) by {
                if k < i - start {
                    assert(ds.take(i - start + 1)[k] == ds.take(i - start)[k]);
                }
            }
        }
        if next > 0x8000_0000_0000_0000 {
            proof {
                if all_digits(ds) {
                    lemma_digits_value_mono(ds, i - start + 1);
                }
            }
            return None;
        }
        acc = next;
        i += 1;
    }
    assert(ds.take(n - start) =~= ds);
    if neg {
        let val: i128 = -acc;
        Some(val as i64)
    } else if acc <= 0x7fff_ffff_ffff_ffff {
        Some(acc as i64)
    } else {
        None
    }
}

pub proof fn lemma_digits_of(m: nat)
    ensures
        digits_of(m).len() > 0,
        all_digits(digits_of(m)),
        digits_value(digits_of(m)) == m,
    decreases m,
{
    if m >= 10 {
        lemma_digits_of(m / 10);
        let d = digits_of(m);
        assert(d.drop_last() =~= digits_of(m / 10));
        assert(d.last() == digit_char(m % 10));
        assert(digit_char(m % 10) as u32 == m % 10 + 48);
        assert((m / 10) * 10 + m % 10 == m);
        assert(digits_value(d) == digits_value(d.drop_last()) * 10 + (d.last() as u32 - 48));
        assert(digits_value(d.drop_last()) == m / 10);
        assert(digits_value(d) == m);
        assert forall|i: int| 0 <= i < d.len() implies is_digit(#[trigger] d[i]) by {
            if i < d.len() - 1 {
                assert(d[i] == digits_of(m / 10)[i]);
            }
        }
    } else {
        let d = digits_of(m);
        assert(d.drop_last() =~= Seq::<char>::empty());
        assert(digit_char(m) as u32 == m + 48);
        assert(d.last() == digit_char(m));
        assert(digits_value(d.drop_last()) == 0);
        assert(digits_value(d) == digits_value(d.drop_last()) * 10 + (d.last() as u32 - 48));
    }
}

/// Reading back the decimal text of an `i64` gives the same number: what
/// `i64_text` writes, `parse_i64` reads back unchanged.
pub proof fn lemma_parse_i64_text(n: i64)
    ensures
        parse_i64_spec(int_text(n as int)) == Some(n),
{
    if n < 0 {
        let m = (-n) as nat;
        lemma_digits_of(m);
        let t = int_text(n as int);
        assert(t.drop_first() =~= digits_of(m));
    } else {
        lemma_digits_of(n as nat);
        let d = digits_of(n as nat);
        assert(is_digit(d[0]));
    }
}

/// The decimal text of an integer is not empty and holds only digits, but
/// for a leading minus sign.
pub proof fn lemma_int_text_chars(n: int)
    ensures
        int_text(n).len() > 0,
        forall|i: int|
            0 <= i < int_text(n).len() ==> is_digit(#[trigger] int_text(n)[i]) || (i == 0
                && int_text(n)[i] == '-'),
{
    if n < 0 {
        lemma_digits_of((-n) as nat);
        let t = int_text(n);
        assert forall|i: int| 0 <= i < t.len() implies is_digit(#[trigger] t[i]) || (i == 0 && t[i]
            == '-') by {
            if i > 0 {
                assert(t[i] == digits_of((-n) as nat)[i - 1]);
            }
        }
    } else {
        lemma_digits_of(n as nat);
    }
}

} // verus!
