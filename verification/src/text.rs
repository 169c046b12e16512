//! Text utilities of the evaluation core: decimal rendering and parsing of
//! integers, and character-wise string comparison. The decimal forms are
//! pinned down by spec functions ([`int_text`], [`parse_int_text`]) that the
//! executable functions are proved to realise.

use vstd::prelude::*;
use vstd::seq::axiom_seq_subrange_decreases;

verus! {

/// The decimal digit character for `d` (which must be below ten).
pub open spec fn digit_char(d: int) -> char {
    if d == 0 { '0' }
    else if d == 1 { '1' }
    else if d == 2 { '2' }
    else if d == 3 { '3' }
    else if d == 4 { '4' }
    else if d == 5 { '5' }
    else if d == 6 { '6' }
    else if d == 7 { '7' }
    else if d == 8 { '8' }
    else { '9' }
}

/// The numeric value of a decimal digit character, or `-1` if `c` is no
/// digit.
pub open spec fn digit_val(c: char) -> int {
    if c == '0' { 0 }
    else if c == '1' { 1 }
    else if c == '2' { 2 }
    else if c == '3' { 3 }
    else if c == '4' { 4 }
    else if c == '5' { 5 }
    else if c == '6' { 6 }
    else if c == '7' { 7 }
    else if c == '8' { 8 }
    else if c == '9' { 9 }
    else { -1 }
}

/// Whether every character of `s` is a decimal digit.
pub open spec fn all_digits(s: Seq<char>) -> bool {
    forall|i: int| 0 <= i < s.len() ==> digit_val(#[trigger] s[i]) >= 0
}

/// The numeric value of a digit string, read most significant first.
pub open spec fn digits_value(s: Seq<char>) -> int
    decreases s,
{
    if s.len() == 0 {
        0
    } else {
        proof {
            axiom_seq_subrange_decreases::<char>(s, 0, s.len() - 1);
        }
        digits_value(s.drop_last()) * 10 + digit_val(s.last())
    }
}

/// The decimal digit string of a nonnegative integer, without sign.
pub open spec fn dec_digits(n: int) -> Seq<char>
    decreases n,
{
    if n < 10 {
        seq![digit_char(n)]
    } else {
        dec_digits(n / 10).push(digit_char(n % 10))
    }
}

/// The decimal text of an integer, with a leading minus sign if negative.
pub open spec fn int_text(i: int) -> Seq<char> {
    if i < 0 {
        seq!['-'] + dec_digits(-i)
    } else {
        dec_digits(i)
    }
}

/// What parsing a piece of text as an integer yields: an optional sign
/// followed by at least one digit, with a value that fits in a signed
/// 64-bit integer; anything else fails.
pub open spec fn parse_int_text(s: Seq<char>) -> Option<int> {
    let has_sign = s.len() > 0 && (s[0] == '+' || s[0] == '-');
    let ds = if has_sign { s.drop_first() } else { s };
    if ds.len() == 0 || !all_digits(ds) {
        None
    } else {
        let v = if s.len() > 0 && s[0] == '-' { -digits_value(ds) } else { digits_value(ds) };
        if i64::MIN <= v <= i64::MAX {
            Some(v)
        } else {
            None
        }
    }
}

/// A digit string's value is nonnegative.
pub proof fn lemma_digits_value_nonneg(s: Seq<char>)
    requires
        all_digits(s),
    ensures
        digits_value(s) >= 0,
    decreases s,
{
    if s.len() > 0 {
        assert forall|i: int| 0 <= i < s.drop_last().len()
            implies digit_val(#[trigger] s.drop_last()[i]) >= 0 by {
            assert(s.drop_last()[i] == s[i]);
        }
        lemma_digits_value_nonneg(s.drop_last());
        assert(digit_val(s.last()) >= 0);
    }
}

/// Extending a digit string can only increase its value.
pub proof fn lemma_digits_value_prefix(s: Seq<char>, i: int)
    requires
        all_digits(s),
        0 <= i <= s.len(),
    ensures
        digits_value(s.take(i)) <= digits_value(s),
    decreases s.len() - i,
{
    if i < s.len() {
        lemma_digits_value_prefix(s, i + 1);
        assert forall|j: int| 0 <= j < s.take(i + 1).len()
            implies digit_val(#[trigger] s.take(i + 1)[j]) >= 0 by {
            assert(s.take(i + 1)[j] == s[j]);
        }
        lemma_digits_value_nonneg(s.take(i + 1));
        assert(s.take(i + 1).drop_last() =~= s.take(i));
        assert(s.take(i + 1).last() == s[i]);
        assert(digits_value(s.take(i + 1))
            == digits_value(s.take(i)) * 10 + digit_val(s[i]));
        assert forall|j: int| 0 <= j < s.take(i).len()
            implies digit_val(#[trigger] s.take(i)[j]) >= 0 by {
            assert(s.take(i)[j] == s[j]);
        }
        lemma_digits_value_nonneg(s.take(i));
        assert(digits_value(s.take(i)) * 10 >= digits_value(s.take(i))) by (nonlinear_arith)
            requires digits_value(s.take(i)) >= 0;
    } else {
        assert(s.take(i) =~= s);
    }
}

/// The one-character string for a decimal digit below ten.
fn digit_str(d: u64) -> (r: &'static str)
    requires
        d < 10,
    ensures
        r@ == seq![digit_char(d as int)],
{
    proof {
        reveal_strlit("0");
        reveal_strlit("1");
        reveal_strlit("2");
        reveal_strlit("3");
        reveal_strlit("4");
        reveal_strlit("5");
        reveal_strlit("6");
        reveal_strlit("7");
        reveal_strlit("8");
        reveal_strlit("9");
    }
    if d == 0 { "0" }
    else if d == 1 { "1" }
    else if d == 2 { "2" }
    else if d == 3 { "3" }
    else if d == 4 { "4" }
    else if d == 5 { "5" }
    else if d == 6 { "6" }
    else if d == 7 { "7" }
    else if d == 8 { "8" }
    else { "9" }
}

/// Renders a nonnegative integer as its decimal digits.
#[verifier::loop_isolation(false)]
fn u64_to_string(n: u64) -> (r: String)
    ensures
        r@ == dec_digits(n as int),
{
    if n == 0 {
        let r = String::from_str(digit_str(0));
        return r;
    }
    let mut s = String::new();
    let mut m: u64 = n;
    while m > 0
        invariant
            0 <= m,
            m > 0 ==> dec_digits(n as int) == dec_digits(m as int) + s@,
            m == 0 ==> dec_digits(n as int) == s@,
        decreases m,
    {
        let d = m % 10;
        let rest = String::from_str(digit_str(d)).concat(s.as_str());
        proof {
            if m >= 10 {
                assert(dec_digits(m as int) == dec_digits(m as int / 10).push(digit_char(m as int % 10)));
                assert(dec_digits(m as int / 10).push(digit_char(m as int % 10)) + s@
                    =~= dec_digits(m as int / 10) + (seq![digit_char(m as int % 10)] + s@));
            } else {
                assert(dec_digits(m as int) + s@ =~= seq![digit_char(m as int)] + s@);
            }
        }
        s = rest;
        m = m / 10;
    }
    s
}

/// Renders a signed integer as decimal text, per [`int_text`].
pub fn i64_to_string(n: i64) -> (r: String)
    ensures
        r@ == int_text(n as int),
{
    proof {
        reveal_strlit("-");
    }
    if n >= 0 {
        u64_to_string(n as u64)
    } else {
        let mag: u64 = ((-(n + 1)) as u64) + 1;
        proof {
            assert(mag as int == -(n as int));
        }
        let digits = u64_to_string(mag);
        let r = String::from_str("-").concat(digits.as_str());
        proof {
            assert(r@ =~= seq!['-'] + dec_digits(-(n as int)));
        }
        r
    }
}

/// The numeric value of a digit character, if it is one.
fn char_digit(c: char) -> (r: Option<u64>)
    ensures
        match r {
            Some(d) => d < 10 && digit_val(c) == d as int,
            None => digit_val(c) < 0,
        },
{
    if c == '0' { Some(0) }
    else if c == '1' { Some(1) }
    else if c == '2' { Some(2) }
    else if c == '3' { Some(3) }
    else if c == '4' { Some(4) }
    else if c == '5' { Some(5) }
    else if c == '6' { Some(6) }
    else if c == '7' { Some(7) }
    else if c == '8' { Some(8) }
    else if c == '9' { Some(9) }
    else { None }
}

/// Parses decimal text as a signed 64-bit integer, per [`parse_int_text`]:
/// an optional sign, then one or more digits, failing on any other
/// character or when the value does not fit.
#[verifier::loop_isolation(false)]
#[verifier::rlimit(30)]
pub fn parse_i64(s: &str) -> (r: Option<i64>)
    ensures
        match r {
            Some(v) => parse_int_text(s@) == Some(v as int),
            None => parse_int_text(s@) is None,
        },
{
    let len = s.unicode_len();
    if len == 0 {
        return None;
    }
    let first = s.get_char(0);
    let negative = first == '-';
    let has_sign = first == '-' || first == '+';
    let start: usize = if has_sign { 1 } else { 0 };
    let ghost ds: Seq<char> = if has_sign { s@.drop_first() } else { s@ };
    proof {
        assert(ds.len() == len - start);
        assert(forall|j: int| 0 <= j < ds.len() ==> ds[j] == s@[j + start]);
    }
    if start == len {
        return None;
    }
    let bound: u64 = if negative { 9223372036854775808u64 } else { 9223372036854775807u64 };
    proof {
        if negative {
            assert(bound as int == -(i64::MIN as int));
        } else {
            assert(bound as int == i64::MAX as int);
        }
    }
    let mut acc: u64 = 0;
    let mut i: usize = start;
    while i < len
        invariant
            start <= i <= len,
            all_digits(ds.take(i - start)),
            acc as int == digits_value(ds.take(i - start)),
            acc <= bound,
        decreases len - i,
    {
        let c = s.get_char(i);
        proof {
            assert(ds[i - start] == s@[i as int]);
        }
        let d = match char_digit(c) {
            Some(d) => d,
            None => {
                proof {
                    assert(digit_val(ds[i - start]) < 0);
                }
                return None;
            },
        };
        proof {
            assert(ds.take(i - start + 1).drop_last() =~= ds.take(i - start));
            assert(ds.take(i - start + 1).last() == ds[i - start]);
            assert forall|j: int| 0 <= j < ds.take(i - start + 1).len()
                implies digit_val(#[trigger] ds.take(i - start + 1)[j]) >= 0 by {
                assert(ds.take(i - start + 1)[j] == ds[j]);
            }
        }
        let next = match acc.checked_mul(10) {
            Some(t) => match t.checked_add(d) {
                Some(t2) => t2,
                None => {
                    proof {
                        lemma_parse_overflow(ds, i - start + 1, bound as int);
                    }
                    return None;
                },
            },
            None => {
                proof {
                    assert(acc as int * 10 + digit_val(ds[i - start]) > bound as int);
                    lemma_parse_overflow(ds, i - start + 1, bound as int);
                }
                return None;
            },
        };
        if next > bound {
            proof {
                lemma_parse_overflow(ds, i - start + 1, bound as int);
            }
            return None;
        }
        acc = next;
        i += 1;
    }
    proof {
        assert(ds.take(i - start) =~= ds);
    }
    if negative {
        if acc == 9223372036854775808u64 {
            Some(i64::MIN)
        } else {
            Some(-(acc as i64))
        }
    } else {
        Some(acc as i64)
    }
}

/// A digit string whose prefix value already exceeds `bound` has a value
/// exceeding `bound`.
proof fn lemma_parse_overflow(ds: Seq<char>, i: int, bound: int)
    requires
        0 <= i <= ds.len(),
        all_digits(ds.take(i)),
        digits_value(ds.take(i)) > bound,
        bound >= 0,
    ensures
        all_digits(ds) ==> digits_value(ds) > bound,
{
    if all_digits(ds) {
        lemma_digits_value_prefix(ds, i);
    }
}

/// Character-wise equality of two string slices.
#[verifier::loop_isolation(false)]
pub fn str_eq(a: &str, b: &str) -> (r: bool)
    ensures
        r == (a@ == b@),
{
    let alen = a.unicode_len();
    let blen = b.unicode_len();
    if alen != blen {
        return false;
    }
    let mut i: usize = 0;
    while i < alen
        invariant
            i <= alen,
            forall|j: int| 0 <= j < i ==> a@[j] == b@[j],
        decreases alen - i,
    {
        if a.get_char(i) != b.get_char(i) {
            return false;
        }
        i += 1;
    }
    proof {
        assert(a@ =~= b@);
    }
    true
}

} // verus!
