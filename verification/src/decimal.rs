//! Decimal text of the timestamps in a room log: how a signed 64-bit number
//! is written and read back.

use std::str::FromStr;
use vstd::prelude::*;

verus! {

/// An ASCII decimal digit.
pub open spec fn is_digit(c: char) -> bool {
    48 <= c as u32 <= 57
}

/// The value of a decimal digit.
pub open spec fn digit_value(c: char) -> int {
    c as u32 - 48
}

/// The digit character for `0 <= d < 10`.
pub open spec fn digit_char(d: int) -> char {
    if d == 0 {
        '0'
    } else if d == 1 {
        '1'
    } else if d == 2 {
        '2'
    } else if d == 3 {
        '3'
    } else if d == 4 {
        '4'
    } else if d == 5 {
        '5'
    } else if d == 6 {
        '6'
    } else if d == 7 {
        '7'
    } else if d == 8 {
        '8'
    } else {
        '9'
    }
}

/// A non-empty run of decimal digits.
pub open spec fn all_digits(ds: Seq<char>) -> bool {
    &&& ds.len() > 0
    &&& forall|i: int| 0 <= i < ds.len() ==> is_digit(#[trigger] ds[i])
}

/// The number that a run of digits denotes, most significant digit first.
pub open spec fn digits_value(ds: Seq<char>) -> int
    decreases ds.len(),
{
    if ds.len() == 0 {
        0
    } else {
        10 * digits_value(ds.drop_last()) + digit_value(ds.last())
    }
}

/// The integer that a text denotes: an optional `+` or `-`, then one or more
/// decimal digits, and nothing else.
pub open spec fn decimal_value(s: Seq<char>) -> Option<int> {
    if s.len() > 0 && s[0] == '-' {
        if all_digits(s.drop_first()) {
            Some(-digits_value(s.drop_first()))
        } else {
            None
        }
    } else if s.len() > 0 && s[0] == '+' {
        if all_digits(s.drop_first()) {
            Some(digits_value(s.drop_first()))
        } else {
            None
        }
    } else if all_digits(s) {
        Some(digits_value(s))
    } else {
        None
    }
}

/// What `i64::from_str` accepts: a decimal text whose value fits in an `i64`.
pub open spec fn parse_i64(s: Seq<char>) -> Option<i64> {
    match decimal_value(s) {
        Some(v) => if i64::MIN <= v <= i64::MAX {
            Some(v as i64)
        } else {
            None
        },
        None => None,
    }
}

/// The shortest decimal digits of a natural number.
pub open spec fn nat_text(n: nat) -> Seq<char>
    decreases n,
{
    if n < 10 {
        seq![digit_char(n as int)]
    } else {
        nat_text(n / 10).push(digit_char((n % 10) as int))
    }
}

/// How an `i64` is displayed: a `-` for negative numbers, then its digits.
pub open spec fn i64_text(x: i64) -> Seq<char> {
    if x < 0 {
        seq!['-'] + nat_text((-x) as nat)
    } else {
        nat_text(x as nat)
    }
}

proof fn lemma_digit_char(d: int)
    requires
        0 <= d < 10,
    ensures
        is_digit(digit_char(d)),
        digit_value(digit_char(d)) == d,
{
}

proof fn lemma_nat_text(n: nat)
    ensures
        all_digits(nat_text(n)),
        digits_value(nat_text(n)) == n,
    decreases n,
{
    if n < 10 {
        lemma_digit_char(n as int);
        let t = nat_text(n);
        assert(t.drop_last() =~= Seq::<char>::empty());
        assert(digits_value(t.drop_last()) == 0);
        assert(digits_value(t) == 10 * digits_value(t.drop_last()) + digit_value(t.last()));
    } else {
        lemma_nat_text(n / 10);
        lemma_digit_char((n % 10) as int);
        let t = nat_text(n);
        assert(t.drop_last() =~= nat_text(n / 10));
        assert(t.last() == digit_char((n % 10) as int));
        assert(10 * (n / 10) + n % 10 == n);
        assert(digits_value(t) == 10 * digits_value(t.drop_last()) + digit_value(t.last()));
        assert forall|i: int| 0 <= i < t.len() implies is_digit(#[trigger] t[i]) by {
            if i < t.len() - 1 {
                assert(t[i] == nat_text(n / 10)[i]);
            }
        }
    }
}

/// Reading back the decimal text of a number gives the number.
pub proof fn lemma_i64_text_parses(x: i64)
    ensures
        parse_i64(i64_text(x)) == Some(x),
{
    if x < 0 {
        let n = (-x) as nat;
        lemma_nat_text(n);
        let s = i64_text(x);
        assert(s.drop_first() =~= nat_text(n));
        assert(s[0] == '-');
    } else {
        let n = x as nat;
        lemma_nat_text(n);
        let s = nat_text(n);
        assert(is_digit(s[0]));
    }
}

/// The decimal text of a number holds only digits and minus signs.
pub proof fn lemma_i64_text_chars(x: i64)
    ensures
        i64_text(x).len() > 0,
        forall|i: int|
            0 <= i < i64_text(x).len() ==> is_digit(#[trigger] i64_text(x)[i]) || i64_text(x)[i]
                == '-',
{
    if x < 0 {
        let n = (-x) as nat;
        lemma_nat_text(n);
        let s = i64_text(x);
        assert forall|i: int| 0 <= i < s.len() implies is_digit(#[trigger] s[i]) || s[i] == '-' by {
            if i > 0 {
                assert(s[i] == nat_text(n)[i - 1]);
            }
        }
    } else {
        lemma_nat_text(x as nat);
    }
}

/// The number in a decimal text (`i64::from_str`); `None` where it fails.
#[verifier::external_body]
pub(crate) fn parse_i64_text(s: &str) -> (r: Option<i64>)
    ensures
        r == parse_i64(s@),
{
    i64::from_str(s).ok()
}

/// The decimal text of a number (`i64::to_string`).
#[verifier::external_body]
pub(crate) fn i64_to_text(x: i64) -> (r: String)
    ensures
        r@ == i64_text(x),
{
    x.to_string()
}

} // verus!
