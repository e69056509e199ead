//! Decimal integers read from text.
//!
//! `i32` and `u32` carry the parse capability: an optional sign (a leading
//! `-` or `+` for `i32`, a leading `+` for `u32`) followed by one or more
//! decimal digits, with the whole input consumed and the value required to
//! fit the type.  Anything else — an empty input, a stray character, a value
//! out of range — yields no value.

use vstd::prelude::*;
use vstd::string::StrSliceExecFns;

use crate::parse::ParseText;

verus! {

/// Whether `c` is a decimal digit.
pub open spec fn is_decimal_digit(c: char) -> bool {
    '0' as int <= c as int && c as int <= '9' as int
}

/// The numeric value of the decimal digit `c`.
pub open spec fn digit_value(c: char) -> int {
    c as int - '0' as int
}

/// Whether every character of `s` is a decimal digit.
pub open spec fn all_decimal_digits(s: Seq<char>) -> bool {
    forall|i: int| 0 <= i < s.len() ==> is_decimal_digit(s[i])
}

/// The magnitude written by the digit string `s`, most significant first.
pub open spec fn digits_value(s: Seq<char>) -> int
    decreases s.len(),
{
    if s.len() == 0 {
        0
    } else {
        digits_value(s.drop_last()) * 10 + digit_value(s.last())
    }
}

/// A digit string writes a non-negative magnitude.
pub proof fn lemma_digits_value_nonneg(s: Seq<char>)
    requires
        all_decimal_digits(s),
    ensures
        digits_value(s) >= 0,
    decreases s.len(),
{
    if s.len() > 0 {
        let p = s.drop_last();
        assert forall|i: int| 0 <= i < p.len() implies is_decimal_digit(p[i]) by {
            assert(p[i] == s[i]);
        }
        lemma_digits_value_nonneg(p);
        assert(is_decimal_digit(s.last()));
    }
}

/// Appending digits never shrinks the magnitude: a prefix of a digit string
/// writes at most what the whole string writes.
pub proof fn lemma_digits_value_prefix_le(s: Seq<char>, m: int)
    requires
        all_decimal_digits(s),
        0 <= m <= s.len(),
    ensures
        digits_value(s.subrange(0, m)) <= digits_value(s),
    decreases s.len() - m,
{
    if m == s.len() {
        assert(s.subrange(0, m) =~= s);
    } else {
        let p = s.subrange(0, m);
        let q = s.subrange(0, m + 1);
        assert(q.drop_last() =~= p);
        assert(q.last() == s[m]);
        assert forall|i: int| 0 <= i < p.len() implies is_decimal_digit(p[i]) by {
            assert(p[i] == s[i]);
        }
        lemma_digits_value_nonneg(p);
        assert(is_decimal_digit(s[m]));
        assert(digits_value(q) == digits_value(p) * 10 + digit_value(s[m]));
        lemma_digits_value_prefix_le(s, m + 1);
    }
}

/// The digits of `s` from `start` on, read as a magnitude of at most `cap`:
/// the digits must be non-empty, all decimal, and write a value within the
/// cap; the result reports which of that failed only as a plain refusal.
fn parse_magnitude(s: &str, start: usize, cap: u64) -> (r: Option<u64>)
    requires
        start as int <= s@.len(),
        cap <= 0xffff_ffff,
    ensures
        ({
            let body = s@.subrange(start as int, s@.len() as int);
            match r {
                Some(m) => body.len() > 0 && all_decimal_digits(body) && m as int
                    == digits_value(body) && m <= cap,
                None => body.len() == 0 || !all_decimal_digits(body) || digits_value(body)
                    > cap as int,
            }
        }),
{
    let n = s.unicode_len();
    if start >= n {
        return None;
    }
    let mut acc: u64 = 0;
    let mut i: usize = start;
    while i < n
        invariant
            n == s@.len(),
            start < n,
            start <= i <= n,
            cap <= 0xffff_ffff,
            all_decimal_digits(s@.subrange(start as int, i as int)),
            acc as int == digits_value(s@.subrange(start as int, i as int)),
            acc <= cap,
        decreases n - i,
    {
        let c = s.get_char(i);
        let code = c as u32;
        if !(code >= 48 && code <= 57) {
            proof {
                let body = s@.subrange(start as int, s@.len() as int);
                assert(body[i - start] == s@[i as int]);
                assert(!is_decimal_digit(s@[i as int]));
            }
            return None;
        }
        let d = (code - 48) as u64;
        proof {
            let p = s@.subrange(start as int, i as int);
            let q = s@.subrange(start as int, i as int + 1);
            assert(q.drop_last() =~= p);
            assert(q.last() == s@[i as int]);
            assert(is_decimal_digit(s@[i as int]));
            assert(digit_value(s@[i as int]) == d as int);
            assert forall|j: int| 0 <= j < q.len() implies is_decimal_digit(q[j]) by {
                if j < p.len() {
                    assert(q[j] == p[j]);
                }
            }
            assert(digits_value(q) == digits_value(p) * 10 + digit_value(s@[i as int]));
        }
        let next = acc * 10 + d;
        if next > cap {
            proof {
                let body = s@.subrange(start as int, s@.len() as int);
                let q = s@.subrange(start as int, i as int + 1);
                if all_decimal_digits(body) {
                    lemma_digits_value_prefix_le(body, i as int + 1 - start as int);
                    assert(body.subrange(0, i as int + 1 - start as int) =~= q);
                }
            }
            return None;
        }
        acc = next;
        i += 1;
    }
    proof {
        assert(s@.subrange(start as int, i as int) =~= s@.subrange(start as int, s@.len() as int));
    }
    Some(acc)
}

/// The `i32` written in `s`: an optional `-` or `+`, then one or more
/// decimal digits whose signed value fits in `i32`; otherwise nothing.
pub open spec fn parse_i32_spec(s: Seq<char>) -> Option<i32> {
    let signed = s.len() > 0 && (s[0] == '-' || s[0] == '+');
    let negative = s.len() > 0 && s[0] == '-';
    let body = if signed {
        s.subrange(1, s.len() as int)
    } else {
        s
    };
    if body.len() == 0 || !all_decimal_digits(body) {
        None
    } else {
        let v = if negative {
            -digits_value(body)
        } else {
            digits_value(body)
        };
        if i32::MIN as int <= v && v <= i32::MAX as int {
            Some(v as i32)
        } else {
            None
        }
    }
}

/// The `u32` written in `s`: an optional `+`, then one or more decimal
/// digits whose value fits in `u32`; otherwise nothing.
pub open spec fn parse_u32_spec(s: Seq<char>) -> Option<u32> {
    let signed = s.len() > 0 && s[0] == '+';
    let body = if signed {
        s.subrange(1, s.len() as int)
    } else {
        s
    };
    if body.len() == 0 || !all_decimal_digits(body) {
        None
    } else if digits_value(body) > u32::MAX as int {
        None
    } else {
        Some(digits_value(body) as u32)
    }
}

/// Read an `i32` from `s` as `parse_i32_spec` dictates.
pub fn parse_i32_text(s: &str) -> (r: Option<i32>)
    ensures
        r == parse_i32_spec(s@),
{
    let n = s.unicode_len();
    let mut negative = false;
    let mut start: usize = 0;
    if n > 0 {
        let c = s.get_char(0);
        if c == '-' {
            negative = true;
            start = 1;
        } else if c == '+' {
            start = 1;
        }
    }
    proof {
        if start == 0 {
            assert(s@.subrange(0, s@.len() as int) =~= s@);
        }
    }
    match parse_magnitude(s, start, 0x8000_0000u64) {
        None => None,
        Some(m) => {
            if negative {
                proof {
                    lemma_digits_value_nonneg(s@.subrange(1, s@.len() as int));
                }
                Some((-(m as i64)) as i32)
            } else if m > 0x7fff_ffffu64 {
                None
            } else {
                Some(m as u32 as i32)
            }
        },
    }
}

/// Read a `u32` from `s` as `parse_u32_spec` dictates.
pub fn parse_u32_text(s: &str) -> (r: Option<u32>)
    ensures
        r == parse_u32_spec(s@),
{
    let n = s.unicode_len();
    let mut start: usize = 0;
    if n > 0 && s.get_char(0) == '+' {
        start = 1;
    }
    proof {
        if start == 0 {
            assert(s@.subrange(0, s@.len() as int) =~= s@);
        }
    }
    match parse_magnitude(s, start, 0xffff_ffffu64) {
        None => None,
        Some(m) => Some(m as u32),
    }
}

impl ParseText for i32 {
    open spec fn parse_spec(s: Seq<char>) -> Option<i32> {
        parse_i32_spec(s)
    }

    fn parse_text(s: &str) -> (r: Option<i32>) {
        parse_i32_text(s)
    }
}

impl ParseText for u32 {
    open spec fn parse_spec(s: Seq<char>) -> Option<u32> {
        parse_u32_spec(s)
    }

    fn parse_text(s: &str) -> (r: Option<u32>) {
        parse_u32_text(s)
    }
}

} // verus!
