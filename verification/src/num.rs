//! The numeric literal parser: signed decimal text to `i32`, rejecting
//! non-numeric text and values out of range.

use vstd::prelude::*;

verus! {

/// A decimal digit.
pub open spec fn is_digit(c: char) -> bool {
    48 <= c as u32 <= 57
}

/// The value of one decimal digit.
pub open spec fn digit_val(c: char) -> int {
    c as u32 - 48
}

/// Every character of `s` is a decimal digit.
pub open spec fn all_digits(s: Seq<char>) -> bool {
    forall|i: int| 0 <= i < s.len() ==> is_digit(#[trigger] s[i])
}

/// The value of a string of decimal digits, most significant first.
pub open spec fn digits_val(s: Seq<char>) -> int
    decreases s,
{
    if s.len() == 0 {
        0
    } else {
        digits_val(s.drop_last()) * 10 + digit_val(s.last())
    }
}

/// What parsing signed decimal text as an `i32` yields: an optional single
/// leading `+` or `-`, then at least one digit, and a value within range;
/// `None` on any other text and on overflow.
/// The digit part of signed decimal text: everything after one optional
/// leading sign.
pub open spec fn spec_digits(s: Seq<char>) -> Seq<char> {
    if s.len() > 0 && (s[0] == '+' || s[0] == '-') {
        s.drop_first()
    } else {
        s
    }
}

/// The signed mathematical value of decimal text.
pub open spec fn spec_int_val(s: Seq<char>) -> int {
    if s.len() > 0 && s[0] == '-' {
        -digits_val(spec_digits(s))
    } else {
        digits_val(spec_digits(s))
    }
}

pub open spec fn spec_parse_i32(s: Seq<char>) -> Option<i32> {
    if spec_digits(s).len() == 0 || !all_digits(spec_digits(s)) {
        None
    } else if -0x8000_0000 <= spec_int_val(s) && spec_int_val(s) <= 0x7fff_ffff {
        Some(spec_int_val(s) as i32)
    } else {
        None
    }
}

/// A digit string has a non-negative value.
proof fn lemma_digits_val_nonneg(s: Seq<char>)
    requires
        all_digits(s),
    ensures
        digits_val(s) >= 0,
    decreases s,
{
    if s.len() > 0 {
        assert(all_digits(s.drop_last()));
        lemma_digits_val_nonneg(s.drop_last());
    }
}

/// A prefix of a digit string is worth no more than the whole string.
proof fn lemma_digits_val_prefix(s: Seq<char>, k: int)
    requires
        all_digits(s),
        0 <= k <= s.len(),
    ensures
        digits_val(s.subrange(0, k)) <= digits_val(s),
    decreases s,
{
    if k < s.len() {
        assert(all_digits(s.drop_last()));
        lemma_digits_val_prefix(s.drop_last(), k);
        lemma_digits_val_nonneg(s.drop_last());
        assert(s.subrange(0, k) =~= s.drop_last().subrange(0, k));
    } else {
        assert(s.subrange(0, k) =~= s);
    }
}

/// Parses signed decimal text as an `i32`; returns exactly what
/// `spec_parse_i32` describes.
pub fn parse_i32(s: &str) -> (r: Option<i32>)
    ensures
        r == spec_parse_i32(s@),
{
    let n = s.unicode_len();
    let mut start: usize = 0;
    let mut neg = false;
    if n > 0 {
        let c0 = s.get_char(0);
        if c0 == '-' {
            neg = true;
            start = 1;
        } else if c0 == '+' {
            start = 1;
        }
    }
    let ghost digits = if s@.len() > 0 && (s@[0] == '+' || s@[0] == '-') {
        s@.drop_first()
    } else {
        s@
    };
    if start >= n {
        // Empty text, or a bare sign with no digits.
        assert(digits.len() == 0);
        return None;
    }
    assert(digits =~= s@.subrange(start as int, n as int));
    let mut acc: i64 = 0;
    let mut j: usize = start;
    while j < n
        invariant
            start <= j <= n,
            n == s@.len(),
            start < n,
            digits =~= s@.subrange(start as int, n as int),
            neg == (s@.len() > 0 && s@[0] == '-'),
            (start == 1) == (s@.len() > 0 && (s@[0] == '+' || s@[0] == '-')),
            start == 0 || start == 1,
            all_digits(s@.subrange(start as int, j as int)),
            acc == digits_val(s@.subrange(start as int, j as int)),
            0 <= acc <= 0x8000_0000,
        decreases n - j,
    {
        let c = s.get_char(j);
        let code = c as u32;
        if code < 48 || code > 57 {
            // A non-digit anywhere makes the whole text invalid.
            assert(!is_digit(digits[j - start]));
            assert(spec_parse_i32(s@) is None);
            return None;
        }
        let d: i64 = (code - 48) as i64;
        acc = acc * 10 + d;
        proof {
            let pre = s@.subrange(start as int, j as int);
            let cur = s@.subrange(start as int, j + 1 as int);
            assert(cur.drop_last() =~= pre);
            assert(cur.last() == s@[j as int]);
        }
        j = j + 1;
        if acc > 0x8000_0000 {
            // Too many digits already: whatever follows, the value cannot
            // fit in an `i32` of either sign.
            proof {
                let pre = s@.subrange(start as int, j as int);
                if all_digits(digits) {
                    assert(pre =~= digits.subrange(0, j - start));
                    lemma_digits_val_prefix(digits, j - start);
                    assert(digits_val(pre) == acc);
                    assert(digits == spec_digits(s@));
                    assert(spec_int_val(s@) == -digits_val(digits) || spec_int_val(s@)
                        == digits_val(digits));
                    assert(spec_parse_i32(s@) is None);
                } else {
                    assert(spec_parse_i32(s@) is None);
                }
            }
            return None;
        }
    }
    proof {
        assert(s@.subrange(start as int, n as int) =~= digits);
        lemma_digits_val_nonneg(digits);
    }
    if neg {
        assert(-0x8000_0000 <= -acc <= 0);
        Some((-acc) as i32)
    } else {
        if acc > 0x7fff_ffff {
            None
        } else {
            Some(acc as i32)
        }
    }
}

} // verus!
