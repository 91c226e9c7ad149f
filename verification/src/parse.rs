//! Reading a row length from one line of an external board file.
//!
//! A line counts as a row length when it is a decimal numeral that fits in
//! a `u8`: an optional leading plus sign, then at least one ASCII digit,
//! with a value of at most 255. Anything else is not a length, and the
//! caller skips the line.

use vstd::prelude::*;

verus! {

/// The byte is an ASCII decimal digit.
pub open spec fn is_ascii_digit(c: u8) -> bool {
    48 <= c <= 57
}

/// Every byte of `s` is an ASCII decimal digit.
pub open spec fn all_digits(s: Seq<u8>) -> bool {
    forall|i: int| 0 <= i < s.len() ==> is_ascii_digit(#[trigger] s[i])
}

/// The number the digit string `s` names in decimal.
pub open spec fn digits_value(s: Seq<u8>) -> int
    decreases s.len(),
{
    if s.len() == 0 {
        0
    } else {
        digits_value(s.drop_last()) * 10 + (s.last() - 48)
    }
}

/// The line without its optional leading plus sign.
pub open spec fn digit_body(s: Seq<u8>) -> Seq<u8> {
    if s.len() > 0 && s[0] == 43 {
        s.subrange(1, s.len() as int)
    } else {
        s
    }
}

/// What parsing a line yields: the value of its digits if the line is a
/// numeral no larger than 255, and nothing otherwise.
pub open spec fn spec_parse_row_length(s: Seq<u8>) -> Option<u8> {
    let t = digit_body(s);
    if t.len() > 0 && all_digits(t) && digits_value(t) <= 255 {
        Some(digits_value(t) as u8)
    } else {
        None
    }
}

/// A digit string names a non-negative number.
proof fn lemma_digits_value_nonneg(s: Seq<u8>)
    requires
        all_digits(s),
    ensures
        digits_value(s) >= 0,
    decreases s.len(),
{
    if s.len() > 0 {
        assert(all_digits(s.drop_last()));
        lemma_digits_value_nonneg(s.drop_last());
    }
}

/// Dropping trailing digits never makes the named number larger.
proof fn lemma_digits_value_prefix_le(s: Seq<u8>, m: int)
    requires
        all_digits(s),
        0 <= m <= s.len(),
    ensures
        digits_value(s.take(m)) <= digits_value(s),
    decreases s.len(),
{
    if m < s.len() {
        assert(all_digits(s.drop_last()));
        assert(s.drop_last().take(m) =~= s.take(m));
        lemma_digits_value_prefix_le(s.drop_last(), m);
        lemma_digits_value_nonneg(s.drop_last());
    } else {
        assert(s.take(m) =~= s);
    }
}

/// Attempts to read one line of a board file as a row length; yields
/// nothing when the line is not a decimal numeral that fits in a `u8`.
pub fn parse_row_length(line: &Vec<u8>) -> (r: Option<u8>)
    ensures
        r == spec_parse_row_length(line@),
{
    let ghost t = digit_body(line@);
    let start: usize = if line.len() > 0 && line[0] == 43 {
        1
    } else {
        0
    };
    proof {
        assert(t =~= line@.subrange(start as int, line@.len() as int));
    }
    if start == line.len() {
        return None;
    }
    let mut value: u16 = 0;
    let mut i: usize = start;
    while i < line.len()
        invariant
            start <= i <= line@.len(),
            t == digit_body(line@),
            t == line@.subrange(start as int, line@.len() as int),
            all_digits(t.take(i - start)),
            value <= 255,
            value == digits_value(t.take(i - start)),
        decreases line@.len() - i,
    {
        let c = line[i];
        if c < 48 || c > 57 {
            proof {
                assert(t[i - start] == c);
                assert(!is_ascii_digit(t[i - start]));
                assert(!all_digits(t));
            }
            return None;
        }
        let next = value * 10 + (c - 48) as u16;
        proof {
            let u = t.take(i + 1 - start);
            assert(u.drop_last() =~= t.take(i - start));
            assert(u.last() == c);
            assert(digits_value(u) == digits_value(u.drop_last()) * 10 + (u.last() - 48));
            assert(digits_value(u) == next);
        }
        if next > 255 {
            proof {
                if all_digits(t) {
                    lemma_digits_value_prefix_le(t, i + 1 - start);
                    assert(digits_value(t) >= digits_value(t.take(i + 1 - start)));
                }
            }
            return None;
        }
        value = next;
        i = i + 1;
    }
    proof {
        assert(t.take(i - start) =~= t);
    }
    Some(value as u8)
}

} // verus!
