//! Decimal numbers in texts.

use crate::message::time::{digits_value, is_digit};
use crate::text::chars_of;
use vstd::prelude::*;

verus! {

pub open spec fn all_digits(s: Seq<char>) -> bool {
    forall|i: int| 0 <= i < s.len() ==> is_digit(#[trigger] s[i])
}

/// The value of a decimal number without sign, or with a plus sign, if it fits.
pub open spec fn parsed_number(s: Seq<char>) -> Option<u64> {
    let digits = if s.len() > 0 && s[0] == '+' { s.skip(1) } else { s };
    if digits.len() > 0 && all_digits(digits) && digits_value(digits) <= u64::MAX {
        Some(digits_value(digits) as u64)
    } else {
        None
    }
}

pub fn parse_number(s: &str) -> (r: Option<u64>)
    ensures
        r == parsed_number(s@),
{
    let cs = chars_of(s);
    let from: usize = if cs.len() > 0 && cs[0] == '+' { 1 } else { 0 };
    let ghost digits = s@.skip(from as int);
    assert(digits =~= (if s@.len() > 0 && s@[0] == '+' { s@.skip(1) } else { s@ }));
    if from >= cs.len() {
        return None;
    }
    let mut value: u64 = 0;
    let mut over = false;
    let mut i: usize = from;
    assert(digits.take(0) =~= Seq::<char>::empty());
    while i < cs.len()
        invariant
            cs@ == s@,
            from <= i <= cs@.len(),
            digits == s@.skip(from as int),
            digits == (if s@.len() > 0 && s@[0] == '+' { s@.skip(1) } else { s@ }),
            forall|k: int| 0 <= k < i - from ==> is_digit(#[trigger] digits[k]),
            !over ==> value == digits_value(digits.take(i - from)),
            over ==> digits_value(digits.take(i - from)) > u64::MAX,
        decreases cs@.len() - i,
    {
        let c = cs[i];
        assert(digits[i - from] == c);
        assert(digits.take(i - from + 1).drop_last() =~= digits.take(i - from));
        if !('0' <= c && c <= '9') {
            assert(!is_digit(digits[i - from]));
            return None;
        }
        if !over {
            let next: u128 = value as u128 * 10 + (c as u32 - 48) as u128;
            if next > u64::MAX as u128 {
                over = true;
            } else {
                value = next as u64;
            }
        }
        i += 1;
    }
    assert(digits.take(i - from) =~= digits);
    if over {
        None
    } else {
        Some(value)
    }
}

} // verus!
