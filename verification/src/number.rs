//! Decimal digits to a number.

use vstd::prelude::*;
use crate::chars::{CharClass, digit_to_u32, is_digit};
use crate::grammar::decimal_value;

verus! {

/// A sequence of digits stands for at least as much as each of its
/// beginnings.
pub proof fn lemma_decimal_value_grows(digits: Seq<char>, k: int)
    requires
        0 <= k <= digits.len(),
    ensures
        decimal_value(digits.take(k)) <= decimal_value(digits),
    decreases digits.len() - k,
{
    if k == digits.len() {
        assert(digits.take(k) =~= digits);
    } else {
        lemma_decimal_value_grows(digits, k + 1);
        assert(digits.take(k + 1).drop_last() =~= digits.take(k));
    }
}

/// The number that `text` stands for, read as decimal digits: `Some` when
/// `text` is made of one or more digits `0` to `9` and of nothing else, and
/// the number is at most `i32::MAX`; `None` for every other text.
pub fn parse_decimal(text: &str) -> (value: Option<i32>)
    ensures
        value == if text@.len() > 0 && CharClass::Digit.contains_all(text@) && decimal_value(
            text@,
        ) <= i32::MAX {
            Some(decimal_value(text@) as i32)
        } else {
            None
        },
{
    let length = text.unicode_len();
    if length == 0 {
        return None;
    }
    let mut value: u32 = 0;
    let mut i: usize = 0;
    while i < length
        invariant
            length == text@.len(),
            0 <= i <= length,
            CharClass::Digit.contains_all(text@.take(i as int)),
            value == decimal_value(text@.take(i as int)),
            value <= i32::MAX,
        decreases length - i,
    {
        let c = text.get_char(i);
        proof {
            assert(text@.take(i + 1).drop_last() =~= text@.take(i as int));
            assert(text@.take(i + 1).last() == c);
        }
        if !is_digit(c) {
            assert(!CharClass::Digit.contains(text@[i as int]));
            return None;
        }
        let d = digit_to_u32(c);
        if value > (0x7fff_ffff - d) / 10 {
            proof {
                lemma_decimal_value_grows(text@, i + 1);
            }
            return None;
        }
        value = value * 10 + d;
        i = i + 1;
        proof {
            assert forall|j: int| 0 <= j < i implies CharClass::Digit.contains(
                #[trigger] text@.take(i as int)[j],
            ) by {
                if j < i - 1 {
                    assert(text@.take(i as int)[j] == text@.take(i - 1)[j]);
                }
            }
        }
    }
    proof {
        assert(text@.take(length as int) =~= text@);
    }
    Some(value as i32)
}

} // verus!
