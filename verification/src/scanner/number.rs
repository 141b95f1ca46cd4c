//! Decimal numbers, and how a number literal is read.

use crate::scanner::decode;
use crate::scanner::grammar::{
    digits_of, is_digit, is_number, lemma_run_len_is, number_value, CharClass,
};
use vstd::prelude::*;

verus! {

/// A decimal number, exactly as it was written: `digits` holds every digit,
/// the most significant first, and the last `scale` of them stand behind the
/// decimal point. Its value is the number that `digits` spell, divided by
/// ten to the power `scale`.
#[derive(Debug, Clone, PartialEq, Eq)]
pub struct Decimal {
    pub digits: Vec<u8>,
    pub scale: usize,
}

/// A [`Decimal`] as a mathematical value.
pub struct DecimalView {
    pub digits: Seq<u8>,
    pub scale: nat,
}

impl View for Decimal {
    type V = DecimalView;

    open spec fn view(&self) -> DecimalView {
        DecimalView { digits: self.digits@, scale: self.scale as nat }
    }
}

impl DecimalView {
    /// Every digit is below ten, and at least one stands before the decimal
    /// point.
    pub open spec fn well_formed(self) -> bool {
        &&& self.scale < self.digits.len()
        &&& forall|i: int| 0 <= i < self.digits.len() ==> #[trigger] self.digits[i] <= 9
    }
}

/// Whether `c` is one of the digits `0` to `9`.
pub fn is_ascii_digit(c: char) -> (r: bool)
    ensures
        r == is_digit(c),
{
    '0' <= c && c <= '9'
}

impl Decimal {
    /// Reads a number literal: `Some` of its value where `text` is one,
    /// `None` where it is not.
    pub fn parse(text: &str) -> (value: Option<Decimal>)
        ensures
            value is Some <==> is_number(text@),
            value matches Some(number) ==> number@ == number_value(text@) && number@.well_formed(),
    {
        let chars = decode(text);
        let ghost s = chars@;
        let mut digits: Vec<u8> = Vec::new();
        let mut i: usize = 0;
        while i < chars.len() && is_ascii_digit(chars[i])
            invariant
                s == chars@,
                i <= chars.len(),
                forall|k: int| 0 <= k < i ==> is_digit(#[trigger] s[k]),
                digits@ == digits_of(s.take(i as int)),
                digits@.len() == i,
                forall|k: int| 0 <= k < digits@.len() ==> #[trigger] digits@[k] <= 9,
            decreases chars.len() - i,
        {
            proof {
                assert(s.take(i + 1).drop_last() =~= s.take(i as int));
            }
            digits.push(chars[i] as u8 - '0' as u8);
            i += 1;
        }
        proof {
            lemma_run_len_is(s, 0, i as int, CharClass::Digit);
        }
        if i == 0 {
            return None;
        }
        if i == chars.len() {
            proof {
                assert(s.take(i as int) =~= s);
            }
            return Some(Decimal { digits, scale: 0 });
        }
        if chars[i] != '.' {
            return None;
        }
        let point = i;
        proof {
            assert(s.take(i + 1).drop_last() =~= s.take(i as int));
        }
        i += 1;
        while i < chars.len() && is_ascii_digit(chars[i])
            invariant
                s == chars@,
                point < i <= chars.len(),
                forall|k: int| point < k < i ==> is_digit(#[trigger] s[k]),
                digits@ == digits_of(s.take(i as int)),
                digits@.len() == i - 1,
                forall|k: int| 0 <= k < digits@.len() ==> #[trigger] digits@[k] <= 9,
            decreases chars.len() - i,
        {
            proof {
                assert(s.take(i + 1).drop_last() =~= s.take(i as int));
            }
            digits.push(chars[i] as u8 - '0' as u8);
            i += 1;
        }
        proof {
            lemma_run_len_is(s, point + 1, i as int, CharClass::Digit);
        }
        if i == point + 1 || i < chars.len() {
            return None;
        }
        proof {
            assert(s.take(i as int) =~= s);
        }
        Some(Decimal { digits, scale: i - point - 1 })
    }
}

} // verus!
