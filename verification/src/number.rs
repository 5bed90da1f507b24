//! Numeric literals: what their text denotes.

use crate::ast::{Decimal, Val};
use crate::lexer::{first_token, is_digit, is_separator, number_scan, Token};
use vstd::prelude::*;

verus! {

/// The number that the digits of `s` spell, read from the left; bytes that
/// are no digits are passed over.
pub open spec fn mantissa(s: Seq<u8>) -> nat
    decreases s.len(),
{
    if s.len() == 0 {
        0
    } else if is_digit(s.last()) {
        mantissa(s.drop_last()) * 10 + (s.last() - 0x30) as nat
    } else {
        mantissa(s.drop_last())
    }
}

/// How many bytes of `s` are digits.
pub open spec fn digit_count(s: Seq<u8>) -> nat
    decreases s.len(),
{
    if s.len() == 0 {
        0
    } else if is_digit(s.last()) {
        digit_count(s.drop_last()) + 1
    } else {
        digit_count(s.drop_last())
    }
}

/// How many bytes of `s` are decimal separators.
pub open spec fn separator_count(s: Seq<u8>) -> nat
    decreases s.len(),
{
    if s.len() == 0 {
        0
    } else if is_separator(s.last()) {
        separator_count(s.drop_last()) + 1
    } else {
        separator_count(s.drop_last())
    }
}

/// How many digits stand behind the last byte of `s` that is no digit.
pub open spec fn fraction_len(s: Seq<u8>) -> nat
    decreases s.len(),
{
    if s.len() == 0 {
        0
    } else if is_digit(s.last()) {
        fraction_len(s.drop_last()) + 1
    } else {
        0
    }
}

/// Tells whether `s` holds digits and decimal separators only.
pub open spec fn only_numeric(s: Seq<u8>) -> bool {
    forall|i: int| 0 <= i < s.len() ==> is_digit(#[trigger] s[i]) || is_separator(s[i])
}

/// The integer that the text `s` denotes, negated where `negative` is set:
/// digits, one at least, whose number is at most `i64::MAX`.
pub open spec fn int_literal(s: Seq<u8>, negative: bool) -> Option<Val> {
    if only_numeric(s) && separator_count(s) == 0 && digit_count(s) >= 1 && mantissa(s)
        <= i64::MAX {
        if negative {
            Some(Val::Int((-mantissa(s)) as i64))
        } else {
            Some(Val::Int(mantissa(s) as i64))
        }
    } else {
        None
    }
}

/// The decimal fraction that the text `s` denotes, negated where `negative`
/// is set: digits, one at least, with one decimal separator among them, whose
/// digits read as one number are at most `u128::MAX`.
pub open spec fn float_literal(s: Seq<u8>, negative: bool) -> Option<Val> {
    if only_numeric(s) && separator_count(s) == 1 && digit_count(s) >= 1 && mantissa(s)
        <= u128::MAX {
        Some(
            Val::Float(
                Decimal {
                    negative,
                    mantissa: mantissa(s) as u128,
                    scale: fraction_len(s) as usize,
                },
            ),
        )
    } else {
        None
    }
}

/// What a scan of a numeric text has counted.
pub struct Digits {
    /// The digits, read as one number.
    pub mantissa: u128,
    /// The number of digits.
    pub digits: usize,
    /// The number of decimal separators.
    pub separators: usize,
    /// The number of digits behind the last separator.
    pub fraction: usize,
}

/// The digits of a prefix spell a number that is no greater than that of the
/// whole.
pub proof fn lemma_mantissa_of_prefix(s: Seq<u8>, i: int)
    requires
        0 <= i <= s.len(),
    ensures
        mantissa(s.take(i)) <= mantissa(s),
    decreases s.len(),
{
    if i == s.len() {
        assert(s.take(i) =~= s);
    } else {
        assert(s.drop_last().take(i) =~= s.take(i));
        lemma_mantissa_of_prefix(s.drop_last(), i);
    }
}

/// What a scan for a number adds to the text before it: digits, and one
/// separator where the scan reports one that was not seen before.
proof fn lemma_number_scan_shape(s: Seq<u8>, i: int, seen: bool)
    requires
        0 <= i <= s.len(),
        only_numeric(s.take(i)),
    ensures
        ({
            let (end, float) = number_scan(s, i, seen);
            &&& i <= end <= s.len()
            &&& only_numeric(s.take(end))
            &&& digit_count(s.take(end)) >= digit_count(s.take(i))
            &&& separator_count(s.take(end)) == separator_count(s.take(i)) + (if float && !seen {
                1nat
            } else {
                0nat
            })
            &&& (seen ==> float)
        }),
    decreases s.len() - i,
{
    if i < s.len() && (is_digit(s[i]) || (is_separator(s[i]) && !seen)) {
        let next = s.take(i + 1);
        assert(next.drop_last() =~= s.take(i));
        assert(next.last() == s[i]);
        assert forall|k: int| 0 <= k < next.len() implies is_digit(#[trigger] next[k])
            || is_separator(next[k]) by {
            if k < i {
                assert(s.take(i)[k] == next[k]);
            }
        }
        if is_digit(s[i]) {
            lemma_number_scan_shape(s, i + 1, seen);
        } else {
            lemma_number_scan_shape(s, i + 1, true);
        }
    }
}

/// A number token has the shape of a number: an integer token is read as
/// an integer unless it exceeds `i64::MAX`, and a token with a decimal
/// separator as a fraction unless its digits exceed `u128::MAX`.
pub proof fn lemma_number_token(s: Seq<u8>, negative: bool)
    ensures
        first_token(s) matches Ok((Token::IntNumber, len)) ==> (int_literal(s.take(len), negative)
            is Some <==> mantissa(s.take(len)) <= i64::MAX),
        first_token(s) matches Ok((Token::FloatNumber, len)) ==> (float_literal(
            s.take(len),
            negative,
        ) is Some <==> mantissa(s.take(len)) <= u128::MAX),
{
    if s.len() > 0 && is_digit(s[0]) {
        let first = s.take(1);
        assert(first.drop_last() =~= Seq::<u8>::empty());
        assert(first.last() == s[0]);
        assert(first.drop_last().len() == 0);
        assert(digit_count(first.drop_last()) == 0);
        assert(separator_count(first.drop_last()) == 0);
        assert(digit_count(first) == 1);
        assert(separator_count(first) == 0);
        assert forall|k: int| 0 <= k < first.len() implies is_digit(#[trigger] first[k])
            || is_separator(first[k]) by {
            assert(first[k] == s[0]);
        }
        lemma_number_scan_shape(s, 1, false);
    }
}

/// Reads a text of digits and decimal separators. There is no result where
/// the text holds another byte, or where its digits exceed `u128::MAX`.
pub fn read_digits(text: &[u8]) -> (r: Option<Digits>)
    ensures
        r is Some <==> only_numeric(text@) && mantissa(text@) <= u128::MAX,
        r matches Some(d) ==> d.mantissa == mantissa(text@) && d.digits == digit_count(text@)
            && d.separators == separator_count(text@) && d.fraction == fraction_len(text@),
{
    let total: usize = text.len();
    let mut acc: u128 = 0;
    let mut digits: usize = 0;
    let mut separators: usize = 0;
    let mut fraction: usize = 0;
    let mut i: usize = 0;
    while i < total
        invariant
            total == text@.len(),
            i <= total,
            only_numeric(text@.take(i as int)),
            acc == mantissa(text@.take(i as int)),
            digits == digit_count(text@.take(i as int)),
            separators == separator_count(text@.take(i as int)),
            fraction == fraction_len(text@.take(i as int)),
            digits <= i,
            separators <= i,
            fraction <= i,
        decreases total - i,
    {
        let b: u8 = text[i];
        proof {
            assert(text@.take(i + 1).drop_last() =~= text@.take(i as int));
            assert(text@.take(i + 1).last() == b);
        }
        if 0x30 <= b && b <= 0x39 {
            let d: u128 = (b - 0x30) as u128;
            if acc > (u128::MAX - d) / 10 {
                proof {
                    lemma_mantissa_of_prefix(text@, i + 1);
                }
                return None;
            }
            acc = acc * 10 + d;
            digits = digits + 1;
            fraction = fraction + 1;
        } else if b == 0x2e || b == 0x2c {
            separators = separators + 1;
            fraction = 0;
        } else {
            return None;
        }
        i = i + 1;
    }
    proof {
        assert(text@.take(total as int) =~= text@);
    }
    Some(Digits { mantissa: acc, digits, separators, fraction })
}

/// The integer that `text` denotes, negated where `negative` is set.
pub fn read_int(text: &[u8], negative: bool) -> (r: Option<Val>)
    ensures
        r == int_literal(text@, negative),
{
    match read_digits(text) {
        Some(d) => {
            if d.separators == 0 && d.digits >= 1 && d.mantissa <= 0x7fff_ffff_ffff_ffff {
                let magnitude: i64 = d.mantissa as i64;
                if negative {
                    Some(Val::Int(-magnitude))
                } else {
                    Some(Val::Int(magnitude))
                }
            } else {
                None
            }
        },
        None => None,
    }
}

/// The decimal fraction that `text` denotes, negated where `negative` is set.
pub fn read_float(text: &[u8], negative: bool) -> (r: Option<Val>)
    ensures
        r == float_literal(text@, negative),
{
    match read_digits(text) {
        Some(d) => {
            if d.separators == 1 && d.digits >= 1 {
                Some(Val::Float(Decimal { negative, mantissa: d.mantissa, scale: d.fraction }))
            } else {
                None
            }
        },
        None => None,
    }
}

} // verus!
