//! Evaluates expressions of integers, and matches the types of two operands.
//!
//! Arithmetic on fractions is not done here: an expression that holds a
//! fraction has no integer value.

use crate::ast::{Decimal, Exp, Op, Val};
use vstd::arithmetic::power::{lemma_pow0, lemma_pow_strictly_increases, pow};
use vstd::prelude::*;

verus! {

/// Why an expression has no integer value.
#[derive(Debug, PartialEq, Eq, Clone, Copy, Hash, Structural)]
pub enum ExecError {
    /// A result does not fit in 64 bits.
    Overflow,
    /// The divisor of a division or of a remainder is zero.
    DivisionByZero,
    /// The expression holds a fraction.
    Fraction,
}

/// The absolute value of `x`.
pub open spec fn magnitude(x: int) -> int {
    if x < 0 {
        -x
    } else {
        x
    }
}

/// The quotient of `x` by `d`, rounded towards zero.
pub open spec fn truncated_quotient(x: int, d: int) -> int {
    if (x < 0) != (d < 0) {
        -(magnitude(x) / magnitude(d))
    } else {
        magnitude(x) / magnitude(d)
    }
}

/// The remainder that the quotient rounded towards zero leaves: it has the
/// sign of `x`.
pub open spec fn truncated_remainder(x: int, d: int) -> int {
    if x < 0 {
        -(magnitude(x) % magnitude(d))
    } else {
        magnitude(x) % magnitude(d)
    }
}

/// The exponent that an operand stands for: its lowest 32 bits, read as a
/// number without sign.
pub open spec fn exponent_of(r: i64) -> nat {
    (r as u32) as nat
}

/// The exact result of an operator on two integers; the divisor is not zero.
pub open spec fn exact(op: Op, l: int, r: i64) -> int {
    match op {
        Op::Add => l + r,
        Op::Sub => l - r,
        Op::Mul => l * r,
        Op::Mod => truncated_remainder(l, r as int),
        Op::Div => truncated_quotient(l, r as int),
        Op::Pow => pow(l, exponent_of(r)),
    }
}

/// What an operator makes of two integers: the exact result where it fits
/// in 64 bits.
pub open spec fn spec_int_op(op: Op, l: i64, r: i64) -> Result<i64, ExecError> {
    if (op == Op::Div || op == Op::Mod) && r == 0 {
        Err(ExecError::DivisionByZero)
    } else if i64::MIN <= exact(op, l as int, r) <= i64::MAX {
        Ok(exact(op, l as int, r) as i64)
    } else {
        Err(ExecError::Overflow)
    }
}

/// The integer value of an expression. The left operand is looked at first:
/// where both operands have no value, the reason is that of the left one.
pub open spec fn spec_exec_int(exp: Exp) -> Result<i64, ExecError>
    decreases exp,
{
    match exp {
        Exp::Val(Val::Int(v)) => Ok(v),
        Exp::Val(Val::Float(_)) => Err(ExecError::Fraction),
        Exp::Exp { op, left, right } => match spec_exec_int(*left) {
            Err(e) => Err(e),
            Ok(l) => match spec_exec_int(*right) {
                Err(e) => Err(e),
                Ok(r) => spec_int_op(op, l, r),
            },
        },
    }
}

/// The fraction that is equal to an integer.
pub open spec fn decimal_of(v: i64) -> Decimal {
    Decimal { negative: v < 0, mantissa: magnitude(v as int) as u128, scale: 0 }
}

/// A value as a fraction: an integer becomes the fraction equal to it.
pub open spec fn spec_into_float(val: Val) -> Val {
    match val {
        Val::Int(v) => Val::Float(decimal_of(v)),
        Val::Float(_) => val,
    }
}

/// Two values brought to one type: where one is an integer and the other a
/// fraction, both as fractions.
pub open spec fn spec_unify_types(left: Val, right: Val) -> (Val, Val) {
    if (left is Int) != (right is Int) {
        (spec_into_float(left), spec_into_float(right))
    } else {
        (left, right)
    }
}

impl Val {
    /// Tells whether the value is an integer.
    pub fn is_int(&self) -> (r: bool)
        ensures
            r == (*self is Int),
    {
        match self {
            Val::Int(_) => true,
            Val::Float(_) => false,
        }
    }

    /// The value as a fraction.
    pub fn into_float(self) -> (r: Val)
        ensures
            r == spec_into_float(self),
    {
        match self {
            Val::Int(v) => {
                let mantissa: u128 = if v < 0 {
                    (-(v as i128)) as u128
                } else {
                    v as u128
                };
                Val::Float(Decimal { negative: v < 0, mantissa, scale: 0 })
            },
            Val::Float(_) => self,
        }
    }
}

/// Brings two values to one type: where one is an integer and the other a
/// fraction, the integer becomes a fraction.
pub fn unify_types(left: Val, right: Val) -> (r: (Val, Val))
    ensures
        r == spec_unify_types(left, right),
{
    if left.is_int() != right.is_int() {
        (left.into_float(), right.into_float())
    } else {
        (left, right)
    }
}

/// Powers of one, of zero and of minus one.
proof fn lemma_pow_small_base(b: int, e: nat)
    requires
        -1 <= b <= 1,
    ensures
        b == 1 ==> pow(b, e) == 1,
        b == 0 && e > 0 ==> pow(b, e) == 0,
        b == -1 ==> pow(b, e) == (if e % 2 == 0 {
            1int
        } else {
            -1int
        }),
    decreases e,
{
    reveal(pow);
    if e > 0 {
        lemma_pow_small_base(b, (e - 1) as nat);
    }
}

/// The size of a power is the power of the size.
proof fn lemma_pow_magnitude(b: int, e: nat)
    ensures
        magnitude(pow(b, e)) == pow(magnitude(b), e),
    decreases e,
{
    reveal(pow);
    if e > 0 {
        lemma_pow_magnitude(b, (e - 1) as nat);
        let rest = pow(b, (e - 1) as nat);
        assert(magnitude(b * rest) == magnitude(b) * magnitude(rest)) by (nonlinear_arith);
    }
}

/// The powers of a base of size two or more grow in size with the exponent.
proof fn lemma_pow_grows(b: int, k: nat, e: nat)
    requires
        magnitude(b) >= 2,
        k < e,
    ensures
        magnitude(pow(b, k)) < magnitude(pow(b, e)),
{
    lemma_pow_magnitude(b, k);
    lemma_pow_magnitude(b, e);
    lemma_pow_strictly_increases(magnitude(b) as nat, k, e);
}

/// `base` to the power `exp`, where it fits in 64 bits.
fn checked_pow(base: i64, exp: u32) -> (r: Option<i64>)
    ensures
        r == (if i64::MIN <= pow(base as int, exp as nat) <= i64::MAX {
            Some(pow(base as int, exp as nat) as i64)
        } else {
            None
        }),
{
    proof {
        lemma_pow0(base as int);
    }
    if exp == 0 {
        return Some(1);
    }
    if base == 0 || base == 1 {
        proof {
            lemma_pow_small_base(base as int, exp as nat);
        }
        return Some(base);
    }
    if base == -1 {
        proof {
            lemma_pow_small_base(base as int, exp as nat);
        }
        return Some(
            if exp % 2 == 0 {
                1
            } else {
                -1
            },
        );
    }
    let mut acc: i64 = 1;
    let mut i: u32 = 0;
    while i < exp
        invariant
            i <= exp,
            magnitude(base as int) >= 2,
            acc == pow(base as int, i as nat),
        decreases exp - i,
    {
        proof {
            reveal(pow);
            assert(pow(base as int, (i + 1) as nat) == base * pow(base as int, i as nat));
            assert(acc * base == base * acc) by (nonlinear_arith);
        }
        match acc.checked_mul(base) {
            Some(next) => {
                acc = next;
            },
            None => {
                proof {
                    if i + 1 < exp {
                        lemma_pow_grows(base as int, (i + 1) as nat, exp as nat);
                    }
                }
                return None;
            },
        }
        i = i + 1;
    }
    Some(acc)
}

/// Applies an operator to two integers. It fails where the divisor of a
/// division or a remainder is zero, and where the result does not fit in 64
/// bits.
pub fn int_op(op: Op, l: i64, r: i64) -> (res: Result<i64, ExecError>)
    ensures
        res == spec_int_op(op, l, r),
{
    let value = match op {
        Op::Add => l.checked_add(r),
        Op::Sub => l.checked_sub(r),
        Op::Mul => l.checked_mul(r),
        Op::Mod => {
            if r == 0 {
                return Err(ExecError::DivisionByZero);
            }
            if r == -1 {
                assert(magnitude(l as int) % 1 == 0);
                return Ok(0);
            }
            l.checked_rem(r)
        },
        Op::Div => {
            if r == 0 {
                return Err(ExecError::DivisionByZero);
            }
            l.checked_div(r)
        },
        Op::Pow => checked_pow(
            l,
            #[verifier::truncate]
            (r as u32),
        ),
    };
    match value {
        Some(v) => Ok(v),
        None => Err(ExecError::Overflow),
    }
}

/// The integer value of an expression. It fails where the expression holds
/// a fraction, and where an operator fails.
pub fn exec_int(exp: &Exp) -> (r: Result<i64, ExecError>)
    ensures
        r == spec_exec_int(*exp),
    decreases exp,
{
    match exp {
        Exp::Val(Val::Int(v)) => Ok(*v),
        Exp::Val(Val::Float(_)) => Err(ExecError::Fraction),
        Exp::Exp { op, left, right } => {
            let l = match exec_int(left) {
                Ok(l) => l,
                Err(e) => {
                    return Err(e);
                },
            };
            let r = match exec_int(right) {
                Ok(r) => r,
                Err(e) => {
                    return Err(e);
                },
            };
            int_op(*op, l, r)
        },
    }
}

} // verus!
