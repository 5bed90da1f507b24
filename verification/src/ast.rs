//! The expression tree and the values at its leaves.

use vstd::prelude::*;

verus! {

/// The binary operators.
#[derive(Debug, PartialEq, Eq, Clone, Copy, Hash, Structural)]
pub enum Op {
    /// `+`
    Add,
    /// `-`
    Sub,
    /// `*`
    Mul,
    /// `%`
    Mod,
    /// `/`
    Div,
    /// `^`
    Pow,
}

impl Op {
    /// The precedence rank: an operator of lower rank binds tighter.
    pub open spec fn rank(self) -> int {
        match self {
            Op::Add => 3,
            Op::Sub => 3,
            Op::Mul => 2,
            Op::Mod => 2,
            Op::Div => 2,
            Op::Pow => 1,
        }
    }

    /// The precedence rank: an operator of lower rank binds tighter.
    pub fn order(&self) -> (rank: u8)
        ensures
            rank == self.rank(),
    {
        match self {
            Op::Add => 3,
            Op::Sub => 3,
            Op::Mul => 2,
            Op::Mod => 2,
            Op::Div => 2,
            Op::Pow => 1,
        }
    }
}

/// A decimal fraction: the number that a literal with a decimal separator
/// denotes, kept exactly. It stands for `mantissa / 10^scale`, negated where
/// `negative` is set.
#[derive(Debug, PartialEq, Eq, Clone, Copy, Hash, Structural)]
pub struct Decimal {
    /// Whether the number carries a minus sign.
    pub negative: bool,
    /// All the digits of the literal, read as one number.
    pub mantissa: u128,
    /// How many of those digits stand behind the decimal separator.
    pub scale: usize,
}

/// A value at a leaf of the tree.
#[derive(Debug, PartialEq, Eq, Clone, Copy, Hash, Structural)]
pub enum Val {
    /// An integer.
    Int(i64),
    /// A number with a fractional part.
    Float(Decimal),
}

/// An expression: a value, or an operator applied to two expressions.
#[derive(Debug, PartialEq, Eq)]
pub enum Exp {
    /// A literal value.
    Val(Val),
    /// A binary operation.
    Exp { op: Op, left: Box<Exp>, right: Box<Exp> },
}

impl Clone for Exp {
    fn clone(&self) -> (copy: Self)
        ensures
            copy == *self,
        decreases self,
    {
        match self {
            Exp::Val(val) => Exp::Val(*val),
            Exp::Exp { op, left, right } => Exp::Exp {
                op: *op,
                left: Box::new((&**left).clone()),
                right: Box::new((&**right).clone()),
            },
        }
    }
}

/// An item of the flat run of operands and operators that the parser
/// collects before it builds the tree.
#[derive(Debug, PartialEq, Eq)]
pub enum Sequence {
    /// An expression in parentheses, already built.
    Exp(Exp),
    /// An operator.
    Op(Op),
    /// A literal value.
    Operand(Val),
}

impl Clone for Sequence {
    fn clone(&self) -> (copy: Self)
        ensures
            copy == *self,
    {
        match self {
            Sequence::Exp(exp) => Sequence::Exp(exp.clone()),
            Sequence::Op(op) => Sequence::Op(*op),
            Sequence::Operand(val) => Sequence::Operand(*val),
        }
    }
}

impl Sequence {
    /// The expression that an operand stands for; an operator stands for none.
    pub open spec fn as_exp(self) -> Option<Exp> {
        match self {
            Sequence::Exp(exp) => Some(exp),
            Sequence::Op(_) => None,
            Sequence::Operand(val) => Some(Exp::Val(val)),
        }
    }

    /// The operator, if the item is one.
    pub fn op(&self) -> (r: Option<Op>)
        ensures
            r == (match *self {
                Sequence::Op(op) => Some(op),
                _ => None,
            }),
    {
        match self {
            Sequence::Op(op) => Some(*op),
            _ => None,
        }
    }

    /// The literal value, if the item is one.
    pub fn val(&self) -> (r: Option<Val>)
        ensures
            r == (match *self {
                Sequence::Operand(val) => Some(val),
                _ => None,
            }),
    {
        match self {
            Sequence::Operand(val) => Some(*val),
            _ => None,
        }
    }

    /// The expression that an operand stands for; an operator stands for none.
    pub fn exp(self) -> (r: Option<Exp>)
        ensures
            r == self.as_exp(),
    {
        match self {
            Sequence::Exp(exp) => Some(exp),
            Sequence::Op(_) => None,
            Sequence::Operand(val) => Some(Exp::Val(val)),
        }
    }
}

} // verus!
