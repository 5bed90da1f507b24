//! Lowers an expression tree to instructions of an abstract machine with an
//! accumulator and a temporary register for integers, and the same for
//! fractions; a backend turns each instruction into bytes.

use crate::buffer::Asm;
use crate::ast::{Decimal, Exp, Op, Val};
use vstd::prelude::*;

verus! {

/// The type of the value of an expression.
#[derive(Debug, PartialEq, Eq, Clone, Copy, Hash, Structural)]
pub enum Rt {
    /// An integer.
    Int,
    /// A fraction.
    Float,
}

/// The operations of the abstract machine.
#[derive(Debug, PartialEq, Eq, Clone, Copy, Hash, Structural)]
pub enum Opcode {
    MovI,
    MovF,
    StoreI,
    StoreF,
    CastF,
    AddI,
    AddF,
    SubI,
    SubF,
    MulI,
    MulF,
    ModI,
    ModF,
    DivI,
    DivF,
    PowI,
    PowF,
    Ret,
}

/// A backend cannot encode an instruction.
#[derive(Debug, PartialEq, Eq, Clone, Copy, Hash, Structural)]
pub struct CodegenError {
    /// The operation of the instruction.
    pub opcode: Opcode,
}

/// An instruction of the abstract machine, over the integer registers `I`
/// and the fraction registers `F` of a backend. An arithmetic instruction
/// works on the accumulator of its class and the register it names, and
/// leaves the result in the accumulator.
#[allow(inconsistent_fields)]
pub enum Instr<I, F> {
    /// Copies an integer register.
    MovI { from: I, to: I },
    /// Copies a fraction register.
    MovF { from: F, to: F },
    /// Loads an integer.
    StoreI { reg: I, val: i64 },
    /// Loads a fraction.
    StoreF { reg: F, val: Decimal },
    /// Converts an integer to a fraction.
    CastF { from: I, to: F },
    AddI { reg: I },
    AddF { reg: F },
    SubI { reg: I },
    SubF { reg: F },
    MulI { reg: I },
    MulF { reg: F },
    ModI { reg: I },
    ModF { reg: F },
    DivI { reg: I },
    DivF { reg: F },
    PowI { reg: I },
    PowF { reg: F },
    /// Returns to the caller.
    Ret,
}

impl<I, F> Instr<I, F> {
    /// The operation of the instruction.
    pub open spec fn opcode(self) -> Opcode {
        match self {
            Instr::MovI { .. } => Opcode::MovI,
            Instr::MovF { .. } => Opcode::MovF,
            Instr::StoreI { .. } => Opcode::StoreI,
            Instr::StoreF { .. } => Opcode::StoreF,
            Instr::CastF { .. } => Opcode::CastF,
            Instr::AddI { .. } => Opcode::AddI,
            Instr::AddF { .. } => Opcode::AddF,
            Instr::SubI { .. } => Opcode::SubI,
            Instr::SubF { .. } => Opcode::SubF,
            Instr::MulI { .. } => Opcode::MulI,
            Instr::MulF { .. } => Opcode::MulF,
            Instr::ModI { .. } => Opcode::ModI,
            Instr::ModF { .. } => Opcode::ModF,
            Instr::DivI { .. } => Opcode::DivI,
            Instr::DivF { .. } => Opcode::DivF,
            Instr::PowI { .. } => Opcode::PowI,
            Instr::PowF { .. } => Opcode::PowF,
            Instr::Ret => Opcode::Ret,
        }
    }
}

/// A backend: one method for each instruction of the abstract machine, which
/// appends the instruction's encoding to the backend's code, or fails and
/// appends nothing where the backend has no encoding for it.
pub trait Arch: Sized {
    /// The integer registers.
    type IntReg: Copy;

    /// The fraction registers.
    type FloatReg: Copy;

    /// The register in which a function returns an integer.
    spec fn spec_int_ret() -> Self::IntReg;

    /// The register in which a function returns a fraction.
    spec fn spec_float_ret() -> Self::FloatReg;

    /// The integer accumulator.
    spec fn spec_int_acc() -> Self::IntReg;

    /// The fraction accumulator.
    spec fn spec_float_acc() -> Self::FloatReg;

    /// The integer temporary.
    spec fn spec_int_tmp() -> Self::IntReg;

    /// The fraction temporary.
    spec fn spec_float_tmp() -> Self::FloatReg;

    /// The code emitted so far.
    spec fn code(&self) -> Seq<u8>;

    /// The bytes that stand for `instr`, where the backend can encode it.
    spec fn encoding(instr: Instr<Self::IntReg, Self::FloatReg>) -> Option<Seq<u8>>;

    /// The register in which a function returns an integer.
    fn int_ret() -> (reg: Self::IntReg)
        ensures
            reg == Self::spec_int_ret(),
    ;

    /// The register in which a function returns a fraction.
    fn float_ret() -> (reg: Self::FloatReg)
        ensures
            reg == Self::spec_float_ret(),
    ;

    /// The integer accumulator.
    fn int_acc() -> (reg: Self::IntReg)
        ensures
            reg == Self::spec_int_acc(),
    ;

    /// The fraction accumulator.
    fn float_acc() -> (reg: Self::FloatReg)
        ensures
            reg == Self::spec_float_acc(),
    ;

    /// The integer temporary.
    fn int_tmp() -> (reg: Self::IntReg)
        ensures
            reg == Self::spec_int_tmp(),
    ;

    /// The fraction temporary.
    fn float_tmp() -> (reg: Self::FloatReg)
        ensures
            reg == Self::spec_float_tmp(),
    ;

    /// Tells whether two integer registers are the same.
    fn same_int(a: Self::IntReg, b: Self::IntReg) -> (same: bool)
        ensures
            same == (a == b),
    ;

    /// Tells whether two fraction registers are the same.
    fn same_float(a: Self::FloatReg, b: Self::FloatReg) -> (same: bool)
        ensures
            same == (a == b),
    ;

    /// Copies the integer register `from` to `to`.
    fn movi(&mut self, from: Self::IntReg, to: Self::IntReg) -> (r: Result<(), CodegenError>)
        ensures
            emitted(
                old(self).code(),
                final(self).code(),
                r,
                Opcode::MovI,
                Self::encoding(Instr::MovI { from, to }),
            ),
    ;

    /// Copies the fraction register `from` to `to`.
    fn movf(&mut self, from: Self::FloatReg, to: Self::FloatReg) -> (r: Result<(), CodegenError>)
        ensures
            emitted(
                old(self).code(),
                final(self).code(),
                r,
                Opcode::MovF,
                Self::encoding(Instr::MovF { from, to }),
            ),
    ;

    /// Loads the integer `val` into `reg`.
    fn storei(&mut self, reg: Self::IntReg, val: i64) -> (r: Result<(), CodegenError>)
        ensures
            emitted(
                old(self).code(),
                final(self).code(),
                r,
                Opcode::StoreI,
                Self::encoding(Instr::StoreI { reg, val }),
            ),
    ;

    /// Loads the fraction `val` into `reg`.
    fn storef(&mut self, reg: Self::FloatReg, val: Decimal) -> (r: Result<(), CodegenError>)
        ensures
            emitted(
                old(self).code(),
                final(self).code(),
                r,
                Opcode::StoreF,
                Self::encoding(Instr::StoreF { reg, val }),
            ),
    ;

    /// Converts the integer in `from` to a fraction in `to`.
    fn castf(&mut self, from: Self::IntReg, to: Self::FloatReg) -> (r: Result<(), CodegenError>)
        ensures
            emitted(
                old(self).code(),
                final(self).code(),
                r,
                Opcode::CastF,
                Self::encoding(Instr::CastF { from, to }),
            ),
    ;

    /// Adds `reg` to the integer accumulator.
    fn addi(&mut self, reg: Self::IntReg) -> (r: Result<(), CodegenError>)
        ensures
            emitted(
                old(self).code(),
                final(self).code(),
                r,
                Opcode::AddI,
                Self::encoding(Instr::AddI { reg }),
            ),
    ;

    /// Adds `reg` to the fraction accumulator.
    fn addf(&mut self, reg: Self::FloatReg) -> (r: Result<(), CodegenError>)
        ensures
            emitted(
                old(self).code(),
                final(self).code(),
                r,
                Opcode::AddF,
                Self::encoding(Instr::AddF { reg }),
            ),
    ;

    /// Subtracts `reg` from the integer accumulator.
    fn subi(&mut self, reg: Self::IntReg) -> (r: Result<(), CodegenError>)
        ensures
            emitted(
                old(self).code(),
                final(self).code(),
                r,
                Opcode::SubI,
                Self::encoding(Instr::SubI { reg }),
            ),
    ;

    /// Subtracts `reg` from the fraction accumulator.
    fn subf(&mut self, reg: Self::FloatReg) -> (r: Result<(), CodegenError>)
        ensures
            emitted(
                old(self).code(),
                final(self).code(),
                r,
                Opcode::SubF,
                Self::encoding(Instr::SubF { reg }),
            ),
    ;

    /// Multiplies by `reg` the integer accumulator.
    fn muli(&mut self, reg: Self::IntReg) -> (r: Result<(), CodegenError>)
        ensures
            emitted(
                old(self).code(),
                final(self).code(),
                r,
                Opcode::MulI,
                Self::encoding(Instr::MulI { reg }),
            ),
    ;

    /// Multiplies by `reg` the fraction accumulator.
    fn mulf(&mut self, reg: Self::FloatReg) -> (r: Result<(), CodegenError>)
        ensures
            emitted(
                old(self).code(),
                final(self).code(),
                r,
                Opcode::MulF,
                Self::encoding(Instr::MulF { reg }),
            ),
    ;

    /// Leaves the remainder by `reg` of the integer accumulator.
    fn modi(&mut self, reg: Self::IntReg) -> (r: Result<(), CodegenError>)
        ensures
            emitted(
                old(self).code(),
                final(self).code(),
                r,
                Opcode::ModI,
                Self::encoding(Instr::ModI { reg }),
            ),
    ;

    /// Leaves the remainder by `reg` of the fraction accumulator.
    fn modf(&mut self, reg: Self::FloatReg) -> (r: Result<(), CodegenError>)
        ensures
            emitted(
                old(self).code(),
                final(self).code(),
                r,
                Opcode::ModF,
                Self::encoding(Instr::ModF { reg }),
            ),
    ;

    /// Divides by `reg` the integer accumulator.
    fn divi(&mut self, reg: Self::IntReg) -> (r: Result<(), CodegenError>)
        ensures
            emitted(
                old(self).code(),
                final(self).code(),
                r,
                Opcode::DivI,
                Self::encoding(Instr::DivI { reg }),
            ),
    ;

    /// Divides by `reg` the fraction accumulator.
    fn divf(&mut self, reg: Self::FloatReg) -> (r: Result<(), CodegenError>)
        ensures
            emitted(
                old(self).code(),
                final(self).code(),
                r,
                Opcode::DivF,
                Self::encoding(Instr::DivF { reg }),
            ),
    ;

    /// Raises to the power `reg` the integer accumulator.
    fn powi(&mut self, reg: Self::IntReg) -> (r: Result<(), CodegenError>)
        ensures
            emitted(
                old(self).code(),
                final(self).code(),
                r,
                Opcode::PowI,
                Self::encoding(Instr::PowI { reg }),
            ),
    ;

    /// Raises to the power `reg` the fraction accumulator.
    fn powf(&mut self, reg: Self::FloatReg) -> (r: Result<(), CodegenError>)
        ensures
            emitted(
                old(self).code(),
                final(self).code(),
                r,
                Opcode::PowF,
                Self::encoding(Instr::PowF { reg }),
            ),
    ;

    /// Returns to the caller.
    fn ret(&mut self) -> (r: Result<(), CodegenError>)
        ensures
            emitted(
                old(self).code(),
                final(self).code(),
                r,
                Opcode::Ret,
                Self::encoding(Instr::Ret),
            ),
    ;

    /// Hands over the code.
    fn into_code(self) -> (buffer: Asm)
        ensures
            buffer@ == self.code(),
    ;
}

/// What emitting the instructions `instrs` in turn appends to the code of a
/// backend `A`, and the error that ends it: at the first instruction that `A`
/// cannot encode nothing more is appended.
pub open spec fn assemble<A: Arch>(instrs: Seq<Instr<A::IntReg, A::FloatReg>>) -> (
    Seq<u8>,
    Option<CodegenError>,
)
    decreases instrs.len(),
{
    if instrs.len() == 0 {
        (Seq::empty(), None)
    } else {
        match A::encoding(instrs[0]) {
            None => (Seq::empty(), Some(CodegenError { opcode: instrs[0].opcode() })),
            Some(bytes) => {
                let (rest, err) = assemble::<A>(instrs.drop_first());
                (bytes + rest, err)
            },
        }
    }
}

/// Tells whether a backend whose code went from `before` to `after` and
/// which answered `r` has emitted an instruction of operation `opcode` whose
/// encoding, where it has one, is `encoding`.
pub open spec fn emitted(
    before: Seq<u8>,
    after: Seq<u8>,
    r: Result<(), CodegenError>,
    opcode: Opcode,
    encoding: Option<Seq<u8>>,
) -> bool {
    match encoding {
        Some(bytes) => r == Ok::<(), CodegenError>(()) && after == before + bytes,
        None => r == Err::<(), CodegenError>(CodegenError { opcode }) && after == before,
    }
}

/// The answer of a backend that stopped with `err`, or did not stop.
pub open spec fn outcome(err: Option<CodegenError>) -> Result<(), CodegenError> {
    match err {
        None => Ok(()),
        Some(e) => Err(e),
    }
}

/// Tells whether a backend `A` whose code went from `before` to `after` and
/// which answered `r` has emitted the instructions `instrs` in turn, as far
/// as it can encode them.
pub open spec fn generated<A: Arch>(
    before: Seq<u8>,
    after: Seq<u8>,
    r: Result<(), CodegenError>,
    instrs: Seq<Instr<A::IntReg, A::FloatReg>>,
) -> bool {
    after == before + assemble::<A>(instrs).0 && r == outcome(assemble::<A>(instrs).1)
}

/// The type of the value of `exp`: a fraction where a fraction occurs in it.
pub open spec fn result_type(exp: Exp) -> Rt
    decreases exp,
{
    match exp {
        Exp::Val(Val::Int(_)) => Rt::Int,
        Exp::Val(Val::Float(_)) => Rt::Float,
        Exp::Exp { op: _, left, right } => if result_type(*left) == Rt::Float || result_type(
            *right,
        ) == Rt::Float {
            Rt::Float
        } else {
            Rt::Int
        },
    }
}

/// The instruction that applies `op` to the accumulator and the temporary of
/// one class: the integers where `integer` is set, the fractions else.
pub open spec fn operation<A: Arch>(op: Op, integer: bool) -> Instr<A::IntReg, A::FloatReg> {
    if integer {
        let reg = A::spec_int_tmp();
        match op {
            Op::Add => Instr::AddI { reg },
            Op::Sub => Instr::SubI { reg },
            Op::Mul => Instr::MulI { reg },
            Op::Mod => Instr::ModI { reg },
            Op::Div => Instr::DivI { reg },
            Op::Pow => Instr::PowI { reg },
        }
    } else {
        let reg = A::spec_float_tmp();
        match op {
            Op::Add => Instr::AddF { reg },
            Op::Sub => Instr::SubF { reg },
            Op::Mul => Instr::MulF { reg },
            Op::Mod => Instr::ModF { reg },
            Op::Div => Instr::DivF { reg },
            Op::Pow => Instr::PowF { reg },
        }
    }
}

/// The conversion of the accumulator, due where the left operand is an
/// integer and the right one a fraction.
pub open spec fn promote_left<A: Arch>(left: Rt, right: Rt) -> Seq<Instr<A::IntReg, A::FloatReg>> {
    if left == Rt::Int && right == Rt::Float {
        seq![Instr::CastF { from: A::spec_int_acc(), to: A::spec_float_acc() }]
    } else {
        Seq::empty()
    }
}

/// The conversion of the temporary, due where the right operand is an
/// integer and the left one a fraction.
pub open spec fn promote_right<A: Arch>(left: Rt, right: Rt) -> Seq<Instr<A::IntReg, A::FloatReg>> {
    if right == Rt::Int && left == Rt::Float {
        seq![Instr::CastF { from: A::spec_int_tmp(), to: A::spec_float_tmp() }]
    } else {
        Seq::empty()
    }
}

/// The copy of the accumulator to the register asked for, due where that is
/// another register.
pub open spec fn deliver<A: Arch>(rt: Rt, ireg: A::IntReg, freg: A::FloatReg) -> Seq<
    Instr<A::IntReg, A::FloatReg>,
> {
    match rt {
        Rt::Int => if A::spec_int_acc() != ireg {
            seq![Instr::MovI { from: A::spec_int_acc(), to: ireg }]
        } else {
            Seq::empty()
        },
        Rt::Float => if A::spec_float_acc() != freg {
            seq![Instr::MovF { from: A::spec_float_acc(), to: freg }]
        } else {
            Seq::empty()
        },
    }
}

/// The instructions that leave the value of `exp` in `ireg` where it is an
/// integer, in `freg` where it is a fraction.
///
/// A literal is loaded. For an operation the left operand is computed into
/// the accumulator of its class and the right one into the temporary; where
/// one is an integer and the other a fraction, the integer is converted; the
/// operator is applied to the two in the class of the result; and the
/// accumulator is copied to the register asked for.
pub open spec fn program<A: Arch>(exp: Exp, ireg: A::IntReg, freg: A::FloatReg) -> Seq<
    Instr<A::IntReg, A::FloatReg>,
>
    decreases exp,
{
    match exp {
        Exp::Val(Val::Int(val)) => seq![Instr::StoreI { reg: ireg, val }],
        Exp::Val(Val::Float(val)) => seq![Instr::StoreF { reg: freg, val }],
        Exp::Exp { op, left, right } => {
            let lt = result_type(*left);
            let rt = result_type(*right);
            program::<A>(*left, A::spec_int_acc(), A::spec_float_acc()) + promote_left::<A>(lt, rt)
                + program::<A>(*right, A::spec_int_tmp(), A::spec_float_tmp()) + promote_right::<
                A,
            >(lt, rt) + seq![operation::<A>(op, result_type(exp) == Rt::Int)] + deliver::<A>(
                result_type(exp),
                ireg,
                freg,
            )
        },
    }
}

/// The instructions of the function that computes `exp`: its value is left
/// in the return register of its type, and the function returns.
pub open spec fn function<A: Arch>(exp: Exp) -> Seq<Instr<A::IntReg, A::FloatReg>> {
    program::<A>(exp, A::spec_int_ret(), A::spec_float_ret()).push(Instr::Ret)
}

/// Tells whether `part` is `exp` or occurs in it as an operand, at any depth.
pub open spec fn occurs_in(part: Exp, exp: Exp) -> bool
    decreases exp,
{
    part == exp || match exp {
        Exp::Val(_) => false,
        Exp::Exp { op: _, left, right } => occurs_in(part, *left) || occurs_in(part, *right),
    }
}

/// An operation on an integer and a fraction yields a fraction.
pub proof fn lemma_mixed_operands(op: Op, left: Exp, right: Exp)
    requires
        result_type(left) != result_type(right),
    ensures
        result_type(Exp::Exp { op, left: Box::new(left), right: Box::new(right) }) == Rt::Float,
{
}

/// Type promotion: an expression in which a fraction occurs, at any depth,
/// yields a fraction.
pub proof fn lemma_promotion(part: Exp, exp: Exp)
    requires
        occurs_in(part, exp),
        result_type(part) == Rt::Float,
    ensures
        result_type(exp) == Rt::Float,
    decreases exp,
{
    if part != exp {
        match exp {
            Exp::Val(_) => {},
            Exp::Exp { op: _, left, right } => {
                if occurs_in(part, *left) {
                    lemma_promotion(part, *left);
                } else {
                    lemma_promotion(part, *right);
                }
            },
        }
    }
}

/// Compiling is a function: a backend that starts from the same code emits
/// the same bytes for the same expression, and gives the same answer.
pub proof fn lemma_compile_deterministic<A: Arch>(
    exp: Exp,
    start: Seq<u8>,
    first: (Seq<u8>, Result<(), CodegenError>),
    second: (Seq<u8>, Result<(), CodegenError>),
)
    requires
        generated::<A>(start, first.0, first.1, function::<A>(exp)),
        generated::<A>(start, second.0, second.1, function::<A>(exp)),
    ensures
        first == second,
{
}

/// The number of values and operations in an expression.
pub open spec fn size(exp: Exp) -> nat
    decreases exp,
{
    match exp {
        Exp::Val(_) => 1,
        Exp::Exp { op: _, left, right } => 1 + size(*left) + size(*right),
    }
}

/// The code grows no faster than the expression: there are at most three
/// instructions for each value and each operation in it.
pub proof fn lemma_program_len<A: Arch>(exp: Exp, ireg: A::IntReg, freg: A::FloatReg)
    ensures
        1 <= program::<A>(exp, ireg, freg).len() <= 3 * size(exp),
    decreases exp,
{
    match exp {
        Exp::Val(_) => {},
        Exp::Exp { op: _, left, right } => {
            lemma_program_len::<A>(*left, A::spec_int_acc(), A::spec_float_acc());
            lemma_program_len::<A>(*right, A::spec_int_tmp(), A::spec_float_tmp());
        },
    }
}

/// Tells whether `instr` names no register but the accumulators, the
/// temporaries, `ireg` and `freg`.
pub open spec fn keeps_to<A: Arch>(
    instr: Instr<A::IntReg, A::FloatReg>,
    ireg: A::IntReg,
    freg: A::FloatReg,
) -> bool {
    let int_ok = |reg: A::IntReg|
        reg == A::spec_int_acc() || reg == A::spec_int_tmp() || reg == ireg;
    let float_ok = |reg: A::FloatReg|
        reg == A::spec_float_acc() || reg == A::spec_float_tmp() || reg == freg;
    match instr {
        Instr::MovI { from, to } => int_ok(from) && int_ok(to),
        Instr::MovF { from, to } => float_ok(from) && float_ok(to),
        Instr::StoreI { reg, val: _ } => int_ok(reg),
        Instr::StoreF { reg, val: _ } => float_ok(reg),
        Instr::CastF { from, to } => int_ok(from) && float_ok(to),
        Instr::AddI { reg } => int_ok(reg),
        Instr::AddF { reg } => float_ok(reg),
        Instr::SubI { reg } => int_ok(reg),
        Instr::SubF { reg } => float_ok(reg),
        Instr::MulI { reg } => int_ok(reg),
        Instr::MulF { reg } => float_ok(reg),
        Instr::ModI { reg } => int_ok(reg),
        Instr::ModF { reg } => float_ok(reg),
        Instr::DivI { reg } => int_ok(reg),
        Instr::DivF { reg } => float_ok(reg),
        Instr::PowI { reg } => int_ok(reg),
        Instr::PowF { reg } => float_ok(reg),
        Instr::Ret => true,
    }
}

/// The code of an expression uses the two accumulators, the two temporaries
/// and the registers that the value is asked for in, and no other register,
/// however deep the expression.
pub proof fn lemma_program_registers<A: Arch>(
    exp: Exp,
    ireg: A::IntReg,
    freg: A::FloatReg,
    k: int,
)
    requires
        0 <= k < program::<A>(exp, ireg, freg).len(),
    ensures
        keeps_to::<A>(program::<A>(exp, ireg, freg)[k], ireg, freg),
    decreases exp,
{
    match exp {
        Exp::Val(_) => {},
        Exp::Exp { op, left, right } => {
            let lt = result_type(*left);
            let rt = result_type(*right);
            let lhs = program::<A>(*left, A::spec_int_acc(), A::spec_float_acc());
            let lhs_cast = promote_left::<A>(lt, rt);
            let rhs = program::<A>(*right, A::spec_int_tmp(), A::spec_float_tmp());
            let rhs_cast = promote_right::<A>(lt, rt);
            let first = lhs.len() + lhs_cast.len();
            if k < lhs.len() {
                lemma_program_registers::<A>(*left, A::spec_int_acc(), A::spec_float_acc(), k);
            } else if first <= k < first + rhs.len() {
                lemma_program_registers::<A>(
                    *right,
                    A::spec_int_tmp(),
                    A::spec_float_tmp(),
                    k - first,
                );
            }
        },
    }
}

/// Emitting one run of instructions behind another emits the two joined,
/// unless the first stops.
pub proof fn lemma_assemble_concat<A: Arch>(
    first: Seq<Instr<A::IntReg, A::FloatReg>>,
    second: Seq<Instr<A::IntReg, A::FloatReg>>,
)
    ensures
        assemble::<A>(first + second) == (match assemble::<A>(first).1 {
            Some(_) => assemble::<A>(first),
            None => (
                assemble::<A>(first).0 + assemble::<A>(second).0,
                assemble::<A>(second).1,
            ),
        }),
    decreases first.len(),
{
    if first.len() == 0 {
        assert(first + second =~= second);
        assert(Seq::<u8>::empty() + assemble::<A>(second).0 =~= assemble::<A>(second).0);
    } else {
        assert((first + second).drop_first() =~= first.drop_first() + second);
        assert((first + second)[0] == first[0]);
        lemma_assemble_concat::<A>(first.drop_first(), second);
        match A::encoding(first[0]) {
            None => {},
            Some(bytes) => {
                let rest = assemble::<A>(first.drop_first());
                if rest.1 is None {
                    assert(bytes + (rest.0 + assemble::<A>(second).0) =~= (bytes + rest.0)
                        + assemble::<A>(second).0);
                }
            },
        }
    }
}

/// What a backend method promises of one instruction is to have emitted the
/// run that holds it alone.
pub proof fn lemma_emitted_one<A: Arch>(
    before: Seq<u8>,
    after: Seq<u8>,
    r: Result<(), CodegenError>,
    instr: Instr<A::IntReg, A::FloatReg>,
)
    requires
        emitted(before, after, r, instr.opcode(), A::encoding(instr)),
    ensures
        generated::<A>(before, after, r, seq![instr]),
{
    let one = seq![instr];
    assert(one.drop_first() =~= Seq::empty());
    assert(one[0] == instr);
    assert(assemble::<A>(one.drop_first()) == (Seq::<u8>::empty(), None::<CodegenError>));
    match A::encoding(instr) {
        None => {
            assert(before + Seq::<u8>::empty() =~= before);
        },
        Some(bytes) => {
            assert(bytes + Seq::<u8>::empty() =~= bytes);
        },
    }
}

/// A backend that has emitted `done` and goes on with `part` has emitted the
/// two joined; where it stops in `part`, whatever was to follow changes
/// nothing.
pub proof fn lemma_then<A: Arch>(
    start: Seq<u8>,
    before: Seq<u8>,
    after: Seq<u8>,
    r: Result<(), CodegenError>,
    done: Seq<Instr<A::IntReg, A::FloatReg>>,
    part: Seq<Instr<A::IntReg, A::FloatReg>>,
    rest: Seq<Instr<A::IntReg, A::FloatReg>>,
)
    requires
        generated::<A>(start, before, Ok(()), done),
        generated::<A>(before, after, r, part),
    ensures
        r is Ok ==> generated::<A>(start, after, r, done + part),
        r is Err ==> generated::<A>(start, after, r, done + part + rest),
{
    lemma_assemble_concat::<A>(done, part);
    lemma_assemble_concat::<A>(done + part, rest);
    assert(start + (assemble::<A>(done).0 + assemble::<A>(part).0) =~= (start + assemble::<A>(
        done,
    ).0) + assemble::<A>(part).0);
}

/// What can be lowered to instructions.
pub trait AsmCode {
    /// The expression that the value is.
    spec fn tree(&self) -> Exp;

    /// The type of the value.
    fn result_type(&self) -> (rt: Rt)
        ensures
            rt == result_type(self.tree()),
    ;

    /// Emits the instructions that leave the value in `ireg` where it is an
    /// integer, in `freg` where it is a fraction. It fails at the first
    /// instruction that the backend cannot encode, and emits no more.
    fn to_asm<A: Arch>(&self, arch: &mut A, ireg: A::IntReg, freg: A::FloatReg) -> (r: Result<
        (),
        CodegenError,
    >)
        ensures
            generated::<A>(
                old(arch).code(),
                final(arch).code(),
                r,
                program::<A>(self.tree(), ireg, freg),
            ),
    ;
}

impl AsmCode for Val {
    open spec fn tree(&self) -> Exp {
        Exp::Val(*self)
    }

    fn result_type(&self) -> (rt: Rt) {
        match self {
            Val::Int(_) => Rt::Int,
            Val::Float(_) => Rt::Float,
        }
    }

    fn to_asm<A: Arch>(&self, arch: &mut A, ireg: A::IntReg, freg: A::FloatReg) -> (r: Result<
        (),
        CodegenError,
    >) {
        let ghost before = arch.code();
        match self {
            Val::Int(val) => {
                let r = arch.storei(ireg, *val);
                proof {
                    lemma_emitted_one::<A>(
                        before,
                        arch.code(),
                        r,
                        Instr::StoreI { reg: ireg, val: *val },
                    );
                }
                r
            },
            Val::Float(val) => {
                let r = arch.storef(freg, *val);
                proof {
                    lemma_emitted_one::<A>(
                        before,
                        arch.code(),
                        r,
                        Instr::StoreF { reg: freg, val: *val },
                    );
                }
                r
            },
        }
    }
}

/// Emits the instruction that applies `op` to the accumulator and the
/// temporary of one class: the integers where `integer` is set, the fractions
/// else.
fn apply<A: Arch>(arch: &mut A, op: Op, integer: bool) -> (r: Result<(), CodegenError>)
    ensures
        generated::<A>(
            old(arch).code(),
            final(arch).code(),
            r,
            seq![operation::<A>(op, integer)],
        ),
{
    let ghost before = arch.code();
    let r = if integer {
        let reg = A::int_tmp();
        match op {
            Op::Add => arch.addi(reg),
            Op::Sub => arch.subi(reg),
            Op::Mul => arch.muli(reg),
            Op::Mod => arch.modi(reg),
            Op::Div => arch.divi(reg),
            Op::Pow => arch.powi(reg),
        }
    } else {
        let reg = A::float_tmp();
        match op {
            Op::Add => arch.addf(reg),
            Op::Sub => arch.subf(reg),
            Op::Mul => arch.mulf(reg),
            Op::Mod => arch.modf(reg),
            Op::Div => arch.divf(reg),
            Op::Pow => arch.powf(reg),
        }
    };
    proof {
        lemma_emitted_one::<A>(before, arch.code(), r, operation::<A>(op, integer));
    }
    r
}

/// Emits the copy of the accumulator of the class `rt` to the register asked
/// for, where that is another register.
fn deliver_to<A: Arch>(arch: &mut A, rt: Rt, ireg: A::IntReg, freg: A::FloatReg) -> (r: Result<
    (),
    CodegenError,
>)
    ensures
        generated::<A>(old(arch).code(), final(arch).code(), r, deliver::<A>(rt, ireg, freg)),
{
    let ghost before = arch.code();
    proof {
        assert(before + Seq::<u8>::empty() =~= before);
    }
    match rt {
        Rt::Int => {
            if A::same_int(A::int_acc(), ireg) {
                return Ok(());
            }
            let r = arch.movi(A::int_acc(), ireg);
            proof {
                lemma_emitted_one::<A>(
                    before,
                    arch.code(),
                    r,
                    Instr::MovI { from: A::spec_int_acc(), to: ireg },
                );
            }
            r
        },
        Rt::Float => {
            if A::same_float(A::float_acc(), freg) {
                return Ok(());
            }
            let r = arch.movf(A::float_acc(), freg);
            proof {
                lemma_emitted_one::<A>(
                    before,
                    arch.code(),
                    r,
                    Instr::MovF { from: A::spec_float_acc(), to: freg },
                );
            }
            r
        },
    }
}

/// Emits the conversion of the integer in `from` to a fraction in `to` where
/// `due` is set, and nothing else.
fn promote<A: Arch>(arch: &mut A, due: bool, from: A::IntReg, to: A::FloatReg) -> (r: Result<
    (),
    CodegenError,
>)
    ensures
        generated::<A>(
            old(arch).code(),
            final(arch).code(),
            r,
            if due {
                seq![Instr::CastF { from, to }]
            } else {
                Seq::empty()
            },
        ),
{
    let ghost before = arch.code();
    if !due {
        proof {
            assert(before + Seq::<u8>::empty() =~= before);
        }
        return Ok(());
    }
    let r = arch.castf(from, to);
    proof {
        lemma_emitted_one::<A>(before, arch.code(), r, Instr::CastF { from, to });
    }
    r
}

impl AsmCode for Exp {
    open spec fn tree(&self) -> Exp {
        *self
    }

    fn result_type(&self) -> (rt: Rt)
        decreases self,
    {
        match self {
            Exp::Val(val) => val.result_type(),
            Exp::Exp { op: _, left, right } => {
                if left.result_type() == Rt::Float || right.result_type() == Rt::Float {
                    Rt::Float
                } else {
                    Rt::Int
                }
            },
        }
    }

    #[verifier::rlimit(30)]
    fn to_asm<A: Arch>(&self, arch: &mut A, ireg: A::IntReg, freg: A::FloatReg) -> (r: Result<
        (),
        CodegenError,
    >)
        decreases self,
    {
        match self {
            Exp::Val(val) => val.to_asm::<A>(arch, ireg, freg),
            Exp::Exp { op, left, right } => {
                let left_rt = left.result_type();
                let right_rt = right.result_type();
                let rt = if left_rt == Rt::Int && right_rt == Rt::Int {
                    Rt::Int
                } else {
                    Rt::Float
                };

                let ghost start = arch.code();
                let ghost none = Seq::<Instr<A::IntReg, A::FloatReg>>::empty();
                let ghost lhs = program::<A>(**left, A::spec_int_acc(), A::spec_float_acc());
                let ghost lhs_cast = promote_left::<A>(left_rt, right_rt);
                let ghost rhs = program::<A>(**right, A::spec_int_tmp(), A::spec_float_tmp());
                let ghost rhs_cast = promote_right::<A>(left_rt, right_rt);
                let ghost applied = seq![operation::<A>(*op, rt == Rt::Int)];
                let ghost moved = deliver::<A>(rt, ireg, freg);
                let ghost whole = program::<A>(*self, ireg, freg);
                proof {
                    assert(whole == lhs + lhs_cast + rhs + rhs_cast + applied + moved);
                    assert(start + Seq::<u8>::empty() =~= start);
                }

                let ghost before = arch.code();
                let r = left.to_asm::<A>(arch, A::int_acc(), A::float_acc());
                proof {
                    lemma_then::<A>(start, before, arch.code(), r, none, lhs, lhs_cast + rhs + rhs_cast + applied + moved);
                    assert(none + lhs =~= lhs);
                    assert(whole =~= none + lhs + (lhs_cast + rhs + rhs_cast + applied + moved));
                }
                if r.is_err() {
                    return r;
                }
                let ghost before = arch.code();
                let r = promote::<A>(
                    arch,
                    left_rt == Rt::Int && right_rt == Rt::Float,
                    A::int_acc(),
                    A::float_acc(),
                );
                proof {
                    lemma_then::<A>(start, before, arch.code(), r, lhs, lhs_cast, rhs + rhs_cast + applied + moved);
                    assert(whole =~= lhs + lhs_cast + (rhs + rhs_cast + applied + moved));
                }
                if r.is_err() {
                    return r;
                }
                let ghost before = arch.code();
                let r = right.to_asm::<A>(arch, A::int_tmp(), A::float_tmp());
                proof {
                    lemma_then::<A>(start, before, arch.code(), r, lhs + lhs_cast, rhs, rhs_cast + applied + moved);
                    assert(whole =~= lhs + lhs_cast + rhs + (rhs_cast + applied + moved));
                }
                if r.is_err() {
                    return r;
                }
                let ghost before = arch.code();
                let r = promote::<A>(
                    arch,
                    right_rt == Rt::Int && left_rt == Rt::Float,
                    A::int_tmp(),
                    A::float_tmp(),
                );
                proof {
                    lemma_then::<A>(start, before, arch.code(), r, lhs + lhs_cast + rhs, rhs_cast, applied + moved);
                    assert(whole =~= lhs + lhs_cast + rhs + rhs_cast + (applied + moved));
                }
                if r.is_err() {
                    return r;
                }
                let ghost before = arch.code();
                let r = apply::<A>(arch, *op, rt == Rt::Int);
                proof {
                    lemma_then::<A>(start, before, arch.code(), r, lhs + lhs_cast + rhs + rhs_cast, applied, moved);
                }
                if r.is_err() {
                    return r;
                }
                let ghost before = arch.code();
                let r = deliver_to::<A>(arch, rt, ireg, freg);
                proof {
                    lemma_then::<A>(start, before, arch.code(), r, lhs + lhs_cast + rhs + rhs_cast + applied, moved, none);
                    assert(whole + none =~= whole);
                }
                r
            },
        }
    }
}

/// Compiles `exp` to a function with the backend `arch`: the value is left
/// in the return register of its type, and the function returns. The result
/// is the type of the value and the code; it fails where the backend cannot
/// encode an instruction that `exp` needs.
pub fn compile<A: Arch>(exp: &Exp, arch: A) -> (r: Result<(Rt, Asm), CodegenError>)
    ensures
        match assemble::<A>(function::<A>(*exp)).1 {
            None => r matches Ok((rt, code)) && rt == result_type(*exp) && code@ == arch.code()
                + assemble::<A>(function::<A>(*exp)).0,
            Some(e) => r == Err::<(Rt, Asm), CodegenError>(e),
        },
{
    let mut arch = arch;
    let ghost start = arch.code();
    let ghost body = program::<A>(*exp, A::spec_int_ret(), A::spec_float_ret());
    let ghost end = seq![Instr::<A::IntReg, A::FloatReg>::Ret];
    proof {
        assert(function::<A>(*exp) =~= body + end);
    }
    let rt = exp.result_type();
    let r = exp.to_asm::<A>(&mut arch, A::int_ret(), A::float_ret());
    proof {
        assert(start + Seq::<u8>::empty() =~= start);
        lemma_then::<A>(start, start, arch.code(), r, Seq::empty(), body, end);
        assert(Seq::empty() + body =~= body);
    }
    match r {
        Err(e) => {
            return Err(e);
        },
        Ok(()) => {},
    }
    let ghost before = arch.code();
    let r = arch.ret();
    proof {
        lemma_emitted_one::<A>(before, arch.code(), r, Instr::Ret);
        lemma_then::<A>(start, before, arch.code(), r, body, end, Seq::empty());
        assert(body + end + Seq::empty() =~= body + end);
    }
    match r {
        Err(e) => Err(e),
        Ok(()) => Ok((rt, arch.into_code())),
    }
}

} // verus!
