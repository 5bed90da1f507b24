//! A backend that writes a listing: for each instruction a line of text
//! with its mnemonic and operands takes the place of machine code.

use crate::ast::Decimal;
use crate::buffer::Asm;
use crate::codegen::{Arch, CodegenError, Instr};
use crate::listing::{bare_line, line, make_bare_line, make_line};
use crate::render::{decimal_text, decimal_to_text, int_text, signed_text};
use vstd::prelude::*;
use vstd::string::*;
use vstd::utf8::*;

verus! {

/// What a register of the abstract machine is for.
#[derive(Debug, PartialEq, Eq, Clone, Copy, Hash, Structural)]
pub enum Role {
    /// It holds the value that a function returns.
    Res,
    /// It is the accumulator.
    Acc,
    /// It is the temporary.
    Tmp,
}

/// An integer register of the listing.
#[derive(Debug, PartialEq, Eq, Clone, Copy, Hash, Structural)]
pub struct IntReg {
    pub role: Role,
}

/// A fraction register of the listing.
#[derive(Debug, PartialEq, Eq, Clone, Copy, Hash, Structural)]
pub struct FloatReg {
    pub role: Role,
}

impl IntReg {
    /// The name of the register.
    pub open spec fn spec_name(self) -> Seq<char> {
        match self.role {
            Role::Res => "int_res"@,
            Role::Acc => "int_acc"@,
            Role::Tmp => "int_tmp"@,
        }
    }

    /// The name of the register.
    pub fn name(&self) -> (s: &'static str)
        ensures
            s@ == self.spec_name(),
    {
        match self.role {
            Role::Res => "int_res",
            Role::Acc => "int_acc",
            Role::Tmp => "int_tmp",
        }
    }
}

impl FloatReg {
    /// The name of the register.
    pub open spec fn spec_name(self) -> Seq<char> {
        match self.role {
            Role::Res => "float_res"@,
            Role::Acc => "float_acc"@,
            Role::Tmp => "float_tmp"@,
        }
    }

    /// The name of the register.
    pub fn name(&self) -> (s: &'static str)
        ensures
            s@ == self.spec_name(),
    {
        match self.role {
            Role::Res => "float_res",
            Role::Acc => "float_acc",
            Role::Tmp => "float_tmp",
        }
    }
}

/// The line of the listing for an instruction.
pub open spec fn mnemonic(instr: Instr<IntReg, FloatReg>) -> Seq<char> {
    let int_acc = (IntReg { role: Role::Acc }).spec_name();
    let float_acc = (FloatReg { role: Role::Acc }).spec_name();
    match instr {
        Instr::MovI { from, to } => line("movei"@, to.spec_name(), from.spec_name()),
        Instr::MovF { from, to } => line("movef"@, to.spec_name(), from.spec_name()),
        Instr::StoreI { reg, val } => line("movei"@, reg.spec_name(), int_text(val as int)),
        Instr::StoreF { reg, val } => line("movef"@, reg.spec_name(), decimal_text(val)),
        Instr::CastF { from, to } => line("movec"@, to.spec_name(), from.spec_name()),
        Instr::AddI { reg } => line("addi"@, int_acc, reg.spec_name()),
        Instr::AddF { reg } => line("addf"@, float_acc, reg.spec_name()),
        Instr::SubI { reg } => line("subi"@, int_acc, reg.spec_name()),
        Instr::SubF { reg } => line("subf"@, float_acc, reg.spec_name()),
        Instr::MulI { reg } => line("muli"@, int_acc, reg.spec_name()),
        Instr::MulF { reg } => line("mulf"@, float_acc, reg.spec_name()),
        Instr::ModI { reg } => line("modi"@, int_acc, reg.spec_name()),
        Instr::ModF { reg } => line("modf"@, float_acc, reg.spec_name()),
        Instr::DivI { reg } => line("divi"@, int_acc, reg.spec_name()),
        Instr::DivF { reg } => line("divf"@, float_acc, reg.spec_name()),
        Instr::PowI { reg } => line("powi"@, int_acc, reg.spec_name()),
        Instr::PowF { reg } => line("powf"@, float_acc, reg.spec_name()),
        Instr::Ret => bare_line("ret"@),
    }
}

/// The listing backend. Its code is the text of the listing in UTF-8.
pub struct Debug {
    out: Asm,
}

impl Debug {
    /// A backend with an empty listing.
    pub fn new() -> (arch: Debug)
        ensures
            arch.code() == Seq::<u8>::empty(),
    {
        Debug { out: Asm::new() }
    }

    /// Appends a line to the listing.
    fn write(&mut self, text: String)
        ensures
            final(self).code() == old(self).code() + encode_utf8(text@),
    {
        self.out.put(text.as_str().as_bytes());
    }
}

impl Default for Debug {
    /// A backend with an empty listing.
    fn default() -> (arch: Self)
        ensures
            arch.code() == Seq::<u8>::empty(),
    {
        Debug::new()
    }
}

impl Arch for Debug {
    type IntReg = IntReg;

    type FloatReg = FloatReg;

    open spec fn spec_int_ret() -> IntReg {
        IntReg { role: Role::Res }
    }

    open spec fn spec_float_ret() -> FloatReg {
        FloatReg { role: Role::Res }
    }

    open spec fn spec_int_acc() -> IntReg {
        IntReg { role: Role::Acc }
    }

    open spec fn spec_float_acc() -> FloatReg {
        FloatReg { role: Role::Acc }
    }

    open spec fn spec_int_tmp() -> IntReg {
        IntReg { role: Role::Tmp }
    }

    open spec fn spec_float_tmp() -> FloatReg {
        FloatReg { role: Role::Tmp }
    }

    closed spec fn code(&self) -> Seq<u8> {
        self.out@
    }

    open spec fn encoding(instr: Instr<IntReg, FloatReg>) -> Option<Seq<u8>> {
        Some(encode_utf8(mnemonic(instr)))
    }

    fn int_ret() -> (reg: IntReg) {
        IntReg { role: Role::Res }
    }

    fn float_ret() -> (reg: FloatReg) {
        FloatReg { role: Role::Res }
    }

    fn int_acc() -> (reg: IntReg) {
        IntReg { role: Role::Acc }
    }

    fn float_acc() -> (reg: FloatReg) {
        FloatReg { role: Role::Acc }
    }

    fn int_tmp() -> (reg: IntReg) {
        IntReg { role: Role::Tmp }
    }

    fn float_tmp() -> (reg: FloatReg) {
        FloatReg { role: Role::Tmp }
    }

    fn same_int(a: IntReg, b: IntReg) -> (same: bool) {
        a == b
    }

    fn same_float(a: FloatReg, b: FloatReg) -> (same: bool) {
        a == b
    }

    fn movi(&mut self, from: IntReg, to: IntReg) -> (r: Result<(), CodegenError>) {
        self.write(make_line("movei", to.name(), from.name()));
        Ok(())
    }

    fn movf(&mut self, from: FloatReg, to: FloatReg) -> (r: Result<(), CodegenError>) {
        self.write(make_line("movef", to.name(), from.name()));
        Ok(())
    }

    fn storei(&mut self, reg: IntReg, val: i64) -> (r: Result<(), CodegenError>) {
        self.write(make_line("movei", reg.name(), signed_text(val).as_str()));
        Ok(())
    }

    fn storef(&mut self, reg: FloatReg, val: Decimal) -> (r: Result<(), CodegenError>) {
        self.write(make_line("movef", reg.name(), decimal_to_text(&val).as_str()));
        Ok(())
    }

    fn castf(&mut self, from: IntReg, to: FloatReg) -> (r: Result<(), CodegenError>) {
        self.write(make_line("movec", to.name(), from.name()));
        Ok(())
    }

    fn addi(&mut self, reg: IntReg) -> (r: Result<(), CodegenError>) {
        self.write(make_line("addi", Debug::int_acc().name(), reg.name()));
        Ok(())
    }

    fn addf(&mut self, reg: FloatReg) -> (r: Result<(), CodegenError>) {
        self.write(make_line("addf", Debug::float_acc().name(), reg.name()));
        Ok(())
    }

    fn subi(&mut self, reg: IntReg) -> (r: Result<(), CodegenError>) {
        self.write(make_line("subi", Debug::int_acc().name(), reg.name()));
        Ok(())
    }

    fn subf(&mut self, reg: FloatReg) -> (r: Result<(), CodegenError>) {
        self.write(make_line("subf", Debug::float_acc().name(), reg.name()));
        Ok(())
    }

    fn muli(&mut self, reg: IntReg) -> (r: Result<(), CodegenError>) {
        self.write(make_line("muli", Debug::int_acc().name(), reg.name()));
        Ok(())
    }

    fn mulf(&mut self, reg: FloatReg) -> (r: Result<(), CodegenError>) {
        self.write(make_line("mulf", Debug::float_acc().name(), reg.name()));
        Ok(())
    }

    fn modi(&mut self, reg: IntReg) -> (r: Result<(), CodegenError>) {
        self.write(make_line("modi", Debug::int_acc().name(), reg.name()));
        Ok(())
    }

    fn modf(&mut self, reg: FloatReg) -> (r: Result<(), CodegenError>) {
        self.write(make_line("modf", Debug::float_acc().name(), reg.name()));
        Ok(())
    }

    fn divi(&mut self, reg: IntReg) -> (r: Result<(), CodegenError>) {
        self.write(make_line("divi", Debug::int_acc().name(), reg.name()));
        Ok(())
    }

    fn divf(&mut self, reg: FloatReg) -> (r: Result<(), CodegenError>) {
        self.write(make_line("divf", Debug::float_acc().name(), reg.name()));
        Ok(())
    }

    fn powi(&mut self, reg: IntReg) -> (r: Result<(), CodegenError>) {
        self.write(make_line("powi", Debug::int_acc().name(), reg.name()));
        Ok(())
    }

    fn powf(&mut self, reg: FloatReg) -> (r: Result<(), CodegenError>) {
        self.write(make_line("powf", Debug::float_acc().name(), reg.name()));
        Ok(())
    }

    fn ret(&mut self) -> (r: Result<(), CodegenError>) {
        self.write(make_bare_line("ret"));
        Ok(())
    }

    fn into_code(self) -> (buffer: Asm) {
        self.out
    }
}

} // verus!
