//! The backend for x86-64.
//!
//! It encodes what integer arithmetic it has an encoding for: loading a
//! constant, copying a register, addition, multiplication, division and the
//! return. For every other instruction it fails.

use crate::ast::Decimal;
use crate::buffer::{Asm, DebugMod};
use crate::codegen::{emitted, Arch, CodegenError, Instr, Opcode};
use crate::listing::{bare_line, line, make_bare_line, make_line};
use crate::render::{decimal_text, decimal_to_text, int_text, signed_text};
use vstd::bytes::{
    lemma_auto_spec_u64_to_from_le_bytes, spec_u64_from_le_bytes, spec_u64_to_le_bytes,
    spec_u64_to_le_bytes_to_open,
};
use vstd::prelude::*;
use vstd::string::*;

verus! {

/// The integer registers that the backend uses.
#[derive(Debug, PartialEq, Eq, Clone, Copy, Hash, Structural)]
pub enum IntReg {
    RAX,
    RCX,
}

/// The registers for fractions that the backend uses.
#[derive(Debug, PartialEq, Eq, Clone, Copy, Hash, Structural)]
pub enum FloatReg {
    XMM0,
    XMM1,
}

impl IntReg {
    /// The name of the register.
    pub open spec fn spec_name(self) -> Seq<char> {
        match self {
            IntReg::RAX => "rax"@,
            IntReg::RCX => "rcx"@,
        }
    }

    /// The name of the register.
    pub fn name(&self) -> (s: &'static str)
        ensures
            s@ == self.spec_name(),
    {
        match self {
            IntReg::RAX => "rax",
            IntReg::RCX => "rcx",
        }
    }
}

impl FloatReg {
    /// The name of the register.
    pub open spec fn spec_name(self) -> Seq<char> {
        match self {
            FloatReg::XMM0 => "xmm0"@,
            FloatReg::XMM1 => "xmm1"@,
        }
    }

    /// The name of the register.
    pub fn name(&self) -> (s: &'static str)
        ensures
            s@ == self.spec_name(),
    {
        match self {
            FloatReg::XMM0 => "xmm0",
            FloatReg::XMM1 => "xmm1",
        }
    }
}

/// The eight bytes of `val` in two's complement, the lowest first.
pub open spec fn le_bytes(val: i64) -> Seq<u8> {
    spec_u64_to_le_bytes(val as u64)
}

/// The integer whose eight bytes in two's complement, the lowest first, are
/// `bytes`.
pub open spec fn le_value(bytes: Seq<u8>) -> i64 {
    spec_u64_from_le_bytes(bytes) as i64
}

/// The constant of a load instruction can be read back from its bytes.
pub proof fn lemma_le_bytes_round_trip(val: i64)
    ensures
        le_bytes(val).len() == 8,
        le_value(le_bytes(val)) == val,
{
    lemma_auto_spec_u64_to_from_le_bytes();
    let u = val as u64;
    assert(u as i64 == val) by (bit_vector)
        requires
            u == val as u64,
    ;
}

/// The byte that names `reg` as the second operand of an instruction whose
/// first is the accumulator.
pub open spec fn operand_byte(base: u8, reg: IntReg) -> u8 {
    match reg {
        IntReg::RAX => base,
        IntReg::RCX => (base + 1) as u8,
    }
}

/// The bytes of an instruction, where the backend has an encoding for it.
pub open spec fn encode(instr: Instr<IntReg, FloatReg>) -> Option<Seq<u8>> {
    match instr {
        Instr::MovI { from, to } => Some(
            if from == to {
                Seq::empty()
            } else if to == IntReg::RCX {
                seq![0x48u8, 0x89u8, 0xc1u8]
            } else {
                seq![0x48u8, 0x89u8, 0xc8u8]
            },
        ),
        Instr::StoreI { reg, val } => Some(
            seq![0x48u8, operand_byte(0xb8, reg)] + le_bytes(val),
        ),
        Instr::AddI { reg } => Some(
            seq![0x48u8, 0x01u8, match reg {
                IntReg::RAX => 0xc0u8,
                IntReg::RCX => 0xc8u8,
            }],
        ),
        Instr::MulI { reg } => Some(seq![0x48u8, 0xf7u8, operand_byte(0xe8, reg)]),
        Instr::DivI { reg } => Some(seq![0x48u8, 0xf7u8, operand_byte(0xf8, reg)]),
        Instr::Ret => Some(seq![0xc3u8]),
        _ => None,
    }
}

/// The constant of a load can be read back from the instruction: its
/// eight bytes stand behind the two bytes of the operation, and they are
/// those of the value loaded.
pub proof fn lemma_load_round_trip(reg: IntReg, val: i64)
    ensures
        encode(Instr::StoreI { reg, val }) matches Some(bytes) && bytes.len() == 10 && le_value(
            bytes.subrange(2, 10),
        ) == val,
{
    lemma_le_bytes_round_trip(val);
    let bytes = encode(Instr::StoreI { reg, val }).unwrap();
    assert(bytes.subrange(2, 10) =~= le_bytes(val));
}

/// The line that the trace holds for an instruction.
pub open spec fn mnemonic(instr: Instr<IntReg, FloatReg>) -> Seq<char> {
    let int_acc = IntReg::RAX.spec_name();
    let float_acc = FloatReg::XMM0.spec_name();
    match instr {
        Instr::MovI { from, to } => line("movi"@, to.spec_name(), from.spec_name()),
        Instr::MovF { from, to } => line("movf"@, to.spec_name(), from.spec_name()),
        Instr::StoreI { reg, val } => line("movi"@, reg.spec_name(), int_text(val as int)),
        Instr::StoreF { reg, val } => line("movf"@, reg.spec_name(), decimal_text(val)),
        Instr::CastF { from, to } => line("movc"@, to.spec_name(), from.spec_name()),
        Instr::AddI { reg } => line("addi"@, int_acc, reg.spec_name()),
        Instr::AddF { reg } => line("addf"@, float_acc, reg.spec_name()),
        Instr::SubI { reg } => line("subi"@, int_acc, reg.spec_name()),
        Instr::SubF { reg } => line("subf"@, float_acc, reg.spec_name()),
        Instr::MulI { reg } => line("muli"@, int_acc, reg.spec_name()),
        Instr::MulF { reg } => line("mulf"@, float_acc, reg.spec_name()),
        Instr::ModI { reg } => line("modi"@, int_acc, reg.spec_name()),
        Instr::ModF { reg } => line("modf"@, float_acc, reg.spec_name()),
        Instr::DivI { reg } => line("divi"@, int_acc, reg.spec_name()),
        Instr::DivF { reg } => line("divf"@, float_acc, reg.spec_name()),
        Instr::PowI { reg } => line("powi"@, int_acc, reg.spec_name()),
        Instr::PowF { reg } => line("powf"@, float_acc, reg.spec_name()),
        Instr::Ret => bare_line("ret"@),
    }
}

/// The eight bytes of `val` in two's complement, the lowest first.
pub fn to_le_bytes(val: i64) -> (bytes: [u8; 8])
    ensures
        bytes@ == le_bytes(val),
{
    let u: u64 = #[verifier::truncate]
    (val as u64);
    proof {
        spec_u64_to_le_bytes_to_open(u);
        assert({
            &&& u & 0xff < 256
            &&& (u >> 8) & 0xff < 256
            &&& (u >> 16) & 0xff < 256
            &&& (u >> 24) & 0xff < 256
            &&& (u >> 32) & 0xff < 256
            &&& (u >> 40) & 0xff < 256
            &&& (u >> 48) & 0xff < 256
            &&& (u >> 56) & 0xff < 256
        }) by (bit_vector);
    }
    let bytes: [u8; 8] = [
        (u & 0xff) as u8,
        ((u >> 8) & 0xff) as u8,
        ((u >> 16) & 0xff) as u8,
        ((u >> 24) & 0xff) as u8,
        ((u >> 32) & 0xff) as u8,
        ((u >> 40) & 0xff) as u8,
        ((u >> 48) & 0xff) as u8,
        ((u >> 56) & 0xff) as u8,
    ];
    assert(bytes@ =~= le_bytes(val));
    bytes
}

/// The x86-64 backend: the code, and a trace of the instructions asked for,
/// which is kept while tracing is switched on.
pub struct X8664 {
    code: Asm,
    debug: bool,
    trace: String,
}

impl X8664 {
    /// The code buffer of the backend.
    pub closed spec fn buffer(&self) -> Asm {
        self.code
    }

    /// Whether tracing is switched on.
    pub closed spec fn tracing(&self) -> bool {
        self.debug
    }

    /// The trace: a line for each instruction asked for while tracing was
    /// switched on, whether or not the backend could encode it.
    pub closed spec fn spec_trace(&self) -> Seq<char> {
        self.trace@
    }

    /// The trace.
    pub fn trace(&self) -> (s: &str)
        ensures
            s@ == self.spec_trace(),
    {
        self.trace.as_str()
    }

    /// What holds of the trace when the backend is asked for `instr`: its
    /// line is added while tracing is switched on.
    pub open spec fn traced(before: X8664, after: X8664, instr: Instr<IntReg, FloatReg>) -> bool {
        &&& after.tracing() == before.tracing()
        &&& after.spec_trace() == before.spec_trace() + (if before.tracing() {
            mnemonic(instr)
        } else {
            Seq::empty()
        })
    }

    /// Appends `bytes` to the code.
    fn put(&mut self, bytes: &[u8])
        ensures
            final(self).code() == old(self).code() + bytes@,
            final(self).tracing() == old(self).tracing(),
            final(self).spec_trace() == old(self).spec_trace(),
    {
        self.code.put(bytes);
    }

    /// Adds `text` to the trace while tracing is switched on.
    fn dbg(&mut self, text: String)
        ensures
            final(self).code() == old(self).code(),
            final(self).tracing() == old(self).tracing(),
            final(self).spec_trace() == old(self).spec_trace() + (if old(self).tracing() {
                text@
            } else {
                Seq::empty()
            }),
    {
        if self.debug {
            self.trace.append(text.as_str());
        } else {
            assert(self.trace@ + Seq::<char>::empty() =~= self.trace@);
        }
    }

    /// Answers for an instruction that the backend cannot encode.
    fn unsupported(opcode: Opcode) -> (r: Result<(), CodegenError>)
        ensures
            r == Err::<(), CodegenError>(CodegenError { opcode }),
    {
        Err(CodegenError { opcode })
    }
}

impl Arch for X8664 {
    type IntReg = IntReg;

    type FloatReg = FloatReg;

    open spec fn spec_int_ret() -> IntReg {
        IntReg::RAX
    }

    open spec fn spec_float_ret() -> FloatReg {
        FloatReg::XMM0
    }

    open spec fn spec_int_acc() -> IntReg {
        IntReg::RAX
    }

    open spec fn spec_float_acc() -> FloatReg {
        FloatReg::XMM0
    }

    open spec fn spec_int_tmp() -> IntReg {
        IntReg::RCX
    }

    open spec fn spec_float_tmp() -> FloatReg {
        FloatReg::XMM1
    }

    open spec fn code(&self) -> Seq<u8> {
        self.buffer()@
    }

    open spec fn encoding(instr: Instr<IntReg, FloatReg>) -> Option<Seq<u8>> {
        encode(instr)
    }

    fn int_ret() -> (reg: IntReg) {
        IntReg::RAX
    }

    fn float_ret() -> (reg: FloatReg) {
        FloatReg::XMM0
    }

    fn int_acc() -> (reg: IntReg) {
        IntReg::RAX
    }

    fn float_acc() -> (reg: FloatReg) {
        FloatReg::XMM0
    }

    fn int_tmp() -> (reg: IntReg) {
        IntReg::RCX
    }

    fn float_tmp() -> (reg: FloatReg) {
        FloatReg::XMM1
    }

    fn same_int(a: IntReg, b: IntReg) -> (same: bool) {
        a == b
    }

    fn same_float(a: FloatReg, b: FloatReg) -> (same: bool) {
        a == b
    }

    fn movi(&mut self, from: IntReg, to: IntReg) -> (r: Result<(), CodegenError>)
        ensures
            X8664::traced(*old(self), *final(self), Instr::MovI { from, to }),
    {
        self.dbg(make_line("movi", to.name(), from.name()));
        if from == to {
            assert(self.code() + Seq::<u8>::empty() =~= self.code());
            return Ok(());
        }
        let last: u8 = match to {
            IntReg::RCX => 0xc1,
            IntReg::RAX => 0xc8,
        };
        let bytes: [u8; 3] = [0x48, 0x89, last];
        self.put(bytes.as_slice());
        assert(bytes@ =~= seq![0x48u8, 0x89u8, last]);
        Ok(())
    }

    fn movf(&mut self, from: FloatReg, to: FloatReg) -> (r: Result<(), CodegenError>)
        ensures
            X8664::traced(*old(self), *final(self), Instr::MovF { from, to }),
    {
        self.dbg(make_line("movf", to.name(), from.name()));
        X8664::unsupported(Opcode::MovF)
    }

    fn storei(&mut self, reg: IntReg, val: i64) -> (r: Result<(), CodegenError>)
        ensures
            X8664::traced(*old(self), *final(self), Instr::StoreI { reg, val }),
    {
        self.dbg(make_line("movi", reg.name(), signed_text(val).as_str()));
        let ghost before = self.code();
        let head: [u8; 2] = [
            0x48,
            match reg {
                IntReg::RAX => 0xb8,
                IntReg::RCX => 0xb9,
            },
        ];
        self.put(head.as_slice());
        let immediate = to_le_bytes(val);
        self.put(immediate.as_slice());
        assert(head@ =~= seq![0x48u8, operand_byte(0xb8, reg)]);
        assert(self.code() =~= before + (head@ + le_bytes(val)));
        Ok(())
    }

    fn storef(&mut self, reg: FloatReg, val: Decimal) -> (r: Result<(), CodegenError>)
        ensures
            X8664::traced(*old(self), *final(self), Instr::StoreF { reg, val }),
    {
        self.dbg(make_line("movf", reg.name(), decimal_to_text(&val).as_str()));
        X8664::unsupported(Opcode::StoreF)
    }

    fn castf(&mut self, from: IntReg, to: FloatReg) -> (r: Result<(), CodegenError>)
        ensures
            X8664::traced(*old(self), *final(self), Instr::CastF { from, to }),
    {
        self.dbg(make_line("movc", to.name(), from.name()));
        X8664::unsupported(Opcode::CastF)
    }

    fn addi(&mut self, reg: IntReg) -> (r: Result<(), CodegenError>)
        ensures
            X8664::traced(*old(self), *final(self), Instr::AddI { reg }),
    {
        self.dbg(make_line("addi", IntReg::RAX.name(), reg.name()));
        let last: u8 = match reg {
            IntReg::RAX => 0xc0,
            IntReg::RCX => 0xc8,
        };
        let bytes: [u8; 3] = [0x48, 0x01, last];
        self.put(bytes.as_slice());
        assert(bytes@ =~= seq![0x48u8, 0x01u8, last]);
        Ok(())
    }

    fn addf(&mut self, reg: FloatReg) -> (r: Result<(), CodegenError>)
        ensures
            X8664::traced(*old(self), *final(self), Instr::AddF { reg }),
    {
        self.dbg(make_line("addf", FloatReg::XMM0.name(), reg.name()));
        X8664::unsupported(Opcode::AddF)
    }

    fn subi(&mut self, reg: IntReg) -> (r: Result<(), CodegenError>)
        ensures
            X8664::traced(*old(self), *final(self), Instr::SubI { reg }),
    {
        self.dbg(make_line("subi", IntReg::RAX.name(), reg.name()));
        X8664::unsupported(Opcode::SubI)
    }

    fn subf(&mut self, reg: FloatReg) -> (r: Result<(), CodegenError>)
        ensures
            X8664::traced(*old(self), *final(self), Instr::SubF { reg }),
    {
        self.dbg(make_line("subf", FloatReg::XMM0.name(), reg.name()));
        X8664::unsupported(Opcode::SubF)
    }

    fn muli(&mut self, reg: IntReg) -> (r: Result<(), CodegenError>)
        ensures
            X8664::traced(*old(self), *final(self), Instr::MulI { reg }),
    {
        self.dbg(make_line("muli", IntReg::RAX.name(), reg.name()));
        let last: u8 = match reg {
            IntReg::RAX => 0xe8,
            IntReg::RCX => 0xe9,
        };
        let bytes: [u8; 3] = [0x48, 0xf7, last];
        self.put(bytes.as_slice());
        assert(bytes@ =~= seq![0x48u8, 0xf7u8, last]);
        Ok(())
    }

    fn mulf(&mut self, reg: FloatReg) -> (r: Result<(), CodegenError>)
        ensures
            X8664::traced(*old(self), *final(self), Instr::MulF { reg }),
    {
        self.dbg(make_line("mulf", FloatReg::XMM0.name(), reg.name()));
        X8664::unsupported(Opcode::MulF)
    }

    fn modi(&mut self, reg: IntReg) -> (r: Result<(), CodegenError>)
        ensures
            X8664::traced(*old(self), *final(self), Instr::ModI { reg }),
    {
        self.dbg(make_line("modi", IntReg::RAX.name(), reg.name()));
        X8664::unsupported(Opcode::ModI)
    }

    fn modf(&mut self, reg: FloatReg) -> (r: Result<(), CodegenError>)
        ensures
            X8664::traced(*old(self), *final(self), Instr::ModF { reg }),
    {
        self.dbg(make_line("modf", FloatReg::XMM0.name(), reg.name()));
        X8664::unsupported(Opcode::ModF)
    }

    fn divi(&mut self, reg: IntReg) -> (r: Result<(), CodegenError>)
        ensures
            X8664::traced(*old(self), *final(self), Instr::DivI { reg }),
    {
        self.dbg(make_line("divi", IntReg::RAX.name(), reg.name()));
        let last: u8 = match reg {
            IntReg::RAX => 0xf8,
            IntReg::RCX => 0xf9,
        };
        let bytes: [u8; 3] = [0x48, 0xf7, last];
        self.put(bytes.as_slice());
        assert(bytes@ =~= seq![0x48u8, 0xf7u8, last]);
        Ok(())
    }

    fn divf(&mut self, reg: FloatReg) -> (r: Result<(), CodegenError>)
        ensures
            X8664::traced(*old(self), *final(self), Instr::DivF { reg }),
    {
        self.dbg(make_line("divf", FloatReg::XMM0.name(), reg.name()));
        X8664::unsupported(Opcode::DivF)
    }

    fn powi(&mut self, reg: IntReg) -> (r: Result<(), CodegenError>)
        ensures
            X8664::traced(*old(self), *final(self), Instr::PowI { reg }),
    {
        self.dbg(make_line("powi", IntReg::RAX.name(), reg.name()));
        X8664::unsupported(Opcode::PowI)
    }

    fn powf(&mut self, reg: FloatReg) -> (r: Result<(), CodegenError>)
        ensures
            X8664::traced(*old(self), *final(self), Instr::PowF { reg }),
    {
        self.dbg(make_line("powf", FloatReg::XMM0.name(), reg.name()));
        X8664::unsupported(Opcode::PowF)
    }

    fn ret(&mut self) -> (r: Result<(), CodegenError>)
        ensures
            X8664::traced(*old(self), *final(self), Instr::Ret),
    {
        self.dbg(make_bare_line("ret"));
        let bytes: [u8; 1] = [0xc3];
        self.put(bytes.as_slice());
        assert(bytes@ =~= seq![0xc3u8]);
        Ok(())
    }

    fn into_code(self) -> (buffer: Asm) {
        self.code
    }
}

impl From<X8664> for Asm {
    /// The code of the backend.
    fn from(arch: X8664) -> (buffer: Asm) {
        arch.code
    }
}

impl vstd::std_specs::convert::FromSpecImpl<X8664> for Asm {
    open spec fn obeys_from_spec() -> bool {
        true
    }

    open spec fn from_spec(arch: X8664) -> Asm {
        arch.buffer()
    }
}

impl DebugMod for X8664 {
    /// Switches tracing on or off; the code and the trace stay as they are.
    fn debug_mod(&mut self, debug_mod: bool)
        ensures
            final(self).tracing() == debug_mod,
            final(self).code() == old(self).code(),
            final(self).spec_trace() == old(self).spec_trace(),
    {
        self.debug = debug_mod;
    }
}

impl Default for X8664 {
    /// A backend without code, with tracing switched off.
    fn default() -> (arch: Self)
        ensures
            arch.code() == Seq::<u8>::empty(),
            !arch.tracing(),
            arch.spec_trace() == Seq::<char>::empty(),
    {
        X8664 { code: Asm::new(), debug: false, trace: String::new() }
    }
}

} // verus!
