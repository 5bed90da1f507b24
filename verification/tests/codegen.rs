use expr_jit::ast::{Decimal, Exp, Op, Val};
use expr_jit::buffer::{Asm, Bytecode, DebugMod};
use expr_jit::codegen::{compile, Arch, AsmCode, CodegenError, Opcode, Rt};
use expr_jit::lexer::Lexer;
use expr_jit::parser::parse_exp;
use expr_jit::x86_64::{to_le_bytes, FloatReg, IntReg, X8664};

fn parse(input: &str) -> Exp {
    let mut lexer = Lexer::new(input);
    lexer.advance().unwrap();
    parse_exp(&mut lexer).unwrap().exp().unwrap()
}

fn listing(input: &str) -> (Rt, String) {
    let (rt, code) = compile(&parse(input), expr_jit::debug::Debug::new()).unwrap();
    (rt, String::from_utf8(code.buffer().to_vec()).unwrap())
}

fn machine_code(input: &str) -> Result<(Rt, Vec<u8>), CodegenError> {
    compile(&parse(input), X8664::default()).map(|(rt, code)| (rt, code.buffer().to_vec()))
}

#[test]
fn buffer_appends_in_order() {
    let mut code = Asm::new();
    assert!(code.buffer().is_empty());
    code.put(&[1, 2]);
    code.put(&[]);
    code.put(&[3]);
    assert_eq!(code.buffer(), &[1, 2, 3]);
    let copy = code.clone();
    assert_eq!(copy, code);
}

#[test]
fn little_endian_immediates() {
    assert_eq!(to_le_bytes(13), [13, 0, 0, 0, 0, 0, 0, 0]);
    assert_eq!(to_le_bytes(-1), [0xff; 8]);
    assert_eq!(
        to_le_bytes(0x0102030405060708),
        [8, 7, 6, 5, 4, 3, 2, 1]
    );
    assert_eq!(to_le_bytes(i64::MIN), [0, 0, 0, 0, 0, 0, 0, 0x80]);
    for val in [0i64, 1, -1, 13, i64::MAX, i64::MIN, -123456789] {
        assert_eq!(i64::from_le_bytes(to_le_bytes(val)), val);
    }
}

#[test]
fn result_type_is_float_where_a_fraction_occurs() {
    assert_eq!(parse("13").result_type(), Rt::Int);
    assert_eq!(parse("-1.0").result_type(), Rt::Float);
    assert_eq!(parse("13 + 13").result_type(), Rt::Int);
    assert_eq!(parse("(2 + 2) * 10.0").result_type(), Rt::Float);
    assert_eq!(parse("1 + (2 * (3 - 0,5))").result_type(), Rt::Float);
    assert_eq!(Val::Int(3).result_type(), Rt::Int);
    assert_eq!(
        Val::Float(Decimal { negative: false, mantissa: 5, scale: 1 }).result_type(),
        Rt::Float
    );
}

#[test]
fn x86_literal() {
    assert_eq!(
        machine_code("13"),
        Ok((Rt::Int, vec![0x48, 0xb8, 13, 0, 0, 0, 0, 0, 0, 0, 0xc3]))
    );
}

#[test]
fn x86_addition() {
    assert_eq!(
        machine_code("13 + 13"),
        Ok((
            Rt::Int,
            vec![
                0x48, 0xb8, 13, 0, 0, 0, 0, 0, 0, 0, // movabs rax, 13
                0x48, 0xb9, 13, 0, 0, 0, 0, 0, 0, 0, // movabs rcx, 13
                0x48, 0x01, 0xc8, // add rax, rcx
                0xc3, // ret
            ]
        ))
    );
}

#[test]
fn x86_nested_right_operand_is_moved_to_the_temporary() {
    assert_eq!(
        machine_code("2 * (3 / 4)"),
        Ok((
            Rt::Int,
            vec![
                0x48, 0xb8, 2, 0, 0, 0, 0, 0, 0, 0, // movabs rax, 2
                0x48, 0xb8, 3, 0, 0, 0, 0, 0, 0, 0, // movabs rax, 3
                0x48, 0xb9, 4, 0, 0, 0, 0, 0, 0, 0, // movabs rcx, 4
                0x48, 0xf7, 0xf9, // idiv rcx
                0x48, 0x89, 0xc1, // mov rcx, rax
                0x48, 0xf7, 0xe9, // imul rcx
                0xc3, // ret
            ]
        ))
    );
}

#[test]
fn x86_fails_on_what_it_cannot_encode() {
    assert_eq!(machine_code("10 - 1"), Err(CodegenError { opcode: Opcode::SubI }));
    assert_eq!(machine_code("10 % 3"), Err(CodegenError { opcode: Opcode::ModI }));
    assert_eq!(machine_code("10 ^ 3"), Err(CodegenError { opcode: Opcode::PowI }));
    assert_eq!(machine_code("-1.0"), Err(CodegenError { opcode: Opcode::StoreF }));
    // the integer on the left is loaded, and its conversion is what fails
    assert_eq!(machine_code("1 + 1.5"), Err(CodegenError { opcode: Opcode::CastF }));
    assert_eq!(machine_code("1.5 + 1"), Err(CodegenError { opcode: Opcode::StoreF }));
}

#[test]
fn x86_methods_emit_the_documented_bytes() {
    let mut arch = X8664::default();
    assert_eq!(arch.movi(IntReg::RAX, IntReg::RAX), Ok(()));
    assert_eq!(arch.movi(IntReg::RAX, IntReg::RCX), Ok(()));
    assert_eq!(arch.movi(IntReg::RCX, IntReg::RAX), Ok(()));
    assert_eq!(arch.storei(IntReg::RCX, -2), Ok(()));
    assert_eq!(arch.addi(IntReg::RAX), Ok(()));
    assert_eq!(arch.muli(IntReg::RAX), Ok(()));
    assert_eq!(arch.divi(IntReg::RAX), Ok(()));
    assert_eq!(arch.subi(IntReg::RCX), Err(CodegenError { opcode: Opcode::SubI }));
    assert_eq!(arch.movf(FloatReg::XMM0, FloatReg::XMM1), Err(CodegenError { opcode: Opcode::MovF }));
    assert_eq!(arch.castf(IntReg::RAX, FloatReg::XMM0), Err(CodegenError { opcode: Opcode::CastF }));
    assert_eq!(arch.addf(FloatReg::XMM1), Err(CodegenError { opcode: Opcode::AddF }));
    assert_eq!(arch.ret(), Ok(()));
    assert_eq!(arch.trace(), "");
    assert_eq!(
        arch.into_code().buffer(),
        &[
            0x48, 0x89, 0xc1, 0x48, 0x89, 0xc8, 0x48, 0xb9, 0xfe, 0xff, 0xff, 0xff, 0xff, 0xff,
            0xff, 0xff, 0x48, 0x01, 0xc0, 0x48, 0xf7, 0xe8, 0x48, 0xf7, 0xf8, 0xc3,
        ]
    );
}

#[test]
fn x86_trace_follows_the_switch() {
    let mut arch = X8664::default();
    arch.storei(IntReg::RAX, 7).unwrap();
    arch.debug_mod(true);
    arch.storei(IntReg::RCX, -3).unwrap();
    arch.muli(IntReg::RCX).unwrap();
    assert!(arch.subf(FloatReg::XMM1).is_err());
    arch.debug_mod(false);
    arch.ret().unwrap();
    assert_eq!(arch.trace(), "movi rcx, -3\nmuli rax, rcx\nsubf xmm0, xmm1\n");
}

#[test]
fn listing_of_a_mixed_expression() {
    assert_eq!(
        listing("(2 + 2) * 10.0"),
        (
            Rt::Float,
            "movei int_acc, 2\n\
             movei int_tmp, 2\n\
             addi int_acc, int_tmp\n\
             movec float_acc, int_acc\n\
             movef float_tmp, 10\n\
             mulf float_acc, float_tmp\n\
             movef float_res, float_acc\n\
             ret\n"
                .to_string()
        )
    );
}

#[test]
fn listing_converts_the_right_operand() {
    assert_eq!(
        listing("0,5 - 3"),
        (
            Rt::Float,
            "movef float_acc, 0.5\n\
             movei int_tmp, 3\n\
             movec float_tmp, int_tmp\n\
             subf float_acc, float_tmp\n\
             movef float_res, float_acc\n\
             ret\n"
                .to_string()
        )
    );
}

#[test]
fn listing_of_integers() {
    assert_eq!(
        listing("13"),
        (Rt::Int, "movei int_res, 13\nret\n".to_string())
    );
    assert_eq!(
        listing("2 ^ 3 % -4"),
        (
            Rt::Int,
            "movei int_acc, 2\n\
             movei int_tmp, 3\n\
             powi int_acc, int_tmp\n\
             movei int_tmp, -4\n\
             modi int_acc, int_tmp\n\
             movei int_res, int_acc\n\
             ret\n"
                .to_string()
        )
    );
}

#[test]
fn compiling_twice_gives_the_same_code() {
    let exp = parse("(1 + 2) * 10 * (3 + 10 / 2)");
    assert_eq!(
        compile(&exp, X8664::default()).unwrap(),
        compile(&exp, X8664::default()).unwrap()
    );
    assert_eq!(
        compile(&exp, expr_jit::debug::Debug::new()).unwrap(),
        compile(&exp.clone(), expr_jit::debug::Debug::new()).unwrap()
    );
}

#[test]
fn to_asm_appends_to_what_the_backend_holds() {
    let mut arch = expr_jit::debug::Debug::new();
    arch.ret().unwrap();
    Exp::Exp {
        op: Op::Add,
        left: Box::new(Exp::Val(Val::Int(1))),
        right: Box::new(Exp::Val(Val::Int(2))),
    }
    .to_asm(&mut arch, expr_jit::debug::Debug::int_tmp(), expr_jit::debug::Debug::float_tmp())
    .unwrap();
    assert_eq!(
        String::from_utf8(arch.into_code().buffer().to_vec()).unwrap(),
        "ret\nmovei int_acc, 1\nmovei int_tmp, 2\naddi int_acc, int_tmp\nmovei int_tmp, int_acc\n"
    );
}

#[test]
fn a_backend_turns_into_its_code() {
    let mut arch = X8664::default();
    arch.storei(IntReg::RAX, 1).unwrap();
    arch.ret().unwrap();
    let code: Asm = arch.into();
    assert_eq!(code.buffer(), &[0x48, 0xb8, 1, 0, 0, 0, 0, 0, 0, 0, 0xc3]);

    let mut arch = X8664::default();
    arch.ret().unwrap();
    assert_eq!(Asm::from(arch).buffer(), &[0xc3]);
}

#[test]
fn a_buffer_encodes_to_its_bytes() {
    let mut code = Asm::new();
    code.put(&[0x48, 0x01, 0xc8]);
    assert_eq!(code.encode(), vec![0x48, 0x01, 0xc8]);
    assert_eq!(Asm::new().encode(), Vec::<u8>::new());
}

#[test]
fn code_has_at_most_three_instructions_for_each_node() {
    // seven nodes: four values and three operations
    let exp = parse("(1 + 2.5) * (3 - 4)");
    let (_, code) = compile(&exp, expr_jit::debug::Debug::new()).unwrap();
    let lines = code.buffer().iter().filter(|b| **b == b'\n').count();
    // the return is one more
    assert_eq!(lines, 12);
    assert!(lines - 1 <= 3 * 7);
}

#[test]
fn a_new_backend_holds_no_code() {
    let listing: expr_jit::debug::Debug = Default::default();
    assert!(listing.into_code().buffer().is_empty());
    assert!(expr_jit::debug::Debug::new().into_code().buffer().is_empty());
    let arch = X8664::default();
    assert_eq!(arch.trace(), "");
    assert!(arch.into_code().buffer().is_empty());
    assert_eq!(X8664::int_ret(), IntReg::RAX);
    assert_eq!(X8664::int_acc(), IntReg::RAX);
    assert_eq!(X8664::int_tmp(), IntReg::RCX);
    assert_eq!(X8664::float_ret(), FloatReg::XMM0);
    assert_eq!(X8664::float_acc(), FloatReg::XMM0);
    assert_eq!(X8664::float_tmp(), FloatReg::XMM1);
    assert!(X8664::same_int(IntReg::RAX, IntReg::RAX));
    assert!(!X8664::same_int(IntReg::RAX, IntReg::RCX));
    assert!(!X8664::same_float(FloatReg::XMM1, FloatReg::XMM0));
    assert_eq!(IntReg::RCX.name(), "rcx");
    assert_eq!(FloatReg::XMM1.name(), "xmm1");
    assert_eq!(expr_jit::debug::Debug::int_ret().name(), "int_res");
    assert_eq!(expr_jit::debug::Debug::float_tmp().name(), "float_tmp");
}
