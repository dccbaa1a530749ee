use zenlang::ast::{Expr, Program, Stmt};
use zenlang::compiler::{build_line_offsets, collect_free_vars, compile, offset_to_line, Constant};
use zenlang::error::Error;
use zenlang::ir::{BytecodeFn, Opcode};
use zenlang::lexer::Lexer;
use zenlang::parser::Parser;
use zenlang::resolver::resolve;
use zenlang::symbol::SymbolTable;
use zenlang::typeck::{check, TypeMap};

type Compiled = (Vec<BytecodeFn<Constant>>, Vec<String>);

fn parse(source: &str) -> Program {
    let tokens = Lexer::new(source).tokenize().unwrap();
    Parser::new(source, &tokens).parse().unwrap()
}

fn compile_checked(source: &str, natives: &[String]) -> Result<Compiled, Error> {
    let tokens = Lexer::new(source).tokenize()?;
    let mut program = Parser::new(source, &tokens).parse()?;
    let mut symbols = resolve(&mut program)?;
    let types = check(&program, &mut symbols)?;
    compile(&program, &types, &symbols, natives, source)
}

fn compile_unchecked(source: &str) -> Result<Compiled, Error> {
    let program = parse(source);
    let symbols = SymbolTable::new();
    compile(&program, &TypeMap::new(), &symbols, &[], source)
}

fn encode(ops: &[Opcode]) -> Vec<u8> {
    let mut chunk = zenlang::ir::Chunk::<Constant>::new();
    for op in ops {
        chunk.emit_op(*op, 0);
    }
    chunk.code
}

fn compile_messages(e: &Error) -> Vec<String> {
    match e {
        Error::CompileMultiple { errors } => errors
            .iter()
            .map(|e| match e {
                Error::Compile { msg, .. } => msg.clone(),
                other => format!("{other:?}"),
            })
            .collect(),
        other => vec![format!("{other:?}")],
    }
}

#[test]
fn compiles_arithmetic_to_stack_code() {
    let (fns, globals) = compile_checked("1 + 2", &[]).unwrap();
    assert_eq!(fns.len(), 1);
    assert_eq!(fns[0].name, "__main__");
    assert_eq!(fns[0].arity, 0);
    assert_eq!(
        fns[0].chunk.code,
        encode(&[Opcode::LoadConst(0), Opcode::LoadConst(1), Opcode::Add, Opcode::Return])
    );
    assert!(matches!(fns[0].chunk.constants[0], Constant::Int(1)));
    assert!(matches!(fns[0].chunk.constants[1], Constant::Int(2)));
    assert_eq!(fns[0].chunk.lines.len(), fns[0].chunk.code.len());
    assert!(globals.is_empty());
}

#[test]
fn equal_constants_share_a_slot() {
    let (fns, _) = compile_checked("7 + 7", &[]).unwrap();
    assert_eq!(fns[0].chunk.constants.len(), 1);
    assert_eq!(
        fns[0].chunk.code,
        encode(&[Opcode::LoadConst(0), Opcode::LoadConst(0), Opcode::Add, Opcode::Return])
    );
}

#[test]
fn top_level_let_uses_a_global_slot() {
    let (fns, globals) = compile_checked("let x = 5; x", &[]).unwrap();
    assert_eq!(globals, vec!["x".to_string()]);
    assert_eq!(
        fns[0].chunk.code,
        encode(&[Opcode::LoadConst(0), Opcode::StoreGlobal(0), Opcode::LoadGlobal(0), Opcode::Return])
    );
}

#[test]
fn native_names_take_the_first_global_slots() {
    let natives = vec!["print".to_string(), "len".to_string(), "print".to_string()];
    let (_, globals) = compile_checked("let x = 1; fn f() { 2 }", &natives).unwrap();
    assert_eq!(globals, vec!["print", "len", "x", "f"]);
}

#[test]
fn statements_without_final_value_return_nil() {
    let (fns, _) = compile_checked("let x = 1;", &[]).unwrap();
    assert_eq!(
        fns[0].chunk.code,
        encode(&[Opcode::LoadConst(0), Opcode::StoreGlobal(0), Opcode::LoadConst(1), Opcode::Return])
    );
    assert!(matches!(fns[0].chunk.constants[1], Constant::Nil));
}

#[test]
fn functions_follow_main_and_are_loaded_as_constants() {
    let (fns, _) = compile_checked("fn f(a: i64) -> i64 { a } f(1)", &[]).unwrap();
    assert_eq!(fns.len(), 2);
    assert_eq!(fns[1].name, "f");
    assert_eq!(fns[1].arity, 1);
    assert_eq!(fns[1].chunk.code, encode(&[Opcode::LoadLocal(0), Opcode::Return]));
    assert!(matches!(fns[0].chunk.constants[0], Constant::Function(1)));
    assert_eq!(
        fns[0].chunk.code,
        encode(&[Opcode::LoadConst(0), Opcode::LoadConst(1), Opcode::Call(1), Opcode::Return])
    );
}

#[test]
fn if_else_jumps_are_patched() {
    let (fns, _) = compile_checked("if true { 1 } else { 2 }", &[]).unwrap();
    assert_eq!(
        fns[0].chunk.code,
        vec![0, 0, 0, 23, 12, 0, 0, 1, 0, 22, 15, 0, 0, 2, 0, 27]
    );
}

#[test]
fn while_loop_jumps_back_and_exits() {
    let (fns, _) = compile_checked("let i = 0; while i < 3 { i = i + 1; }", &[]).unwrap();
    let code = &fns[0].chunk.code;
    // let i = 0
    assert_eq!(&code[0..6], &encode(&[Opcode::LoadConst(0), Opcode::StoreGlobal(0)])[..]);
    // the condition starts at 6 and the loop jumps back there
    assert_eq!(&code[6..13], &encode(&[Opcode::LoadGlobal(0), Opcode::LoadConst(1), Opcode::Lt])[..]);
    assert_eq!(code[13], 23);
    let exit = u16::from_le_bytes([code[14], code[15]]) as usize;
    assert_eq!(&code[exit - 3..exit], &encode(&[Opcode::Loop(6)])[..]);
    assert_eq!(fns[0].chunk.lines.len(), code.len());
}

#[test]
fn break_jumps_past_the_loop() {
    let (fns, _) = compile_checked("loop { break; }", &[]).unwrap();
    let code = &fns[0].chunk.code;
    // Jump(end), Loop(0), then nil and Return
    assert_eq!(code[0], 22);
    let target = u16::from_le_bytes([code[1], code[2]]) as usize;
    assert_eq!(&code[3..6], &encode(&[Opcode::Loop(0)])[..]);
    assert_eq!(target, 6);
}

#[test]
fn lambdas_are_appended_after_functions() {
    let (fns, _) = compile_checked("fn g() { 0 } let f = |x: i64| x + 1; f(2)", &[]).unwrap();
    assert_eq!(fns.len(), 3);
    assert_eq!(fns[1].name, "g");
    assert_eq!(fns[2].name, "__lambda_2");
    assert_eq!(fns[2].arity, 1);
    assert!(fns[0].chunk.code.windows(5).any(|w| w == encode(&[Opcode::NewClosure(2, 0)]).as_slice()));
}

#[test]
fn lambda_captures_enclosing_locals() {
    let (fns, _) = compile_checked("fn outer(a: i64) { let f = |x: i64| x + a; f(1) }", &[]).unwrap();
    let lambda = &fns[2];
    assert_eq!(lambda.name, "__lambda_2");
    // the capture comes first, then the parameter
    assert_eq!(lambda.arity, 2);
    let code = &fns[1].chunk.code;
    assert!(code.windows(3).any(|w| w == encode(&[Opcode::LoadLocal(0)]).as_slice()));
    assert!(code.windows(5).any(|w| w == encode(&[Opcode::NewClosure(2, 1)]).as_slice()));
}

#[test]
fn struct_literal_builds_a_struct() {
    let (fns, _) = compile_checked("struct P { x: i64 } let p = P { x: 1 };", &[]).unwrap();
    let chunk = &fns[0].chunk;
    assert!(matches!(&chunk.constants[0], Constant::Str(s) if s == "P"));
    assert!(matches!(&chunk.constants[1], Constant::Str(s) if s == "x"));
    assert_eq!(
        &chunk.code[0..12],
        &encode(&[Opcode::LoadConst(0), Opcode::LoadConst(1), Opcode::LoadConst(2), Opcode::MakeStruct(1)])[..]
    );
}

#[test]
fn enum_patterns_test_the_tag() {
    let src = "enum E { A(i64), B } let e = E::A(1); match e { E::A(v) => v, E::B => 0 }";
    let (fns, _) = compile_checked(src, &[]).unwrap();
    let code = &fns[0].chunk.code;
    assert!(code.windows(3).any(|w| w == encode(&[Opcode::LoadField(0)]).as_slice()));
    assert!(code.contains(&Opcode::LoadIndex.to_byte()));
}

#[test]
fn undefined_names_are_compile_errors() {
    let err = compile_unchecked("y + 1").unwrap_err();
    assert_eq!(compile_messages(&err), vec!["undefined name 'y'"]);
}

#[test]
fn assignment_to_undefined_variable_is_an_error() {
    let err = compile_unchecked("z = 1").unwrap_err();
    assert_eq!(compile_messages(&err), vec!["cannot assign to undefined variable 'z'"]);
}

#[test]
fn invalid_assignment_target_is_an_error() {
    let err = compile_unchecked("1 = 2").unwrap_err();
    assert_eq!(compile_messages(&err), vec!["invalid assignment target"]);
}

#[test]
fn redefining_a_local_is_an_error() {
    let err = compile_unchecked("fn f() { let a = 1; let a = 2; a }").unwrap_err();
    assert_eq!(compile_messages(&err), vec!["variable 'a' already defined"]);
}

#[test]
fn free_variables_in_first_use_order() {
    let program = parse("x + y * z + x");
    let expr = match &program.stmts[0].node {
        Stmt::Expr(e) => e,
        other => panic!("unexpected {other:?}"),
    };
    let own = vec!["y".to_string()];
    assert_eq!(collect_free_vars(expr, &own), vec!["x".to_string(), "z".to_string()]);
}

#[test]
fn lambda_parameters_are_not_free() {
    let program = parse("|a: i64| a + b");
    let expr = match &program.stmts[0].node {
        Stmt::Expr(e @ Expr::Lambda { .. }) => e,
        other => panic!("unexpected {other:?}"),
    };
    assert_eq!(collect_free_vars(expr, &Vec::new()), vec!["b".to_string()]);
}

#[test]
fn operands_compile_left_to_right_before_the_operator() {
    let (fns, _) = compile_unchecked("(10 - 3) * 2;").unwrap();
    assert_eq!(
        fns[0].chunk.code,
        encode(&[
            Opcode::LoadConst(0),
            Opcode::LoadConst(1),
            Opcode::Sub,
            Opcode::LoadConst(2),
            Opcode::Mul,
            Opcode::Return,
        ])
    );
}

#[test]
fn literal_only_program_compiles_without_errors() {
    assert!(compile_unchecked("1 + 2; -3; !true; let x = 4 * 5;").is_ok());
}

#[test]
fn offset_to_line_counts_line_feeds_before_any_offset() {
    let table = build_line_offsets("é\nab\n\nc");
    assert_eq!(table, vec![0, 3, 6, 7]);
    let lines: Vec<usize> = (0..10).map(|o| offset_to_line(&table, o)).collect();
    assert_eq!(lines, vec![0, 0, 0, 1, 1, 1, 2, 3, 3, 3]);
}

#[test]
fn method_calls_carry_their_argument_count() {
    let (fns, _) = compile_unchecked("let v = 1; v.push(2, 3);").unwrap();
    let code = &fns[0].chunk.code;
    let call = encode(&[Opcode::CallMethod(0, 2)]);
    assert!(code.windows(call.len()).any(|w| w == call.as_slice()));
    assert_eq!(fns[0].chunk.method_names, vec!["push".to_string()]);
}

#[test]
fn user_functions_follow_main_in_declaration_order() {
    let (fns, _) = compile_checked("fn a() { } fn b(x: i64) { }", &[]).unwrap();
    let names: Vec<&str> = fns.iter().map(|f| f.name.as_str()).collect();
    assert_eq!(names, vec!["__main__", "a", "b"]);
}

#[test]
fn conditional_jumps_land_after_each_branch() {
    let (fns, _) = compile_unchecked("if true { 1 } else { 2 }").unwrap();
    let code = &fns[0].chunk.code;
    let jif = encode(&[Opcode::JumpIfFalse(0)])[0];
    let jmp = encode(&[Opcode::Jump(0)])[0];
    assert_eq!(code[3], jif);
    let else_start = u16::from_le_bytes([code[4], code[5]]) as usize;
    assert_eq!(code[else_start - 3], jmp);
    let end = u16::from_le_bytes([code[else_start - 2], code[else_start - 1]]) as usize;
    assert_eq!(end, code.len() - 1);
    assert_eq!(code[code.len() - 1], encode(&[Opcode::Return])[0]);
}
