use zenlang::ast::{copy_stmts, EnumVariant, Program, Stmt};
use zenlang::error::Error;
use zenlang::lexer::Lexer;
use zenlang::parser::Parser;
use zenlang::resolver::{resolve, resolve_with_natives};
use zenlang::stdlib::native_names;
use zenlang::typeck::{check, types_compatible, type_label, TypeMap};
use zenlang::ast::Type;
use zenlang::symbol::SymbolTable;

fn parse(source: &str) -> Result<Program, Error> {
    let tokens = Lexer::new(source).tokenize()?;
    Parser::new(source, &tokens).parse()
}

fn type_check(source: &str) -> Result<TypeMap, Error> {
    let tokens = Lexer::new(source).tokenize()?;
    let mut program = Parser::new(source, &tokens).parse()?;
    let mut symbols = resolve(&mut program)?;
    check(&program, &mut symbols)
}

fn messages(e: &Error) -> String {
    match e {
        Error::ParseMultiple { errors } => errors.iter().map(messages).collect::<Vec<_>>().join(", "),
        Error::TypeError { msg, .. } => msg.clone(),
        Error::Resolve { msg, .. } => msg.clone(),
        Error::Parse { msg, .. } => msg.clone(),
        other => format!("{other:?}"),
    }
}

#[test]
fn test_literal_types() {
    let _tm = type_check("let x = 42; let y = 3.14; let z = true; let w = \"hello\";").unwrap();
}

#[test]
fn test_type_mismatch() {
    let result = type_check("let x: i32 = true;");
    assert!(result.is_err());
}

#[test]
fn test_arithmetic() {
    let result = type_check("let x = 1 + 2; let y = 1.0 + 2.0; let z = 1 + 2.0;");
    assert!(result.is_ok());
}

#[test]
fn test_if_else_types() {
    let result = type_check("let x = if true { 1 } else { 2 };");
    assert!(result.is_ok());
}

#[test]
fn test_bool_condition() {
    let result = type_check("if 42 { 1 } else { 2 };");
    assert!(result.is_err());
}

#[test]
fn test_enum_variant_construction_and_match() {
    let prog = parse(
        r#"
        enum Color { Red, Green, Blue }
        enum MyOption { MySome(i32), MyNone }
        enum MyResult { MyOk(i32), MyErr(str) }

        fn describe_color(c: Color) -> str {
            match c {
                Color::Red => "red",
                Color::Green => "green",
                Color::Blue => "blue"
            }
        }

        fn my_is_some(opt: MyOption) -> bool {
            match opt {
                MyOption::MySome(_) => true,
                MyOption::MyNone => false
            }
        }

        fn my_unwrap_or(opt: MyOption, default: i32) -> i32 {
            match opt {
                MyOption::MySome(v) => v,
                MyOption::MyNone => default
            }
        }

        fn divide(a: i32, b: i32) -> MyResult {
            if b == 0 { MyResult::MyErr("division by zero") } else { MyResult::MyOk(a / b) }
        }

        let a = describe_color(Color::Green);
        let b = my_is_some(MyOption::MySome(10));
        let c = my_is_some(MyOption::MyNone);
        let d = my_unwrap_or(MyOption::MySome(5), 0);
        let e = my_unwrap_or(MyOption::MyNone, 42);
        let f = divide(10, 2);
        let g = divide(5, 0);
    "#,
    )
    .unwrap();
    assert_eq!(prog.stmts.len(), 14); // 3 enums + 4 fn + 7 let stmts

    // Check enum declarations
    match &prog.stmts[0].node {
        Stmt::Enum {
            name,
            type_params,
            variants,
            ..
        } => {
            assert_eq!(name, "Color");
            assert_eq!(type_params.len(), 0);
            assert_eq!(variants.len(), 3);
        }
        _ => panic!("expected enum stmt"),
    }
    match &prog.stmts[1].node {
        Stmt::Enum {
            name,
            type_params,
            variants,
            ..
        } => {
            assert_eq!(name, "MyOption");
            assert_eq!(type_params.len(), 0);
            assert_eq!(variants.len(), 2);
            // Check MySome variant has one field
            let EnumVariant { name, fields } = &variants[0];
            assert_eq!(name, "MySome");
            assert_eq!(fields.len(), 1);
            // Check MyNone variant has no fields
            let EnumVariant { name, fields } = &variants[1];
            assert_eq!(name, "MyNone");
            assert_eq!(fields.len(), 0);
        }
        _ => panic!("expected enum stmt"),
    }
    match &prog.stmts[2].node {
        Stmt::Enum {
            name,
            type_params,
            variants,
            ..
        } => {
            assert_eq!(name, "MyResult");
            assert_eq!(type_params.len(), 0);
            assert_eq!(variants.len(), 2);
        }
        _ => panic!("expected enum stmt"),
    }

    // Check function declarations
    match &prog.stmts[3].node {
        Stmt::Fn {
            name,
            params,
            return_type,
            ..
        } => {
            assert_eq!(name, "describe_color");
            assert_eq!(params.len(), 1);
            assert_eq!(params[0].name, "c");
            assert!(return_type.is_some());
        }
        _ => panic!("expected describe_color fn"),
    }
    match &prog.stmts[4].node {
        Stmt::Fn {
            name,
            params,
            return_type,
            ..
        } => {
            assert_eq!(name, "my_is_some");
            assert_eq!(params.len(), 1);
            assert_eq!(params[0].name, "opt");
            assert!(return_type.is_some());
        }
        _ => panic!("expected my_is_some fn"),
    }
    match &prog.stmts[5].node {
        Stmt::Fn {
            name,
            params,
            return_type,
            ..
        } => {
            assert_eq!(name, "my_unwrap_or");
            assert_eq!(params.len(), 2);
            assert_eq!(params[0].name, "opt");
            assert_eq!(params[1].name, "default");
            assert!(return_type.is_some());
        }
        _ => panic!("expected unwrap_or fn"),
    }
    match &prog.stmts[6].node {
        Stmt::Fn {
            name,
            params,
            return_type,
            ..
        } => {
            assert_eq!(name, "divide");
            assert_eq!(params.len(), 2);
            assert_eq!(params[0].name, "a");
            assert_eq!(params[1].name, "b");
            assert!(return_type.is_some());
        }
        _ => panic!("expected divide fn"),
    }

    // Let statements (we won't check each individually)
    assert_eq!(prog.stmts.len(), 14);

    // Now run full resolution and type checking to ensure no errors
    let mut copy = Program { stmts: copy_stmts(&prog.stmts) };
    let mut symbols = resolve(&mut copy).expect("resolve failed");
    check(&prog, &mut symbols).expect("typecheck failed");
}

#[test]
fn test_unit_variant_exhaustiveness_check() {
    let source = r#"
        enum Color { Red, Green, Blue }
        fn main() {
            let r = Color::Red;
            match r {
                Color::Red => true,
            }
        }
    "#;
    let tokens = Lexer::new(source).tokenize().unwrap();
    let parser = Parser::new(source, &tokens);
    let mut program = parser.parse().unwrap();
    let names = native_names();
    let mut symbols = resolve_with_natives(&mut program, &names).unwrap();
    let result = check(&program, &mut symbols);
    assert!(result.is_err(), "expected type error for non-exhaustive match");
    let err_msg = match result {
        Err(e) => messages(&e),
        Ok(_) => unreachable!(),
    };
    assert!(err_msg.contains("non-exhaustive"), "expected non-exhaustive error, got: {}", err_msg);
}

#[test]
fn type_error_messages() {
    let e = type_check("let x: i32 = true;").err().unwrap();
    assert_eq!(messages(&e), "type mismatch: expected 'i64', got 'bool'");
    let e = type_check("let a = [1, 2]; let b: str = a;").err().unwrap();
    assert_eq!(messages(&e), "type mismatch: expected 'str', got '[i64]'");
    let e = type_check("struct P { x: i64 } let p = P { x: 1, y: 2 };").err().unwrap();
    assert_eq!(messages(&e), "struct 'P' has no field 'y'");
    let e = type_check("fn f(a: i64) -> i64 { a } f(1, 2);").err().unwrap();
    assert_eq!(messages(&e), "expected 1 arguments, got 2");
    let e = type_check("let b = !3;").err().unwrap();
    assert_eq!(messages(&e), "logical not requires bool");
}

#[test]
fn compatibility_rules() {
    let t = SymbolTable::new();
    assert!(types_compatible(&t, &Type::I64, &Type::F64));
    assert!(types_compatible(&t, &Type::Unit, &Type::Str));
    assert!(types_compatible(&t, &Type::Named("int".to_string()), &Type::I64));
    assert!(!types_compatible(&t, &Type::Str, &Type::Bool));
    assert!(types_compatible(&t, &Type::Array(Box::new(Type::I64)), &Type::Array(Box::new(Type::F32))));
    assert!(!types_compatible(&t, &Type::Array(Box::new(Type::Str)), &Type::Array(Box::new(Type::Bool))));
    assert!(types_compatible(&t, &Type::Named("Option".to_string()), &Type::Option(Box::new(Type::Str))));
    assert!(!types_compatible(&t, &Type::Any, &Type::I64));
    assert_eq!(type_label(&Type::Result(Box::new(Type::I64), Box::new(Type::Str))), "Result<i64, str>");
    let f = Type::Fn { params: vec![Type::I64, Type::Bool], ret: Box::new(Type::Unit) };
    assert_eq!(type_label(&f), "(i64, bool) -> ()");
}

#[test]
fn types_are_recorded_for_each_expression() {
    let tm = type_check("let x = 1 + 2;").unwrap();
    assert_eq!(tm.len(), 3);
    assert_eq!(tm.get(0), Some(&Type::I64));
    assert_eq!(tm.get(2), Some(&Type::I64));
    assert!(tm.get(3).is_none());
}

#[test]
fn literal_statements_check_without_errors() {
    assert!(type_check("1; true; \"s\"; let a = 2; const B = 3; struct P { x: i64 }").is_ok());
}

#[test]
fn operators_on_matching_literal_types_check() {
    assert!(type_check("1 + 2 * 3; -4; !false; 1 < 2; true && false; \"a\" + \"b\";").is_ok());
    assert!(type_check("1 + true;").is_err());
}

#[test]
fn operand_types_come_before_the_operator_type() {
    let tm = type_check("1 < 2; !true;").unwrap();
    assert_eq!(tm.len(), 5);
    assert_eq!(tm.get(0), Some(&Type::I64));
    assert_eq!(tm.get(1), Some(&Type::I64));
    assert_eq!(tm.get(2), Some(&Type::Bool));
    assert_eq!(tm.get(3), Some(&Type::Bool));
    assert_eq!(tm.get(4), Some(&Type::Bool));
}

#[test]
fn each_operator_fault_is_reported_once() {
    match type_check("1 + true; -true; 2 < 3; !1;") {
        Err(Error::ParseMultiple { errors }) => assert_eq!(errors.len(), 3),
        Err(other) => panic!("unexpected error {other:?}"),
        Ok(_) => panic!("expected type errors"),
    }
    assert!(type_check("1 + 2 * 3; -4; 2 < 3; !false;").is_ok());
}
