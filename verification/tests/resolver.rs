use zenlang::error::Error;
use zenlang::lexer::Lexer;
use zenlang::parser::Parser;
use zenlang::resolver::{resolve, resolve_with_natives};
use zenlang::stdlib::native_names;
use zenlang::symbol::{SymKind, SymbolTable};

fn resolve_program(source: &str) -> Result<SymbolTable, Vec<Error>> {
    let tokens = Lexer::new(source).tokenize().map_err(|e| vec![e])?;
    let mut program = Parser::new(source, &tokens).parse().map_err(|e| vec![e])?;
    match resolve(&mut program) {
        Ok(t) => Ok(t),
        Err(Error::ParseMultiple { errors }) => Err(errors),
        Err(e) => Err(vec![e]),
    }
}

#[test]
fn test_empty() {
    let table = resolve_program("").unwrap();
    assert!(table.lookup("Option").is_some());
    assert!(table.lookup("Result").is_some());
}

#[test]
fn test_let_binding() {
    let table = resolve_program("let x = 42; let y = x;").unwrap();
    assert!(table.lookup("x").is_some());
    assert!(table.lookup("y").is_some());
}

#[test]
fn test_undefined_variable() {
    let result = resolve_program("let x = y;");
    assert!(result.is_err());
}

#[test]
fn test_duplicate_definition() {
    let result = resolve_program("let x = 1; let x = 2;");
    assert!(result.is_err());
}

#[test]
fn test_function_decl() {
    let table = resolve_program("fn add(a: i32, b: i32) -> i32 { a + b }").unwrap();
    assert!(table.lookup("add").is_some());
}

#[test]
fn resolver_test_struct_decl() {
    let table = resolve_program("struct Foo { x: i32 }").unwrap();
    assert!(table.lookup("Foo").is_some());
}

#[test]
fn resolver_test_if_else() {
    let table = resolve_program("let x = if true { 1 } else { 2 };").unwrap();
    assert!(table.lookup("x").is_some());
}

#[test]
fn test_mod_decl() {
    let table = resolve_program("mod math { fn add(x, y) { x + y } }").unwrap();
    assert!(table.lookup("math").is_some());
    assert!(matches!(table.lookup("math").unwrap().kind, SymKind::Module(_)));
}

#[test]
fn test_use_import() {
    let table = resolve_program("
            mod math { fn add(x, y) { x + y } }
            use math::add;
        ").unwrap();
    assert!(table.lookup("add").is_some());
    assert!(matches!(table.lookup("add").unwrap().kind, SymKind::Function(_)));
}

#[test]
fn test_use_imports_variable() {
    let table = resolve_program("
            mod config { let pi = 314; }
            use config::pi;
        ").unwrap();
    assert!(table.lookup("pi").is_some());
}

#[test]
fn test_use_nonexistent_module_fails() {
    let result = resolve_program("use foo::bar;");
    assert!(result.is_err());
}

#[test]
fn test_duplicate_mod_fails() {
    let result = resolve_program("mod a { } mod a { }");
    assert!(result.is_err());
}

#[test]
fn test_trait_resolve_and_symbol() {
    let source = r#"
        trait Shape {
            fn area() -> f64;
        }
    "#;
    let tokens = Lexer::new(source).tokenize().unwrap();
    let mut program = Parser::new(source, &tokens).parse().unwrap();
    let names = native_names();
    let symbols = resolve_with_natives(&mut program, &names).unwrap();
    let entry = symbols.lookup("Shape").unwrap();
    match &entry.kind {
        SymKind::Trait(def) => {
            assert_eq!(def.name, "Shape");
            assert_eq!(def.method_sigs.len(), 1);
            assert_eq!(def.method_sigs[0].name, "area");
        }
        _ => panic!("expected Trait sym"),
    }
}

#[test]
fn test_trait_impl_missing_trait_errors() {
    let source = r#"
        struct Foo { x: i64 }
        impl NonExistent for Foo {
            fn bar(&self) -> i64 { self.x }
        }
    "#;
    let tokens = Lexer::new(source).tokenize().unwrap();
    let mut program = Parser::new(source, &tokens).parse().unwrap();
    let names = native_names();
    let result = resolve_with_natives(&mut program, &names);
    assert!(result.is_err(), "expected resolver error for missing trait");
}

#[test]
fn undefined_name_is_reported_with_its_name() {
    match resolve_program("let a = 1; let b = a + missing;") {
        Err(errors) => {
            assert_eq!(errors.len(), 1);
            match &errors[0] {
                Error::Resolve { msg, .. } => assert_eq!(msg, "undefined name 'missing'"),
                other => panic!("unexpected error {other:?}"),
            }
        }
        Ok(_) => panic!("expected an error"),
    }
}

#[test]
fn scopes_end_with_their_block() {
    assert!(resolve_program("fn f() { let inner = 1; } let y = inner;").is_err());
    assert!(resolve_program("for i in 0..3 { i; } let y = i;").is_err());
    assert!(resolve_program("let f = |a, b| a + b; f(1, 2);").is_ok());
    assert!(resolve_program("let v = Some(1); match v { Some(x) => x, None => 0 }").is_ok());
}

#[test]
fn undefined_names_are_reported_left_to_right() {
    match resolve_program("first + second * first;") {
        Err(errors) => {
            let msgs: Vec<String> = errors
                .iter()
                .map(|e| match e {
                    Error::Resolve { msg, .. } => msg.clone(),
                    other => format!("{other:?}"),
                })
                .collect();
            assert_eq!(
                msgs,
                vec![
                    "undefined name 'first'".to_string(),
                    "undefined name 'second'".to_string(),
                    "undefined name 'first'".to_string(),
                ]
            );
        }
        Ok(_) => panic!("expected errors"),
    }
}

#[test]
fn natives_and_declarations_land_in_the_global_scope() {
    let source = "fn f() {} struct S { a: i64 } enum E { A, B }";
    let tokens = Lexer::new(source).tokenize().unwrap();
    let mut program = Parser::new(source, &tokens).parse().unwrap();
    let names = native_names();
    let table = resolve_with_natives(&mut program, &names).unwrap();
    for n in ["f", "S", "E", "A", "B", "E::A", "E::B", "Option", "Result", "print"] {
        assert!(table.lookup_global(n).is_some(), "{n} missing");
    }
}

#[test]
fn lambda_parameters_are_bound_in_the_body_only() {
    assert!(resolve_program("let f = |a| a;").is_ok());
    match resolve_program("let f = |a| b;") {
        Err(errors) => assert!(errors.iter().any(|e| matches!(e, Error::Resolve { msg, .. } if msg == "undefined name 'b'"))),
        Ok(_) => panic!("expected an error"),
    }
    assert!(resolve_program("let f = |a| a; a;").is_err());
}

#[test]
fn closure_and_loop_bodies_see_their_own_names_and_the_enclosing_ones() {
    assert!(resolve_program("let f = |x| x + y;").is_err());
    assert!(resolve_program("let y = 1; let f = |x| x + y;").is_ok());
    assert!(resolve_program("for i in 0..3 { i + j; }").is_err());
    assert!(resolve_program("let j = 2; for i in 0..3 { i + j; }").is_ok());
}
