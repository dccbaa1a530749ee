use zenlang::ast::{BinOp, Expr, Program, Stmt, Type};
use zenlang::error::Error;
use zenlang::lexer::Lexer;
use zenlang::parser::Parser;

fn parse(source: &str) -> Result<Program, Error> {
    let tokens = Lexer::new(source).tokenize()?;
    Parser::new(source, &tokens).parse()
}

    #[test]
    fn test_empty_program() {
        let prog = parse("").unwrap();
        assert!(prog.stmts.is_empty());
    }

    #[test]
    fn test_let_stmt() {
        let prog = parse("let x = 42;").unwrap();
        assert_eq!(prog.stmts.len(), 1);
        match &prog.stmts[0].node {
            Stmt::Let {
                mutable,
                name,
                type_ann: _,
                init: _,
            } => {
                assert!(!mutable);
                assert_eq!(name, "x");
            }
            _ => panic!("expected let stmt"),
        }
    }

    #[test]
    fn test_let_mut() {
        let prog = parse("let mut x = 10;").unwrap();
        match &prog.stmts[0].node {
            Stmt::Let { mutable, name, .. } => {
                assert!(*mutable);
                assert_eq!(name, "x");
            }
            _ => panic!("expected let stmt"),
        }
    }

    #[test]
    fn test_fn_decl() {
        let prog = parse("fn add(a: i32, b: i32) -> i32 { a + b }").unwrap();
        assert_eq!(prog.stmts.len(), 1);
        match &prog.stmts[0].node {
            Stmt::Fn {
                name,
                params,
                return_type,
                body,
                ..
            } => {
                assert_eq!(name, "add");
                assert_eq!(params.len(), 2);
                assert_eq!(params[0].name, "a");
                assert!(return_type.is_some());
                assert_eq!(body.len(), 1);
            }
            _ => panic!("expected fn stmt"),
        }
    }

    #[test]
    fn test_if_expr() {
        let prog = parse("let x = if true { 1 } else { 2 };").unwrap();
        match &prog.stmts[0].node {
            Stmt::Let {
                init: Some(Expr::If { cond, then, else_ }),
                ..
            } => {
                assert!(matches!(cond.as_ref(), Expr::Bool(true)));
                assert!(matches!(then.as_ref(), Expr::Block(_)));
                assert!(else_.is_some());
            }
            _ => panic!("expected let with if init"),
        }
    }

    #[test]
    fn test_if_field_cond() {
        parse("fn f() { if e.vx > m { 1 } }").unwrap();
    }

    #[test]
    fn test_if_after_let() {
        parse("fn f() { let x = 1; if x > m { 2 } }").unwrap();
    }

    #[test]
    fn test_if_abs_condition() {
        parse("fn f() { if abs(e.vx) > m { 1 } }").unwrap();
    }

    #[test]
    fn test_field_access_in_rhs() {
        // field access should work inside binary expression RHS
        let prog = parse("let x = a + e.vx;").unwrap();
        match &prog.stmts[0].node {
            Stmt::Let {
                init:
                    Some(Expr::Binary {
                        op: BinOp::Add,
                        lhs,
                        rhs,
                    }),
                ..
            } => {
                assert!(matches!(lhs.as_ref(), Expr::Ident(_)));
                assert!(matches!(rhs.as_ref(), Expr::Field { .. }));
            }
            _ => panic!("expected binary add with field access"),
        }
    }

    #[test]
    fn test_call_in_rhs() {
        // function call should work inside binary expression RHS
        let prog = parse("let x = a + foo(1);").unwrap();
        match &prog.stmts[0].node {
            Stmt::Let {
                init:
                    Some(Expr::Binary {
                        op: BinOp::Add,
                        lhs,
                        rhs,
                    }),
                ..
            } => {
                assert!(matches!(lhs.as_ref(), Expr::Ident(_)));
                assert!(matches!(rhs.as_ref(), Expr::Call { .. }));
            }
            _ => panic!("expected binary add with function call"),
        }
    }

    #[test]
    fn test_full_script_parse() {
        parse(
            r#"
fn update() {
    let i = 0;
    while i < entity_count() {
        let e = get_entity(i);
        e.vx = e.vx + 1.0;
        e.vy = e.vy + 1.0;
        let max_speed = 300.0;
        if abs(e.vx) > max_speed {
            if e.vx > 0.0 { e.vx = max_speed; } else { e.vx = -max_speed; }
        }
        if abs(e.vy) > max_speed {
            if e.vy > 0.0 { e.vy = max_speed; } else { e.vy = -max_speed; }
        }
        i = i + 1;
    }
}

if entity_count() == 0 {
    spawn_entity(100.0, 100.0, 0.0, 0.0, 8.0, 200.0, 200.0, 200.0);
}

if is_key_pressed("space") {
    spawn_entity(200.0, 200.0, 0.0, 0.0, 10.0, 255.0, 80.0, 80.0);
}

update();
"#,
        )
        .unwrap();
    }

    #[test]
    fn test_while_loop() {
        let prog = parse("while x < 10 { x = x + 1; }").unwrap();
        assert_eq!(prog.stmts.len(), 1);
        match &prog.stmts[0].node {
            Stmt::Expr(Expr::While { cond, body }) => {
                assert!(matches!(cond.as_ref(), Expr::Binary { op: BinOp::Lt, .. }));
                assert!(matches!(body.as_ref(), Expr::Block(_)));
            }
            _ => panic!("expected while expr"),
        }
    }

    #[test]
    fn test_for_loop() {
        let prog = parse("for i in 0..10 { print(i); }").unwrap();
        assert_eq!(prog.stmts.len(), 1);
        match &prog.stmts[0].node {
            Stmt::Expr(Expr::For { var, iter, body }) => {
                assert_eq!(var, "i");
                assert!(matches!(iter.as_ref(), Expr::Range { .. }));
                assert!(matches!(body.as_ref(), Expr::Block(_)));
            }
            _ => panic!("expected for expr"),
        }
    }

    #[test]
    fn parser_test_struct_decl() {
        let prog = parse("struct Vec2 { x: f64, y: f64 }").unwrap();
        match &prog.stmts[0].node {
            Stmt::Struct { name, fields, .. } => {
                assert_eq!(name, "Vec2");
                assert_eq!(fields.len(), 2);
            }
            _ => panic!("expected struct decl"),
        }
    }

    #[test]
    fn test_enum_decl() {
        let prog = parse("enum Option { Some(i32), None }").unwrap();
        match &prog.stmts[0].node {
            Stmt::Enum { name, variants, .. } => {
                assert_eq!(name, "Option");
                assert_eq!(variants.len(), 2);
            }
            _ => panic!("expected enum decl"),
        }
    }

    #[test]
    fn test_match_expr() {
        let prog = parse("match x { 1 => true, _ => false }").unwrap();
        match &prog.stmts[0].node {
            Stmt::Expr(Expr::Match { expr, arms }) => {
                assert!(matches!(expr.as_ref(), Expr::Ident(_)));
                assert_eq!(arms.len(), 2);
            }
            _ => panic!("expected match expr"),
        }
    }

    #[test]
    fn test_block_expr() {
        let prog = parse("let x = { let y = 1; y + 2 };").unwrap();
        match &prog.stmts[0].node {
            Stmt::Let {
                init: Some(Expr::Block(stmts)),
                ..
            } => {
                assert_eq!(stmts.len(), 2);
            }
            _ => panic!("expected let with block init"),
        }
    }

    #[test]
    fn test_impl_block() {
        let prog = parse("impl Vec2 { fn length(&self) -> f64 { 0.0 } }").unwrap();
        assert_eq!(prog.stmts.len(), 1);
        match &prog.stmts[0].node {
            Stmt::Impl {
                self_type, methods, ..
            } => {
                assert_eq!(self_type, "Vec2");
                assert_eq!(methods.len(), 1);
            }
            _ => panic!("expected impl block"),
        }
    }

    #[test]
    fn test_method_call() {
        let prog = parse("obj.method(1, 2);").unwrap();
        match &prog.stmts[0].node {
            Stmt::Expr(Expr::MethodCall { obj, method, args }) => {
                assert!(matches!(obj.as_ref(), Expr::Ident(_)));
                assert_eq!(method, "method");
                assert_eq!(args.len(), 2);
            }
            _ => panic!("expected method call"),
        }
    }

    #[test]
    fn test_field_access() {
        let prog = parse("obj.field;").unwrap();
        match &prog.stmts[0].node {
            Stmt::Expr(Expr::Field { obj, field }) => {
                assert!(matches!(obj.as_ref(), Expr::Ident(_)));
                assert_eq!(field, "field");
            }
            _ => panic!("expected field access"),
        }
    }

    #[test]
    fn test_array_literal() {
        let prog = parse("let arr = [1, 2, 3];").unwrap();
        match &prog.stmts[0].node {
            Stmt::Let {
                init: Some(Expr::Array(elems)),
                ..
            } => {
                assert_eq!(elems.len(), 3);
            }
            _ => panic!("expected array literal"),
        }
    }

    #[test]
    fn test_struct_literal() {
        let prog = parse("let v = Vec2 { x: 1.0, y: 2.0 };").unwrap();
        match &prog.stmts[0].node {
            Stmt::Let {
                init: Some(Expr::StructLit { name, fields, .. }),
                ..
            } => {
                assert_eq!(name, "Vec2");
                assert_eq!(fields.len(), 2);
            }
            _ => panic!("expected struct literal"),
        }
    }

    #[test]
    fn test_call_expr() {
        let prog = parse("foo(1, 2, 3);").unwrap();
        match &prog.stmts[0].node {
            Stmt::Expr(Expr::Call { func, args }) => {
                assert!(matches!(func.as_ref(), Expr::Ident(_)));
                assert_eq!(args.len(), 3);
            }
            _ => panic!("expected call"),
        }
    }

#[test]
fn test_generic_fn() {
    let prog = parse("fn identity<T>(x: T) -> T { x }").unwrap();
    assert_eq!(prog.stmts.len(), 1);
    match &prog.stmts[0].node {
        Stmt::Fn {
            name,
            type_params,
            params,
            return_type,
            ..
        } => {
            assert_eq!(name, "identity");
            assert_eq!(type_params.len(), 1);
            assert_eq!(type_params[0].name, "T");
            assert_eq!(params.len(), 1);
            assert_eq!(params[0].name, "x");
            assert!(return_type.is_some());
            // Parser returns Named("T"), resolver converts to Generic("T")
            assert_eq!(return_type.as_ref().unwrap(), &Type::Named("T".into()));
        }
        _ => panic!("expected fn stmt"),
    }
}

#[test]
fn test_generic_struct() {
    let prog = parse("struct Pair<T, U> { first: T, second: U }").unwrap();
    assert_eq!(prog.stmts.len(), 1);
    match &prog.stmts[0].node {
        Stmt::Struct {
            name,
            type_params,
            fields,
            ..
        } => {
            assert_eq!(name, "Pair");
            assert_eq!(type_params.len(), 2);
            assert_eq!(type_params[0].name, "T");
            assert_eq!(type_params[1].name, "U");
            assert_eq!(fields.len(), 2);
            assert_eq!(fields[0].type_ann, Type::Named("T".into()));
            assert_eq!(fields[1].type_ann, Type::Named("U".into()));
        }
        _ => panic!("expected struct stmt"),
    }
}

#[test]
fn test_generic_enum() {
    let prog = parse("enum Option<T> { Some(T), None }").unwrap();
    assert_eq!(prog.stmts.len(), 1);
    match &prog.stmts[0].node {
        Stmt::Enum {
            name,
            type_params,
            variants,
            ..
        } => {
            assert_eq!(name, "Option");
            assert_eq!(type_params.len(), 1);
            assert_eq!(type_params[0].name, "T");
            assert_eq!(variants.len(), 2);
        }
        _ => panic!("expected enum stmt"),
    }
}

#[test]
fn test_generic_impl() {
    let prog = parse("impl<T> Vec2 { fn add(other: T) { } }").unwrap();
    assert_eq!(prog.stmts.len(), 1);
    match &prog.stmts[0].node {
        Stmt::Impl {
            type_params,
            self_type,
            methods,
            ..
        } => {
            assert_eq!(self_type, "Vec2");
            assert_eq!(type_params.len(), 1);
            assert_eq!(type_params[0].name, "T");
            assert_eq!(methods.len(), 1);
        }
        _ => panic!("expected impl stmt"),
    }
}

#[test]
fn test_trait_decl_parse() {
    let source = r#"
        trait Shape {
            fn area() -> f64;
            fn name() -> str;
        }
    "#;
    let tokens = Lexer::new(source).tokenize().unwrap();
    let program = Parser::new(source, &tokens).parse().unwrap();
    assert_eq!(program.stmts.len(), 1);
    match &program.stmts[0].node {
        Stmt::Trait {
            name,
            type_params,
            methods,
            ..
        } => {
            assert_eq!(name, "Shape");
            assert!(type_params.is_empty());
            assert_eq!(methods.len(), 2);
            if let Stmt::Fn {
                name: fn_name,
                params,
                return_type,
                body,
                ..
            } = &methods[0].node
            {
                assert_eq!(fn_name, "area");
                assert!(params.is_empty());
                assert!(return_type.is_some());
                assert!(body.is_empty());
            } else {
                panic!("expected fn sig in trait");
            }
        }
        _ => panic!("expected Trait stmt"),
    }
}

#[test]
fn test_string_interpolation_desugars_to_concat() {
    let source = r#""hello {name}""#;
    let tokens = Lexer::new(source).tokenize().unwrap();
    let program = Parser::new(source, &tokens).parse().unwrap();
    assert_eq!(program.stmts.len(), 1);
    match &program.stmts[0].node {
        Stmt::Expr(Expr::Binary { op: BinOp::Add, .. }) => {} // desugared to add chain
        other => panic!("expected Binary Add, got: {other:?}"),
    }
}

#[test]
fn test_string_interpolation_no_interp_passthrough() {
    let source = r#""hello world""#;
    let tokens = Lexer::new(source).tokenize().unwrap();
    let program = Parser::new(source, &tokens).parse().unwrap();
    match &program.stmts[0].node {
        Stmt::Expr(Expr::Str(_)) => {} // plain string, no desugar
        other => panic!("expected Expr::Str, got: {other:?}"),
    }
}

#[test]
fn test_string_interpolation_empty_error() {
    let source = r#""hello {} world""#;
    let tokens = Lexer::new(source).tokenize().unwrap();
    let result = Parser::new(source, &tokens).parse();
    assert!(result.is_err());
}

#[test]
fn test_string_interpolation_unterminated_error() {
    let source = r#""hello {name""#;
    let tokens = Lexer::new(source).tokenize().unwrap();
    let result = Parser::new(source, &tokens).parse();
    assert!(result.is_err());
}

#[test]
fn test_const_declaration_parses() {
    let source = "const MAX = 100;";
    let tokens = Lexer::new(source).tokenize().unwrap();
    let program = Parser::new(source, &tokens).parse().unwrap();
    assert_eq!(program.stmts.len(), 1);
    match &program.stmts[0].node {
        Stmt::Const {
            name,
            type_ann,
            init,
            ..
        } => {
            assert_eq!(name, "MAX");
            assert!(type_ann.is_none());
            match init {
                Expr::Int(n) => assert_eq!(*n, 100),
                other => panic!("expected Int, got: {other:?}"),
            }
        }
        other => panic!("expected Const, got: {other:?}"),
    }
}

#[test]
fn test_const_declaration_with_type_annotation() {
    let source = "const E: f64 = 2.71;";
    let tokens = Lexer::new(source).tokenize().unwrap();
    let program = Parser::new(source, &tokens).parse().unwrap();
    assert_eq!(program.stmts.len(), 1);
    match &program.stmts[0].node {
        Stmt::Const {
            name,
            type_ann,
            init,
            ..
        } => {
            assert_eq!(name, "E");
            assert!(type_ann.is_some());
            assert_eq!(type_ann.as_ref().unwrap(), &Type::F64);
            match init {
                Expr::Float(n) => assert!((n.parse::<f64>().unwrap() - 2.71).abs() < f64::EPSILON),
                other => panic!("expected Float, got: {other:?}"),
            }
        }
        other => panic!("expected Const, got: {other:?}"),
    }
}

#[test]
fn test_type_alias_parses() {
    let source = "type MyInt = i64;";
    let tokens = Lexer::new(source).tokenize().unwrap();
    let program = Parser::new(source, &tokens).parse().unwrap();
    assert_eq!(program.stmts.len(), 1);
    match &program.stmts[0].node {
        Stmt::Type {
            name,
            type_params,
            alias,
            ..
        } => {
            assert_eq!(name, "MyInt");
            assert!(type_params.is_empty());
            assert_eq!(alias, &Type::I64);
        }
        other => panic!("expected Type, got: {other:?}"),
    }
}

#[test]
fn test_type_alias_with_type_params() {
    let source = "type Pair<T, U> = (T, U);";
    let tokens = Lexer::new(source).tokenize().unwrap();
    let program = Parser::new(source, &tokens).parse().unwrap();
    assert_eq!(program.stmts.len(), 1);
    match &program.stmts[0].node {
        Stmt::Type {
            name, type_params, ..
        } => {
            assert_eq!(name, "Pair");
            assert_eq!(type_params.len(), 2);
            assert_eq!(type_params[0].name, "T");
            assert_eq!(type_params[1].name, "U");
        }
        other => panic!("expected Type, got: {other:?}"),
    }
}

#[test]
fn test_pub_fn_parses() {
    let source = "pub fn foo() -> i64 { 42 }";
    let tokens = Lexer::new(source).tokenize().unwrap();
    let program = Parser::new(source, &tokens).parse().unwrap();
    assert_eq!(program.stmts.len(), 1);
    match &program.stmts[0].node {
        Stmt::Fn { vis, name, .. } => {
            assert!(vis.is_pub(), "expected pub fn");
            assert_eq!(name, "foo");
        }
        other => panic!("expected Fn, got: {other:?}"),
    }
}

#[test]
fn test_pub_struct_parses() {
    let source = "pub struct Point { x: i64, y: i64 }";
    let tokens = Lexer::new(source).tokenize().unwrap();
    let program = Parser::new(source, &tokens).parse().unwrap();
    assert_eq!(program.stmts.len(), 1);
    match &program.stmts[0].node {
        Stmt::Struct { vis, name, .. } => {
            assert!(vis.is_pub(), "expected pub struct");
            assert_eq!(name, "Point");
        }
        other => panic!("expected Struct, got: {other:?}"),
    }
}

#[test]
fn test_pub_enum_parses() {
    let source = "pub enum Color { Red, Green, Blue }";
    let tokens = Lexer::new(source).tokenize().unwrap();
    let program = Parser::new(source, &tokens).parse().unwrap();
    assert_eq!(program.stmts.len(), 1);
    match &program.stmts[0].node {
        Stmt::Enum { vis, name, .. } => {
            assert!(vis.is_pub(), "expected pub enum");
            assert_eq!(name, "Color");
        }
        other => panic!("expected Enum, got: {other:?}"),
    }
}

#[test]
fn test_pub_const_parses() {
    let source = "pub const MAX: i64 = 100;";
    let tokens = Lexer::new(source).tokenize().unwrap();
    let program = Parser::new(source, &tokens).parse().unwrap();
    assert_eq!(program.stmts.len(), 1);
    match &program.stmts[0].node {
        Stmt::Const { vis, name, .. } => {
            assert!(vis.is_pub(), "expected pub const");
            assert_eq!(name, "MAX");
        }
        other => panic!("expected Const, got: {other:?}"),
    }
}

#[test]
fn test_pub_type_alias_parses() {
    let source = "pub type MyInt = i64;";
    let tokens = Lexer::new(source).tokenize().unwrap();
    let program = Parser::new(source, &tokens).parse().unwrap();
    assert_eq!(program.stmts.len(), 1);
    match &program.stmts[0].node {
        Stmt::Type { vis, name, .. } => {
            assert!(vis.is_pub(), "expected pub type");
            assert_eq!(name, "MyInt");
        }
        other => panic!("expected Type, got: {other:?}"),
    }
}

#[test]
fn test_private_by_default() {
    let source = "fn foo() -> i64 { 42 }";
    let tokens = Lexer::new(source).tokenize().unwrap();
    let program = Parser::new(source, &tokens).parse().unwrap();
    assert_eq!(program.stmts.len(), 1);
    match &program.stmts[0].node {
        Stmt::Fn { vis, .. } => {
            assert!(!vis.is_pub(), "expected private by default");
        }
        other => panic!("expected Fn, got: {other:?}"),
    }
}

#[test]
fn test_any_type_parses() {
    let source = "let x: any = 42;";
    let tokens = Lexer::new(source).tokenize().unwrap();
    let program = Parser::new(source, &tokens).parse().unwrap();
    assert_eq!(program.stmts.len(), 1);
    match &program.stmts[0].node {
        Stmt::Let { type_ann, .. } => {
            assert_eq!(type_ann.as_ref().unwrap(), &Type::Any);
        }
        other => panic!("expected Let, got: {other:?}"),
    }
}

#[test]
fn test_any_type_in_function_param() {
    let source = "fn process(val: any) { val }";
    let tokens = Lexer::new(source).tokenize().unwrap();
    let program = Parser::new(source, &tokens).parse().unwrap();
    assert_eq!(program.stmts.len(), 1);
    match &program.stmts[0].node {
        Stmt::Fn { params, .. } => {
            assert_eq!(params.len(), 1);
            assert_eq!(params[0].type_ann, Some(Type::Any));
        }
        other => panic!("expected Fn, got: {other:?}"),
    }
}

#[test]
fn test_any_type_in_return_type() {
    let source = "fn get_value() -> any { 42 }";
    let tokens = Lexer::new(source).tokenize().unwrap();
    let program = Parser::new(source, &tokens).parse().unwrap();
    assert_eq!(program.stmts.len(), 1);
    match &program.stmts[0].node {
        Stmt::Fn { return_type, .. } => {
            assert_eq!(return_type.as_ref().unwrap(), &Type::Any);
        }
        other => panic!("expected Fn, got: {other:?}"),
    }
}

fn shown(source: &str) -> String {
    let program = parse(source).unwrap();
    assert_eq!(program.stmts.len(), 1);
    match &program.stmts[0].node {
        Stmt::Expr(e) => format!("{e:?}"),
        other => panic!("unexpected statement {other:?}"),
    }
}

fn bin(op: BinOp, l: Expr, r: Expr) -> Expr {
    Expr::Binary { op, lhs: Box::new(l), rhs: Box::new(r) }
}

#[test]
fn infix_operators_follow_precedence_and_group_left() {
    let sub = bin(BinOp::Sub, bin(BinOp::Sub, Expr::Int(1), Expr::Int(2)), Expr::Int(3));
    assert_eq!(shown("1 - 2 - 3;"), format!("{sub:?}"));
    let add = bin(BinOp::Add, Expr::Int(1), bin(BinOp::Mul, Expr::Int(2), Expr::Int(3)));
    assert_eq!(shown("1 + 2 * 3"), format!("{add:?}"));
    let grouped = bin(BinOp::Mul, bin(BinOp::Add, Expr::Int(1), Expr::Int(2)), Expr::Int(3));
    assert_eq!(shown("(1 + 2) * 3;"), format!("{grouped:?}"));
    let cmp = bin(BinOp::Eq, bin(BinOp::Lt, Expr::Int(1), Expr::Int(2)), Expr::Bool(true));
    assert_eq!(shown("1 < 2 == true"), format!("{cmp:?}"));
}

#[test]
fn calls_fields_and_indexing_keep_their_parts_in_order() {
    let call = Expr::Call {
        func: Box::new(Expr::Ident("f".to_string())),
        args: vec![Expr::Int(1), bin(BinOp::Add, Expr::Int(2), Expr::Int(3))],
    };
    assert_eq!(shown("f(1, 2 + 3);"), format!("{call:?}"));
    let method = Expr::MethodCall {
        obj: Box::new(Expr::Field { obj: Box::new(Expr::Ident("a".to_string())), field: "b".to_string() }),
        method: "m".to_string(),
        args: vec![Expr::Ident("x".to_string())],
    };
    assert_eq!(shown("a.b.m(x)"), format!("{method:?}"));
    let index = bin(
        BinOp::Mul,
        Expr::Index { obj: Box::new(Expr::Ident("v".to_string())), index: Box::new(Expr::Int(0)) },
        Expr::Call { func: Box::new(Expr::Ident("g".to_string())), args: vec![] },
    );
    assert_eq!(shown("v[0] * g()"), format!("{index:?}"));
}
