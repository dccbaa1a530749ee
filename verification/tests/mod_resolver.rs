use zenlang::ast::{Program, Stmt};
use zenlang::lexer::Lexer;
use zenlang::mod_resolver::{attach_module, next_module};
use zenlang::parser::Parser;

fn parse(source: &str) -> Program {
    let tokens = Lexer::new(source).tokenize().unwrap();
    Parser::new(source, &tokens).parse().unwrap()
}

#[test]
fn test_inline_mod_resolved() {
    let program = parse(
        r#"
            mod math {
                fn add(a: i64, b: i64) -> i64 { a + b }
            }
            use math::add;
            add(2, 3)
        "#,
    );
    // Inline modules have non-empty bodies: nothing is left to load.
    let loaded = vec!["test".to_string()];
    assert!(next_module(&program.stmts, &loaded).is_none());
    assert_eq!(program.stmts.len(), 3);
}

#[test]
fn an_empty_module_declaration_needs_its_file() {
    let program = parse("mod foo;");
    let next = next_module(&program.stmts, &vec!["test".to_string()]);
    assert_eq!(next, Some((vec![0], "foo".to_string())));
}

#[test]
fn modules_nested_in_inline_modules_are_found_in_order() {
    let program = parse("mod outer { let x = 1; mod inner; }\nmod other;");
    let mut loaded = vec!["main".to_string()];
    let first = next_module(&program.stmts, &loaded).unwrap();
    assert_eq!(first, (vec![0, 1], "inner".to_string()));
    loaded.push("inner".to_string());
    let second = next_module(&program.stmts, &loaded).unwrap();
    assert_eq!(second, (vec![1], "other".to_string()));
    loaded.push("other".to_string());
    assert!(next_module(&program.stmts, &loaded).is_none());
}

#[test]
fn attached_statements_replace_the_empty_body() {
    let program = parse("mod outer { mod inner; }");
    let loaded = vec!["main".to_string()];
    let (at, name) = next_module(&program.stmts, &loaded).unwrap();
    assert_eq!(name, "inner");
    let module = parse("fn f() -> i64 { 1 }");
    let stmts = attach_module(program.stmts, &at, module.stmts);
    match &stmts[0].node {
        Stmt::Mod { body, .. } => match &body[0].node {
            Stmt::Mod { name, body, .. } => {
                assert_eq!(name, "inner");
                assert_eq!(body.len(), 1);
                assert!(matches!(&body[0].node, Stmt::Fn { name, .. } if name == "f"));
            }
            other => panic!("unexpected {other:?}"),
        },
        other => panic!("unexpected {other:?}"),
    }
}

#[test]
fn a_loaded_name_is_not_loaded_again() {
    let program = parse("mod main;\nmod util;");
    let loaded = vec!["main".to_string()];
    assert_eq!(next_module(&program.stmts, &loaded), Some((vec![1], "util".to_string())));
}
