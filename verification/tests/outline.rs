use zenlang::ast::Program;
use zenlang::lexer::Lexer;
use zenlang::outline::{document_symbols, stmt_to_document_symbol, OutlineKind};
use zenlang::parser::Parser;

fn program(source: &str) -> Program {
    let tokens = Lexer::new(source).tokenize().unwrap();
    Parser::new(source, &tokens).parse().unwrap()
}

#[test]
fn outline_of_declarations() {
    let src = "fn add(a, b) { a + b }\nstruct P { x: f64, y: i64 }\nenum E { A, B(i64) }\ntrait T { fn area() -> f64; fn name(s: str) -> str; }\nlet z = 1;\nadd(1, 2);";
    let prog = program(src);
    let syms = document_symbols(&prog.stmts, src).unwrap();
    assert_eq!(syms.len(), 5);
    assert_eq!(syms[0].name, "add");
    assert_eq!(syms[0].kind, OutlineKind::Function);
    assert_eq!(syms[0].detail, Some("fn(a, b)".to_string()));
    assert_eq!(syms[0].range.start.line, 0);
    assert!(syms[0].children.is_none());
    assert_eq!(syms[1].kind, OutlineKind::Struct);
    let fields = syms[1].children.as_ref().unwrap();
    assert_eq!(fields.len(), 2);
    assert_eq!(fields[0].name, "x");
    assert_eq!(fields[0].detail, Some("float".to_string()));
    assert_eq!(fields[1].detail, Some("int".to_string()));
    assert_eq!(fields[1].kind, OutlineKind::Field);
    assert_eq!(syms[1].range.start.line, 1);
    let variants = syms[2].children.as_ref().unwrap();
    assert_eq!(variants.len(), 2);
    assert_eq!(variants[1].name, "B");
    assert_eq!(variants[1].kind, OutlineKind::EnumMember);
    assert_eq!(syms[3].kind, OutlineKind::Interface);
    let methods = syms[3].children.as_ref().unwrap();
    assert_eq!(methods.len(), 2);
    assert_eq!(methods[1].name, "name");
    assert_eq!(methods[1].detail, Some("fn(s)".to_string()));
    assert_eq!(syms[4].name, "z");
    assert_eq!(syms[4].kind, OutlineKind::Variable);
    assert_eq!(syms[4].range.start.line, 4);
    assert_eq!(syms[4].range.end.character, 10);
}

#[test]
fn outline_of_expressions_only_is_empty() {
    let src = "print(1);\nx + 2;";
    let prog = program(src);
    assert!(document_symbols(&prog.stmts, src).is_none());
    assert!(stmt_to_document_symbol(&prog.stmts[0], src).is_none());
}
