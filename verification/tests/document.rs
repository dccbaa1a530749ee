use zenlang::compiler::disassemble;
use zenlang::definition::{find_definition_in_stmts, goto_definition, name_span_in_source};
use zenlang::document::{compile_document, compile_source, error_to_diagnostics, hover};
use zenlang::error::Error;
use zenlang::lsp::{Position, Range};
use zenlang::span::{SourceLocation, Span};

fn located(kind: &str, span: Span, msg: &str) -> Error {
    let location = SourceLocation { file: None, span, line: 1, column: 1 };
    let msg = msg.to_string();
    match kind {
        "parse" => Error::Parse { location, msg },
        "type" => Error::TypeError { location, msg },
        _ => Error::Resolve { location, msg },
    }
}

fn pos(line: u32, character: u32) -> Position {
    Position { line, character }
}

#[test]
fn located_error_gives_one_ranged_diagnostic() {
    let source = "let a = 1;\nlet b = c;";
    let ds = error_to_diagnostics(source, &located("resolve", Span(19, 20), "undefined name 'c'"));
    assert_eq!(ds.len(), 1);
    assert_eq!(ds[0].range, Range { start: pos(1, 8), end: pos(1, 9) });
    assert_eq!(ds[0].message, "undefined name 'c'");
    assert!(ds[0].from_zenlang);
}

#[test]
fn multiple_errors_give_one_diagnostic_each_in_order() {
    let source = "abc def";
    let err = Error::ParseMultiple {
        errors: vec![located("parse", Span(0, 3), "first"), located("type", Span(4, 7), "second")],
    };
    let ds = error_to_diagnostics(source, &err);
    let msgs: Vec<&str> = ds.iter().map(|d| d.message.as_str()).collect();
    assert_eq!(msgs, vec!["first", "second"]);
    assert_eq!(ds[1].range, Range { start: pos(0, 4), end: pos(0, 7) });
}

#[test]
fn runtime_error_is_at_the_start_without_source() {
    let err = Error::Runtime { msg: "boom".to_string(), stack_trace: Vec::new() };
    let ds = error_to_diagnostics("x", &err);
    assert_eq!(ds.len(), 1);
    assert_eq!(ds[0].range, Range { start: pos(0, 0), end: pos(0, 0) });
    assert!(!ds[0].from_zenlang);
}

#[test]
fn a_valid_document_compiles() {
    let st = compile_source("let x = 1;\nx + 2").unwrap();
    assert_eq!(st.source, "let x = 1;\nx + 2");
}

#[test]
fn a_type_error_becomes_a_diagnostic() {
    let ds = compile_source("let x: i64 = true;").err().unwrap();
    assert!(!ds.is_empty());
    assert!(ds.iter().all(|d| d.from_zenlang));
}

#[test]
fn compile_document_gives_bytecode() {
    let (_, fns, globals) = compile_document("fn f() { 1 }\nf()").unwrap();
    assert_eq!(fns[0].name, "__main__");
    assert_eq!(fns[1].name, "f");
    assert!(globals.contains(&"f".to_string()));
}

#[test]
fn hover_shows_the_name_and_the_comment_above_it() {
    let source = "// adds one\nfn inc(a: i64) -> i64 { a + 1 }\ninc(2)";
    let st = compile_source(source).unwrap();
    let text = hover(&st, pos(2, 1)).unwrap();
    assert!(text.starts_with("// adds one\n\n`inc`: "), "{text}");
    assert!(hover(&st, pos(2, 3)).is_none(), "the parenthesis is no identifier");
}

#[test]
fn goto_definition_finds_the_function_name() {
    let source = "fn foo() -> i64 { 0 }\nfoo()";
    let st = compile_source(source).unwrap();
    let r = goto_definition(&st, pos(1, 1)).unwrap();
    assert_eq!(r, Range { start: pos(0, 3), end: pos(0, 6) });
}

#[test]
fn find_definition_searches_nested_statements() {
    let source = "fn outer() -> i64 {\n    let inner = 5;\n    inner\n}";
    let st = compile_source(source).unwrap();
    let span = find_definition_in_stmts(&st.program.stmts, source, "inner").unwrap();
    assert_eq!(&source[span.0..span.1], "inner");
}

#[test]
fn name_span_falls_back_to_the_hint() {
    let source = "let a = 1;";
    assert_eq!(name_span_in_source(source, Span(0, 10), "zz"), Span(0, 2));
    assert_eq!(name_span_in_source(source, Span(0, 10), "a"), Span(4, 5));
}

#[test]
fn disassembly_lists_each_instruction() {
    let (_, fns, _) = compile_document("1 + 2").unwrap();
    let lines = disassemble(&fns[0].chunk, &fns[0].name);
    assert_eq!(
        lines,
        vec![
            "== __main__ ==",
            "0000     0  LoadConst     0  '1'",
            "0003     0  LoadConst     0  '1'",
            "0006     0  Add",
            "0007     0  Return",
        ]
    );
}

#[test]
fn literal_programs_compile_through_every_stage() {
    assert!(compile_source("1 + 2 * 3; -(4 - 5); !true; 1 < 2 == true").is_ok());
    assert!(compile_source("").is_ok());
}

#[test]
fn salvage_keeps_the_parsed_program_when_checking_fails() {
    let st = zenlang::document::salvage_state("let x: bool = 1; x;");
    assert_eq!(st.source, "let x: bool = 1; x;");
    assert_eq!(st.program.stmts.len(), 2);
    assert!(st.symbols.lookup("x").is_some());
    let broken = zenlang::document::salvage_state("let = ;");
    assert_eq!(broken.program.stmts.len(), 0);
}

#[test]
fn range_edits_replace_the_characters_between_positions() {
    let p = |line, character| Position { line, character };
    assert_eq!(zenlang::lsp::apply_change("let x = 1;\nx;", p(0, 8), p(0, 9), "42"), Some("let x = 42;\nx;".to_string()));
    assert_eq!(zenlang::lsp::apply_change("ab\ncd", p(0, 1), p(1, 1), ""), Some("ad".to_string()));
    assert_eq!(zenlang::lsp::apply_change("é", p(0, 1), p(0, 1), "x"), Some("éx".to_string()));
    assert_eq!(zenlang::lsp::apply_change("ab", p(0, 2), p(0, 1), "x"), None);
    assert_eq!(zenlang::lsp::apply_change("ab", p(3, 0), p(3, 0), "x"), None);
}

#[test]
fn operator_programs_fail_exactly_on_type_faults() {
    assert!(compile_document("1 + 2.5; -3; 1 < 2 == true;").is_ok());
    match compile_document("1 + true; !1;") {
        Err(Error::ParseMultiple { errors }) => {
            assert_eq!(errors.len(), 2);
            assert!(errors.iter().all(|e| matches!(e, Error::TypeError { .. })));
        },
        Err(other) => panic!("unexpected error {other:?}"),
        Ok(_) => panic!("expected type errors"),
    }
}
