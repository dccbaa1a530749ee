use zenlang::compiler::{build_line_offsets, offset_to_line};
use zenlang::lsp::{offset_to_position, position_to_offset, span_to_range, Position};
use zenlang::span::Span;

#[test]
fn line_offsets() {
    assert_eq!(build_line_offsets(""), vec![0]);
    assert_eq!(build_line_offsets("ab\ncd\n"), vec![0, 3, 6]);
    assert_eq!(build_line_offsets("é\nx"), vec![0, 3]);
}

#[test]
fn lines_of_offsets() {
    let t = build_line_offsets("ab\ncd\nef");
    assert_eq!(offset_to_line(&t, 0), 0);
    assert_eq!(offset_to_line(&t, 2), 0);
    assert_eq!(offset_to_line(&t, 3), 1);
    assert_eq!(offset_to_line(&t, 5), 1);
    assert_eq!(offset_to_line(&t, 6), 2);
    assert_eq!(offset_to_line(&t, 100), 2);
    assert_eq!(offset_to_line(&[], 4), 0);
    assert_eq!(offset_to_line(&[5, 9], 2), 0);
}

#[test]
fn positions_of_offsets() {
    let s = "ab\ncé\nz";
    assert_eq!(offset_to_position(s, 0), Position { line: 0, character: 0 });
    assert_eq!(offset_to_position(s, 2), Position { line: 0, character: 2 });
    assert_eq!(offset_to_position(s, 3), Position { line: 1, character: 0 });
    assert_eq!(offset_to_position(s, 6), Position { line: 1, character: 2 });
    assert_eq!(offset_to_position(s, 7), Position { line: 2, character: 0 });
    assert_eq!(offset_to_position(s, 99), Position { line: 2, character: 1 });
}

#[test]
fn offsets_of_positions() {
    let s = "ab\ncé\nz";
    assert_eq!(position_to_offset(s, Position { line: 1, character: 2 }), Some(6));
    assert_eq!(position_to_offset(s, Position { line: 2, character: 1 }), Some(8));
    assert_eq!(position_to_offset(s, Position { line: 0, character: 5 }), None);
    assert_eq!(position_to_offset(s, Position { line: 7, character: 0 }), None);
}

#[test]
fn position_roundtrip() {
    let s = "fn f() {\n  é = 1\n}\n";
    for (off, _) in s.char_indices() {
        let p = offset_to_position(s, off);
        assert_eq!(position_to_offset(s, p), Some(off));
    }
}

#[test]
fn range_of_span() {
    let r = span_to_range("ab\ncd", Span(1, 4));
    assert_eq!(r.start, Position { line: 0, character: 1 });
    assert_eq!(r.end, Position { line: 1, character: 1 });
}

use zenlang::ast::Type;
use zenlang::lsp::{semantic_tokens, token_type_index, SemanticKind, SemanticToken};
use zenlang::symbol::{FnSignature, SymKind, SymbolTable};

fn tok(dl: u32, ds: u32, len: u32, ty: u32) -> SemanticToken {
    SemanticToken { delta_line: dl, delta_start: ds, length: len, token_type: ty, token_modifiers_bitset: 0 }
}

#[test]
fn semantic_token_legend() {
    assert_eq!(token_type_index(SemanticKind::Keyword), 0);
    assert_eq!(token_type_index(SemanticKind::Operator), 6);
}

#[test]
fn semantic_tokens_are_relative() {
    let mut symbols = SymbolTable::new();
    symbols
        .define(
            "f",
            SymKind::Function(FnSignature { name: "f".to_string(), type_params: vec![], params: vec![], return_type: Some(Type::Unit) }),
        )
        .unwrap();
    let toks = semantic_tokens("let x = f(1);\n  \"s\" // note\n", &symbols).unwrap();
    assert_eq!(
        toks,
        vec![
            tok(0, 0, 3, 0),  // let
            tok(0, 4, 1, 3),  // x
            tok(0, 2, 1, 6),  // =
            tok(0, 2, 1, 4),  // f
            tok(0, 2, 1, 2),  // 1
            tok(0, 2, 1, 6),  // ;
            tok(1, 2, 3, 1),  // "s"
        ]
    );
    assert!(semantic_tokens("\"open", &symbols).is_none());
}

use zenlang::lsp::comment_before;

#[test]
fn comments_before_declarations() {
    let src = "let a = 1;\n// Adds one.\n  /* twice */\n\nfn add(x) { x + 1 }\n";
    let off = src.find("fn").unwrap();
    assert_eq!(comment_before(src, off), Some("// Adds one.\n/* twice */".to_string()));
    assert_eq!(comment_before(src, 0), None);
    let off2 = src.find("let").unwrap();
    assert_eq!(comment_before(src, off2), None);
    let src2 = "// only\nx";
    assert_eq!(comment_before(src2, 8), Some("// only".to_string()));
    // a code line between comment and target stops the search
    let src3 = "// far\nlet b = 2;\nfn g() {}";
    assert_eq!(comment_before(src3, src3.find("fn").unwrap()), None);
}

#[test]
fn offset_to_line_is_the_count_of_line_feed_bytes_before_the_offset() {
    for text in ["", "a", "é\nab\n\nc", "x\n\u{1F600}\ny\n"] {
        let table = build_line_offsets(text);
        for off in 0..text.len() + 3 {
            let end = off.min(text.len());
            let feeds = text.as_bytes()[..end].iter().filter(|b| **b == b'\n').count();
            assert_eq!(offset_to_line(&table, off), feeds, "text {text:?} offset {off}");
        }
    }
}
