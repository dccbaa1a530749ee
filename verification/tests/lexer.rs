use zenlang::lexer::Lexer;
use zenlang::token::TokenKind;

#[test]
fn test_empty_source() {
    let tokens = Lexer::new("").tokenize().unwrap();
    assert_eq!(tokens.len(), 1);
    assert_eq!(tokens[0].node.kind, TokenKind::Eof);
}

#[test]
fn test_keywords() {
    let tokens = Lexer::new("fn let mut if else while for loop return true false struct enum").tokenize().unwrap();
    let kinds: Vec<&str> = tokens
        .iter()
        .filter_map(|t| match &t.node.kind {
            TokenKind::Eof => None,
            _ => Some(t.node.lexeme.as_str()),
        })
        .collect();
    assert_eq!(
        kinds,
        vec!["fn", "let", "mut", "if", "else", "while", "for", "loop", "return", "true", "false", "struct", "enum"]
    );
}

#[test]
fn test_identifiers() {
    let tokens = Lexer::new("foo bar _baz my_var123").tokenize().unwrap();
    let kinds: Vec<&str> = tokens
        .iter()
        .filter_map(|t| match &t.node.kind {
            TokenKind::Ident(_) => Some(t.node.lexeme.as_str()),
            TokenKind::Eof => None,
            _ => None,
        })
        .collect();
    assert_eq!(kinds, vec!["foo", "bar", "_baz", "my_var123"]);
}

#[test]
fn test_numbers() {
    let tokens = Lexer::new("42 3.14 0xff 0o77 0b1010").tokenize().unwrap();
    let kinds: Vec<TokenKind> = tokens
        .iter()
        .filter_map(|t| match &t.node.kind {
            TokenKind::Eof => None,
            k => Some(k.clone()),
        })
        .collect();
    assert_eq!(kinds.len(), 5);
    assert_eq!(kinds[0], TokenKind::Int(42));
    match &kinds[1] {
        TokenKind::Float(text) => assert_eq!(text.parse::<f64>().unwrap(), 3.14),
        other => panic!("expected a float, got {:?}", other),
    }
    assert_eq!(kinds[2], TokenKind::Int(255));
    assert_eq!(kinds[3], TokenKind::Int(63));
    assert_eq!(kinds[4], TokenKind::Int(10));
}

#[test]
fn test_operators() {
    let tokens = Lexer::new("+ - * / % == != < > <= >= && || ! & | .. ..= -> => :: ; : , . # @ ? ^ ~ << >>")
        .tokenize()
        .unwrap();
    let expected: Vec<TokenKind> = vec![
        TokenKind::Plus, TokenKind::Minus, TokenKind::Star, TokenKind::Slash,
        TokenKind::Percent, TokenKind::EqEq, TokenKind::Ne, TokenKind::Lt,
        TokenKind::Gt, TokenKind::Le, TokenKind::Ge, TokenKind::AndAnd,
        TokenKind::OrOr, TokenKind::Bang, TokenKind::And, TokenKind::Or, TokenKind::DotDot, TokenKind::DotDotEq,
        TokenKind::Arrow, TokenKind::FatArrow, TokenKind::ColonColon,
        TokenKind::Semi, TokenKind::Colon, TokenKind::Comma, TokenKind::Dot,
        TokenKind::Hash, TokenKind::At, TokenKind::Question,
        TokenKind::Caret, TokenKind::Tilde, TokenKind::Shl, TokenKind::Shr,
    ];
    let kinds: Vec<TokenKind> = tokens
        .iter()
        .filter_map(|t| match &t.node.kind {
            TokenKind::Eof => None,
            k => Some(k.clone()),
        })
        .collect();
    assert_eq!(kinds, expected);
}

#[test]
fn test_strings() {
    let tokens = Lexer::new(r#""hello" "world\n" "\"quoted\"" "#).tokenize().unwrap();
    let expected: Vec<&str> = vec!["hello", "world\n", "\"quoted\""];
    let strings: Vec<&str> = tokens
        .iter()
        .filter_map(|t| match &t.node.kind {
            TokenKind::Str(s) => Some(s.as_str()),
            _ => None,
        })
        .collect();
    assert_eq!(strings, expected);
}

#[test]
fn test_comments() {
    let tokens = Lexer::new("// line comment\n42 /* block /* nested */ */ true").tokenize().unwrap();
    let kinds: Vec<&str> = tokens
        .iter()
        .filter_map(|t| match &t.node.kind {
            TokenKind::Eof => None,
            _ => Some(t.node.lexeme.as_str()),
        })
        .collect();
    assert_eq!(kinds, vec!["42", "true"]);
}

#[test]
fn test_grouping() {
    let tokens = Lexer::new("( ) { } [ ]").tokenize().unwrap();
    let expected: Vec<TokenKind> = vec![
        TokenKind::OpenParen, TokenKind::CloseParen,
        TokenKind::OpenBrace, TokenKind::CloseBrace,
        TokenKind::OpenBracket, TokenKind::CloseBracket,
    ];
    let kinds: Vec<TokenKind> = tokens
        .iter()
        .filter_map(|t| match &t.node.kind {
            TokenKind::Eof => None,
            k => Some(k.clone()),
        })
        .collect();
    assert_eq!(kinds, expected);
}

#[test]
fn test_ampersand_as_token() {
    let tokens = Lexer::new("& foo").tokenize().unwrap();
    let kinds: Vec<TokenKind> = tokens
        .iter()
        .filter_map(|t| match &t.node.kind {
            TokenKind::Eof => None,
            k => Some(k.clone()),
        })
        .collect();
    assert_eq!(kinds, vec![TokenKind::And, TokenKind::Ident("foo".into())]);
}

#[test]
fn test_unterminated_string() {
    let result = Lexer::new(r#""unterminated"#).tokenize();
    assert!(result.is_err());
}

#[test]
fn test_block_comment_unterminated() {
    let result = Lexer::new("/* unterminated").tokenize();
    assert!(result.is_err());
}

#[test]
fn comments_are_kept_on_request() {
    let tokens = Lexer::new("1 // note\n2").tokenize_with_comments().unwrap();
    let kinds: Vec<TokenKind> = tokens.iter().map(|t| t.node.kind.clone()).collect();
    assert_eq!(kinds, vec![TokenKind::Int(1), TokenKind::Comment, TokenKind::Int(2), TokenKind::Eof]);
}

#[test]
fn spans_are_byte_offsets() {
    let tokens = Lexer::new("é x").tokenize().unwrap();
    let x = tokens.iter().find(|t| t.node.kind == TokenKind::Ident("x".into())).unwrap();
    assert_eq!(x.span.0, 3);
    assert_eq!(x.span.1, 4);
}
