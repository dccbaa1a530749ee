use zenlang::ast::{BinOp, UnOp, Vis};
use zenlang::token::TokenKind;

#[test]
fn visibility() {
    assert!(Vis::Public.is_pub());
    assert!(!Vis::Private.is_pub());
}

#[test]
fn binary_operators_from_tokens() {
    assert_eq!(BinOp::from_token(&TokenKind::Plus), Some(BinOp::Add));
    assert_eq!(BinOp::from_token(&TokenKind::AndAnd), Some(BinOp::And));
    assert_eq!(BinOp::from_token(&TokenKind::And), Some(BinOp::BitAnd));
    assert_eq!(BinOp::from_token(&TokenKind::Eq), Some(BinOp::Assign));
    assert_eq!(BinOp::from_token(&TokenKind::Shr), Some(BinOp::Shr));
    assert_eq!(BinOp::from_token(&TokenKind::Bang), None);
    assert_eq!(BinOp::from_token(&TokenKind::PlusEq), None);
}

#[test]
fn unary_operators_from_tokens() {
    assert_eq!(UnOp::from_token(&TokenKind::Minus), Some(UnOp::Neg));
    assert_eq!(UnOp::from_token(&TokenKind::Bang), Some(UnOp::Not));
    assert_eq!(UnOp::from_token(&TokenKind::Tilde), Some(UnOp::BitNot));
    assert_eq!(UnOp::from_token(&TokenKind::Plus), None);
}
