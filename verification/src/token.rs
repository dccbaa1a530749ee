//! Tokens of Zen source text: their kinds, their text, and the keyword table.
use vstd::prelude::*;

verus! {

/// The kind of a lexical token of Zen source text.
#[derive(Debug, Clone, PartialEq)]
pub enum TokenKind {
    OpenParen,
    CloseParen,
    OpenBrace,
    CloseBrace,
    OpenBracket,
    CloseBracket,
    Comma,
    Semi,
    Colon,
    ColonColon,
    Dot,
    DotDot,
    DotDotEq,
    Hash,
    At,
    Question,
    Plus,
    PlusEq,
    Minus,
    MinusEq,
    Arrow,
    Star,
    StarEq,
    Slash,
    SlashEq,
    Percent,
    PercentEq,
    Bang,
    Ne,
    Eq,
    EqEq,
    FatArrow,
    Lt,
    Le,
    Shl,
    ShlEq,
    Gt,
    Ge,
    Shr,
    ShrEq,
    And,
    AndAnd,
    AndEq,
    Or,
    OrOr,
    OrEq,
    Caret,
    CaretEq,
    Tilde,
    Int(i64),
    Float(String),
    Str(String),
    Bool(bool),
    Ident(String),
    Fn,
    Let,
    Mut,
    If,
    Else,
    While,
    For,
    In,
    Loop,
    Break,
    Continue,
    Return,
    Match,
    Struct,
    Enum,
    Impl,
    Trait,
    Self_,
    Pub,
    Use,
    Mod,
    Const,
    Type,
    Yield,
    Opaque,
    Underscore,
    Comment,
    Eof,
}

/// The mathematical counterpart of [`TokenKind`]: text payloads are character sequences.
pub ghost enum TokenKindView {
    OpenParen,
    CloseParen,
    OpenBrace,
    CloseBrace,
    OpenBracket,
    CloseBracket,
    Comma,
    Semi,
    Colon,
    ColonColon,
    Dot,
    DotDot,
    DotDotEq,
    Hash,
    At,
    Question,
    Plus,
    PlusEq,
    Minus,
    MinusEq,
    Arrow,
    Star,
    StarEq,
    Slash,
    SlashEq,
    Percent,
    PercentEq,
    Bang,
    Ne,
    Eq,
    EqEq,
    FatArrow,
    Lt,
    Le,
    Shl,
    ShlEq,
    Gt,
    Ge,
    Shr,
    ShrEq,
    And,
    AndAnd,
    AndEq,
    Or,
    OrOr,
    OrEq,
    Caret,
    CaretEq,
    Tilde,
    Int(i64),
    Float(Seq<char>),
    Str(Seq<char>),
    Bool(bool),
    Ident(Seq<char>),
    Fn,
    Let,
    Mut,
    If,
    Else,
    While,
    For,
    In,
    Loop,
    Break,
    Continue,
    Return,
    Match,
    Struct,
    Enum,
    Impl,
    Trait,
    Self_,
    Pub,
    Use,
    Mod,
    Const,
    Type,
    Yield,
    Opaque,
    Underscore,
    Comment,
    Eof,
}

impl View for TokenKind {
    type V = TokenKindView;

    open spec fn view(&self) -> TokenKindView {
        match self {
            TokenKind::OpenParen => TokenKindView::OpenParen,
            TokenKind::CloseParen => TokenKindView::CloseParen,
            TokenKind::OpenBrace => TokenKindView::OpenBrace,
            TokenKind::CloseBrace => TokenKindView::CloseBrace,
            TokenKind::OpenBracket => TokenKindView::OpenBracket,
            TokenKind::CloseBracket => TokenKindView::CloseBracket,
            TokenKind::Comma => TokenKindView::Comma,
            TokenKind::Semi => TokenKindView::Semi,
            TokenKind::Colon => TokenKindView::Colon,
            TokenKind::ColonColon => TokenKindView::ColonColon,
            TokenKind::Dot => TokenKindView::Dot,
            TokenKind::DotDot => TokenKindView::DotDot,
            TokenKind::DotDotEq => TokenKindView::DotDotEq,
            TokenKind::Hash => TokenKindView::Hash,
            TokenKind::At => TokenKindView::At,
            TokenKind::Question => TokenKindView::Question,
            TokenKind::Plus => TokenKindView::Plus,
            TokenKind::PlusEq => TokenKindView::PlusEq,
            TokenKind::Minus => TokenKindView::Minus,
            TokenKind::MinusEq => TokenKindView::MinusEq,
            TokenKind::Arrow => TokenKindView::Arrow,
            TokenKind::Star => TokenKindView::Star,
            TokenKind::StarEq => TokenKindView::StarEq,
            TokenKind::Slash => TokenKindView::Slash,
            TokenKind::SlashEq => TokenKindView::SlashEq,
            TokenKind::Percent => TokenKindView::Percent,
            TokenKind::PercentEq => TokenKindView::PercentEq,
            TokenKind::Bang => TokenKindView::Bang,
            TokenKind::Ne => TokenKindView::Ne,
            TokenKind::Eq => TokenKindView::Eq,
            TokenKind::EqEq => TokenKindView::EqEq,
            TokenKind::FatArrow => TokenKindView::FatArrow,
            TokenKind::Lt => TokenKindView::Lt,
            TokenKind::Le => TokenKindView::Le,
            TokenKind::Shl => TokenKindView::Shl,
            TokenKind::ShlEq => TokenKindView::ShlEq,
            TokenKind::Gt => TokenKindView::Gt,
            TokenKind::Ge => TokenKindView::Ge,
            TokenKind::Shr => TokenKindView::Shr,
            TokenKind::ShrEq => TokenKindView::ShrEq,
            TokenKind::And => TokenKindView::And,
            TokenKind::AndAnd => TokenKindView::AndAnd,
            TokenKind::AndEq => TokenKindView::AndEq,
            TokenKind::Or => TokenKindView::Or,
            TokenKind::OrOr => TokenKindView::OrOr,
            TokenKind::OrEq => TokenKindView::OrEq,
            TokenKind::Caret => TokenKindView::Caret,
            TokenKind::CaretEq => TokenKindView::CaretEq,
            TokenKind::Tilde => TokenKindView::Tilde,
            TokenKind::Fn => TokenKindView::Fn,
            TokenKind::Let => TokenKindView::Let,
            TokenKind::Mut => TokenKindView::Mut,
            TokenKind::If => TokenKindView::If,
            TokenKind::Else => TokenKindView::Else,
            TokenKind::While => TokenKindView::While,
            TokenKind::For => TokenKindView::For,
            TokenKind::In => TokenKindView::In,
            TokenKind::Loop => TokenKindView::Loop,
            TokenKind::Break => TokenKindView::Break,
            TokenKind::Continue => TokenKindView::Continue,
            TokenKind::Return => TokenKindView::Return,
            TokenKind::Match => TokenKindView::Match,
            TokenKind::Struct => TokenKindView::Struct,
            TokenKind::Enum => TokenKindView::Enum,
            TokenKind::Impl => TokenKindView::Impl,
            TokenKind::Trait => TokenKindView::Trait,
            TokenKind::Self_ => TokenKindView::Self_,
            TokenKind::Pub => TokenKindView::Pub,
            TokenKind::Use => TokenKindView::Use,
            TokenKind::Mod => TokenKindView::Mod,
            TokenKind::Const => TokenKindView::Const,
            TokenKind::Type => TokenKindView::Type,
            TokenKind::Yield => TokenKindView::Yield,
            TokenKind::Opaque => TokenKindView::Opaque,
            TokenKind::Underscore => TokenKindView::Underscore,
            TokenKind::Comment => TokenKindView::Comment,
            TokenKind::Eof => TokenKindView::Eof,
            TokenKind::Int(x) => TokenKindView::Int(*x),
            TokenKind::Float(x) => TokenKindView::Float(x@),
            TokenKind::Str(x) => TokenKindView::Str(x@),
            TokenKind::Bool(x) => TokenKindView::Bool(*x),
            TokenKind::Ident(x) => TokenKindView::Ident(x@),
        }
    }
}

impl TokenKind {
    /// A copy of this kind, with the same view.
    pub fn duplicate(&self) -> (res: TokenKind)
        ensures
            res@ == self@,
    {
        match self {
            TokenKind::OpenParen => TokenKind::OpenParen,
            TokenKind::CloseParen => TokenKind::CloseParen,
            TokenKind::OpenBrace => TokenKind::OpenBrace,
            TokenKind::CloseBrace => TokenKind::CloseBrace,
            TokenKind::OpenBracket => TokenKind::OpenBracket,
            TokenKind::CloseBracket => TokenKind::CloseBracket,
            TokenKind::Comma => TokenKind::Comma,
            TokenKind::Semi => TokenKind::Semi,
            TokenKind::Colon => TokenKind::Colon,
            TokenKind::ColonColon => TokenKind::ColonColon,
            TokenKind::Dot => TokenKind::Dot,
            TokenKind::DotDot => TokenKind::DotDot,
            TokenKind::DotDotEq => TokenKind::DotDotEq,
            TokenKind::Hash => TokenKind::Hash,
            TokenKind::At => TokenKind::At,
            TokenKind::Question => TokenKind::Question,
            TokenKind::Plus => TokenKind::Plus,
            TokenKind::PlusEq => TokenKind::PlusEq,
            TokenKind::Minus => TokenKind::Minus,
            TokenKind::MinusEq => TokenKind::MinusEq,
            TokenKind::Arrow => TokenKind::Arrow,
            TokenKind::Star => TokenKind::Star,
            TokenKind::StarEq => TokenKind::StarEq,
            TokenKind::Slash => TokenKind::Slash,
            TokenKind::SlashEq => TokenKind::SlashEq,
            TokenKind::Percent => TokenKind::Percent,
            TokenKind::PercentEq => TokenKind::PercentEq,
            TokenKind::Bang => TokenKind::Bang,
            TokenKind::Ne => TokenKind::Ne,
            TokenKind::Eq => TokenKind::Eq,
            TokenKind::EqEq => TokenKind::EqEq,
            TokenKind::FatArrow => TokenKind::FatArrow,
            TokenKind::Lt => TokenKind::Lt,
            TokenKind::Le => TokenKind::Le,
            TokenKind::Shl => TokenKind::Shl,
            TokenKind::ShlEq => TokenKind::ShlEq,
            TokenKind::Gt => TokenKind::Gt,
            TokenKind::Ge => TokenKind::Ge,
            TokenKind::Shr => TokenKind::Shr,
            TokenKind::ShrEq => TokenKind::ShrEq,
            TokenKind::And => TokenKind::And,
            TokenKind::AndAnd => TokenKind::AndAnd,
            TokenKind::AndEq => TokenKind::AndEq,
            TokenKind::Or => TokenKind::Or,
            TokenKind::OrOr => TokenKind::OrOr,
            TokenKind::OrEq => TokenKind::OrEq,
            TokenKind::Caret => TokenKind::Caret,
            TokenKind::CaretEq => TokenKind::CaretEq,
            TokenKind::Tilde => TokenKind::Tilde,
            TokenKind::Fn => TokenKind::Fn,
            TokenKind::Let => TokenKind::Let,
            TokenKind::Mut => TokenKind::Mut,
            TokenKind::If => TokenKind::If,
            TokenKind::Else => TokenKind::Else,
            TokenKind::While => TokenKind::While,
            TokenKind::For => TokenKind::For,
            TokenKind::In => TokenKind::In,
            TokenKind::Loop => TokenKind::Loop,
            TokenKind::Break => TokenKind::Break,
            TokenKind::Continue => TokenKind::Continue,
            TokenKind::Return => TokenKind::Return,
            TokenKind::Match => TokenKind::Match,
            TokenKind::Struct => TokenKind::Struct,
            TokenKind::Enum => TokenKind::Enum,
            TokenKind::Impl => TokenKind::Impl,
            TokenKind::Trait => TokenKind::Trait,
            TokenKind::Self_ => TokenKind::Self_,
            TokenKind::Pub => TokenKind::Pub,
            TokenKind::Use => TokenKind::Use,
            TokenKind::Mod => TokenKind::Mod,
            TokenKind::Const => TokenKind::Const,
            TokenKind::Type => TokenKind::Type,
            TokenKind::Yield => TokenKind::Yield,
            TokenKind::Opaque => TokenKind::Opaque,
            TokenKind::Underscore => TokenKind::Underscore,
            TokenKind::Comment => TokenKind::Comment,
            TokenKind::Eof => TokenKind::Eof,
            TokenKind::Int(x) => TokenKind::Int(*x),
            TokenKind::Float(x) => TokenKind::Float(x.clone()),
            TokenKind::Str(x) => TokenKind::Str(x.clone()),
            TokenKind::Bool(x) => TokenKind::Bool(*x),
            TokenKind::Ident(x) => TokenKind::Ident(x.clone()),
        }
    }
}

/// A token: its kind and the exact source text it was read from.
#[derive(Debug, Clone, PartialEq)]
pub struct Token {
    pub kind: TokenKind,
    pub lexeme: String,
}

impl Token {
    pub fn new(kind: TokenKind, lexeme: String) -> (res: Token)
        ensures
            res.kind == kind,
            res.lexeme == lexeme,
    {
        Token { kind, lexeme }
    }
}

/// The keyword spelled by `word`, if any.
pub open spec fn keyword_of(word: Seq<char>) -> Option<TokenKindView> {
    if word =~= seq!['f', 'n'] {
        Some(TokenKindView::Fn)
    } else if word =~= seq!['l', 'e', 't'] {
        Some(TokenKindView::Let)
    } else if word =~= seq!['m', 'u', 't'] {
        Some(TokenKindView::Mut)
    } else if word =~= seq!['i', 'f'] {
        Some(TokenKindView::If)
    } else if word =~= seq!['e', 'l', 's', 'e'] {
        Some(TokenKindView::Else)
    } else if word =~= seq!['w', 'h', 'i', 'l', 'e'] {
        Some(TokenKindView::While)
    } else if word =~= seq!['f', 'o', 'r'] {
        Some(TokenKindView::For)
    } else if word =~= seq!['i', 'n'] {
        Some(TokenKindView::In)
    } else if word =~= seq!['l', 'o', 'o', 'p'] {
        Some(TokenKindView::Loop)
    } else if word =~= seq!['b', 'r', 'e', 'a', 'k'] {
        Some(TokenKindView::Break)
    } else if word =~= seq!['c', 'o', 'n', 't', 'i', 'n', 'u', 'e'] {
        Some(TokenKindView::Continue)
    } else if word =~= seq!['r', 'e', 't', 'u', 'r', 'n'] {
        Some(TokenKindView::Return)
    } else if word =~= seq!['m', 'a', 't', 'c', 'h'] {
        Some(TokenKindView::Match)
    } else if word =~= seq!['s', 't', 'r', 'u', 'c', 't'] {
        Some(TokenKindView::Struct)
    } else if word =~= seq!['e', 'n', 'u', 'm'] {
        Some(TokenKindView::Enum)
    } else if word =~= seq!['i', 'm', 'p', 'l'] {
        Some(TokenKindView::Impl)
    } else if word =~= seq!['t', 'r', 'a', 'i', 't'] {
        Some(TokenKindView::Trait)
    } else if word =~= seq!['s', 'e', 'l', 'f'] {
        Some(TokenKindView::Self_)
    } else if word =~= seq!['p', 'u', 'b'] {
        Some(TokenKindView::Pub)
    } else if word =~= seq!['u', 's', 'e'] {
        Some(TokenKindView::Use)
    } else if word =~= seq!['m', 'o', 'd'] {
        Some(TokenKindView::Mod)
    } else if word =~= seq!['c', 'o', 'n', 's', 't'] {
        Some(TokenKindView::Const)
    } else if word =~= seq!['t', 'y', 'p', 'e'] {
        Some(TokenKindView::Type)
    } else if word =~= seq!['y', 'i', 'e', 'l', 'd'] {
        Some(TokenKindView::Yield)
    } else if word =~= seq!['o', 'p', 'a', 'q', 'u', 'e'] {
        Some(TokenKindView::Opaque)
    } else if word =~= seq!['_'] {
        Some(TokenKindView::Underscore)
    } else if word =~= seq!['t', 'r', 'u', 'e'] {
        Some(TokenKindView::Bool(true))
    } else if word =~= seq!['f', 'a', 'l', 's', 'e'] {
        Some(TokenKindView::Bool(false))
    } else {
        None
    }
}

/// Classify `word` as a keyword, returning its token kind, or `None` for a plain identifier.
pub fn match_keyword(word: &Vec<char>) -> (res: Option<TokenKind>)
    ensures
        match keyword_of(word@) {
            Some(k) => res matches Some(r) && r@ == k,
            None => res is None,
        },
{
    if word.len() == 2 && word[0] == 'f' && word[1] == 'n' {
        proof { assert(word@ =~= seq!['f', 'n']); }
        Some(TokenKind::Fn)
    } else if word.len() == 3 && word[0] == 'l' && word[1] == 'e' && word[2] == 't' {
        proof { assert(word@ =~= seq!['l', 'e', 't']); }
        Some(TokenKind::Let)
    } else if word.len() == 3 && word[0] == 'm' && word[1] == 'u' && word[2] == 't' {
        proof { assert(word@ =~= seq!['m', 'u', 't']); }
        Some(TokenKind::Mut)
    } else if word.len() == 2 && word[0] == 'i' && word[1] == 'f' {
        proof { assert(word@ =~= seq!['i', 'f']); }
        Some(TokenKind::If)
    } else if word.len() == 4 && word[0] == 'e' && word[1] == 'l' && word[2] == 's' && word[3] == 'e' {
        proof { assert(word@ =~= seq!['e', 'l', 's', 'e']); }
        Some(TokenKind::Else)
    } else if word.len() == 5 && word[0] == 'w' && word[1] == 'h' && word[2] == 'i' && word[3] == 'l' && word[4] == 'e' {
        proof { assert(word@ =~= seq!['w', 'h', 'i', 'l', 'e']); }
        Some(TokenKind::While)
    } else if word.len() == 3 && word[0] == 'f' && word[1] == 'o' && word[2] == 'r' {
        proof { assert(word@ =~= seq!['f', 'o', 'r']); }
        Some(TokenKind::For)
    } else if word.len() == 2 && word[0] == 'i' && word[1] == 'n' {
        proof { assert(word@ =~= seq!['i', 'n']); }
        Some(TokenKind::In)
    } else if word.len() == 4 && word[0] == 'l' && word[1] == 'o' && word[2] == 'o' && word[3] == 'p' {
        proof { assert(word@ =~= seq!['l', 'o', 'o', 'p']); }
        Some(TokenKind::Loop)
    } else if word.len() == 5 && word[0] == 'b' && word[1] == 'r' && word[2] == 'e' && word[3] == 'a' && word[4] == 'k' {
        proof { assert(word@ =~= seq!['b', 'r', 'e', 'a', 'k']); }
        Some(TokenKind::Break)
    } else if word.len() == 8 && word[0] == 'c' && word[1] == 'o' && word[2] == 'n' && word[3] == 't' && word[4] == 'i' && word[5] == 'n' && word[6] == 'u' && word[7] == 'e' {
        proof { assert(word@ =~= seq!['c', 'o', 'n', 't', 'i', 'n', 'u', 'e']); }
        Some(TokenKind::Continue)
    } else if word.len() == 6 && word[0] == 'r' && word[1] == 'e' && word[2] == 't' && word[3] == 'u' && word[4] == 'r' && word[5] == 'n' {
        proof { assert(word@ =~= seq!['r', 'e', 't', 'u', 'r', 'n']); }
        Some(TokenKind::Return)
    } else if word.len() == 5 && word[0] == 'm' && word[1] == 'a' && word[2] == 't' && word[3] == 'c' && word[4] == 'h' {
        proof { assert(word@ =~= seq!['m', 'a', 't', 'c', 'h']); }
        Some(TokenKind::Match)
    } else if word.len() == 6 && word[0] == 's' && word[1] == 't' && word[2] == 'r' && word[3] == 'u' && word[4] == 'c' && word[5] == 't' {
        proof { assert(word@ =~= seq!['s', 't', 'r', 'u', 'c', 't']); }
        Some(TokenKind::Struct)
    } else if word.len() == 4 && word[0] == 'e' && word[1] == 'n' && word[2] == 'u' && word[3] == 'm' {
        proof { assert(word@ =~= seq!['e', 'n', 'u', 'm']); }
        Some(TokenKind::Enum)
    } else if word.len() == 4 && word[0] == 'i' && word[1] == 'm' && word[2] == 'p' && word[3] == 'l' {
        proof { assert(word@ =~= seq!['i', 'm', 'p', 'l']); }
        Some(TokenKind::Impl)
    } else if word.len() == 5 && word[0] == 't' && word[1] == 'r' && word[2] == 'a' && word[3] == 'i' && word[4] == 't' {
        proof { assert(word@ =~= seq!['t', 'r', 'a', 'i', 't']); }
        Some(TokenKind::Trait)
    } else if word.len() == 4 && word[0] == 's' && word[1] == 'e' && word[2] == 'l' && word[3] == 'f' {
        proof { assert(word@ =~= seq!['s', 'e', 'l', 'f']); }
        Some(TokenKind::Self_)
    } else if word.len() == 3 && word[0] == 'p' && word[1] == 'u' && word[2] == 'b' {
        proof { assert(word@ =~= seq!['p', 'u', 'b']); }
        Some(TokenKind::Pub)
    } else if word.len() == 3 && word[0] == 'u' && word[1] == 's' && word[2] == 'e' {
        proof { assert(word@ =~= seq!['u', 's', 'e']); }
        Some(TokenKind::Use)
    } else if word.len() == 3 && word[0] == 'm' && word[1] == 'o' && word[2] == 'd' {
        proof { assert(word@ =~= seq!['m', 'o', 'd']); }
        Some(TokenKind::Mod)
    } else if word.len() == 5 && word[0] == 'c' && word[1] == 'o' && word[2] == 'n' && word[3] == 's' && word[4] == 't' {
        proof { assert(word@ =~= seq!['c', 'o', 'n', 's', 't']); }
        Some(TokenKind::Const)
    } else if word.len() == 4 && word[0] == 't' && word[1] == 'y' && word[2] == 'p' && word[3] == 'e' {
        proof { assert(word@ =~= seq!['t', 'y', 'p', 'e']); }
        Some(TokenKind::Type)
    } else if word.len() == 5 && word[0] == 'y' && word[1] == 'i' && word[2] == 'e' && word[3] == 'l' && word[4] == 'd' {
        proof { assert(word@ =~= seq!['y', 'i', 'e', 'l', 'd']); }
        Some(TokenKind::Yield)
    } else if word.len() == 6 && word[0] == 'o' && word[1] == 'p' && word[2] == 'a' && word[3] == 'q' && word[4] == 'u' && word[5] == 'e' {
        proof { assert(word@ =~= seq!['o', 'p', 'a', 'q', 'u', 'e']); }
        Some(TokenKind::Opaque)
    } else if word.len() == 1 && word[0] == '_' {
        proof { assert(word@ =~= seq!['_']); }
        Some(TokenKind::Underscore)
    } else if word.len() == 4 && word[0] == 't' && word[1] == 'r' && word[2] == 'u' && word[3] == 'e' {
        proof { assert(word@ =~= seq!['t', 'r', 'u', 'e']); }
        Some(TokenKind::Bool(true))
    } else if word.len() == 5 && word[0] == 'f' && word[1] == 'a' && word[2] == 'l' && word[3] == 's' && word[4] == 'e' {
        proof { assert(word@ =~= seq!['f', 'a', 'l', 's', 'e']); }
        Some(TokenKind::Bool(false))
    } else {
        None
    }
}

/// Whether two token kinds are the same kind with the same payload.
/// The position of a token kind in the list of kinds; payloads are ignored.
pub open spec fn kind_tag(k: TokenKindView) -> int {
    match k {
        TokenKindView::OpenParen => 0,
        TokenKindView::CloseParen => 1,
        TokenKindView::OpenBrace => 2,
        TokenKindView::CloseBrace => 3,
        TokenKindView::OpenBracket => 4,
        TokenKindView::CloseBracket => 5,
        TokenKindView::Comma => 6,
        TokenKindView::Semi => 7,
        TokenKindView::Colon => 8,
        TokenKindView::ColonColon => 9,
        TokenKindView::Dot => 10,
        TokenKindView::DotDot => 11,
        TokenKindView::DotDotEq => 12,
        TokenKindView::Hash => 13,
        TokenKindView::At => 14,
        TokenKindView::Question => 15,
        TokenKindView::Plus => 16,
        TokenKindView::PlusEq => 17,
        TokenKindView::Minus => 18,
        TokenKindView::MinusEq => 19,
        TokenKindView::Arrow => 20,
        TokenKindView::Star => 21,
        TokenKindView::StarEq => 22,
        TokenKindView::Slash => 23,
        TokenKindView::SlashEq => 24,
        TokenKindView::Percent => 25,
        TokenKindView::PercentEq => 26,
        TokenKindView::Bang => 27,
        TokenKindView::Ne => 28,
        TokenKindView::Eq => 29,
        TokenKindView::EqEq => 30,
        TokenKindView::FatArrow => 31,
        TokenKindView::Lt => 32,
        TokenKindView::Le => 33,
        TokenKindView::Shl => 34,
        TokenKindView::ShlEq => 35,
        TokenKindView::Gt => 36,
        TokenKindView::Ge => 37,
        TokenKindView::Shr => 38,
        TokenKindView::ShrEq => 39,
        TokenKindView::And => 40,
        TokenKindView::AndAnd => 41,
        TokenKindView::AndEq => 42,
        TokenKindView::Or => 43,
        TokenKindView::OrOr => 44,
        TokenKindView::OrEq => 45,
        TokenKindView::Caret => 46,
        TokenKindView::CaretEq => 47,
        TokenKindView::Tilde => 48,
        TokenKindView::Int(_) => 49,
        TokenKindView::Float(_) => 50,
        TokenKindView::Str(_) => 51,
        TokenKindView::Bool(_) => 52,
        TokenKindView::Ident(_) => 53,
        TokenKindView::Fn => 54,
        TokenKindView::Let => 55,
        TokenKindView::Mut => 56,
        TokenKindView::If => 57,
        TokenKindView::Else => 58,
        TokenKindView::While => 59,
        TokenKindView::For => 60,
        TokenKindView::In => 61,
        TokenKindView::Loop => 62,
        TokenKindView::Break => 63,
        TokenKindView::Continue => 64,
        TokenKindView::Return => 65,
        TokenKindView::Match => 66,
        TokenKindView::Struct => 67,
        TokenKindView::Enum => 68,
        TokenKindView::Impl => 69,
        TokenKindView::Trait => 70,
        TokenKindView::Self_ => 71,
        TokenKindView::Pub => 72,
        TokenKindView::Use => 73,
        TokenKindView::Mod => 74,
        TokenKindView::Const => 75,
        TokenKindView::Type => 76,
        TokenKindView::Yield => 77,
        TokenKindView::Opaque => 78,
        TokenKindView::Underscore => 79,
        TokenKindView::Comment => 80,
        TokenKindView::Eof => 81,
    }
}

/// The kind of a token, payloads ignored, as a number.
pub fn tag(k: &TokenKind) -> (t: u8)
    ensures
        t == kind_tag(k@),
{
    match k {
        TokenKind::OpenParen => 0,
        TokenKind::CloseParen => 1,
        TokenKind::OpenBrace => 2,
        TokenKind::CloseBrace => 3,
        TokenKind::OpenBracket => 4,
        TokenKind::CloseBracket => 5,
        TokenKind::Comma => 6,
        TokenKind::Semi => 7,
        TokenKind::Colon => 8,
        TokenKind::ColonColon => 9,
        TokenKind::Dot => 10,
        TokenKind::DotDot => 11,
        TokenKind::DotDotEq => 12,
        TokenKind::Hash => 13,
        TokenKind::At => 14,
        TokenKind::Question => 15,
        TokenKind::Plus => 16,
        TokenKind::PlusEq => 17,
        TokenKind::Minus => 18,
        TokenKind::MinusEq => 19,
        TokenKind::Arrow => 20,
        TokenKind::Star => 21,
        TokenKind::StarEq => 22,
        TokenKind::Slash => 23,
        TokenKind::SlashEq => 24,
        TokenKind::Percent => 25,
        TokenKind::PercentEq => 26,
        TokenKind::Bang => 27,
        TokenKind::Ne => 28,
        TokenKind::Eq => 29,
        TokenKind::EqEq => 30,
        TokenKind::FatArrow => 31,
        TokenKind::Lt => 32,
        TokenKind::Le => 33,
        TokenKind::Shl => 34,
        TokenKind::ShlEq => 35,
        TokenKind::Gt => 36,
        TokenKind::Ge => 37,
        TokenKind::Shr => 38,
        TokenKind::ShrEq => 39,
        TokenKind::And => 40,
        TokenKind::AndAnd => 41,
        TokenKind::AndEq => 42,
        TokenKind::Or => 43,
        TokenKind::OrOr => 44,
        TokenKind::OrEq => 45,
        TokenKind::Caret => 46,
        TokenKind::CaretEq => 47,
        TokenKind::Tilde => 48,
        TokenKind::Int(_) => 49,
        TokenKind::Float(_) => 50,
        TokenKind::Str(_) => 51,
        TokenKind::Bool(_) => 52,
        TokenKind::Ident(_) => 53,
        TokenKind::Fn => 54,
        TokenKind::Let => 55,
        TokenKind::Mut => 56,
        TokenKind::If => 57,
        TokenKind::Else => 58,
        TokenKind::While => 59,
        TokenKind::For => 60,
        TokenKind::In => 61,
        TokenKind::Loop => 62,
        TokenKind::Break => 63,
        TokenKind::Continue => 64,
        TokenKind::Return => 65,
        TokenKind::Match => 66,
        TokenKind::Struct => 67,
        TokenKind::Enum => 68,
        TokenKind::Impl => 69,
        TokenKind::Trait => 70,
        TokenKind::Self_ => 71,
        TokenKind::Pub => 72,
        TokenKind::Use => 73,
        TokenKind::Mod => 74,
        TokenKind::Const => 75,
        TokenKind::Type => 76,
        TokenKind::Yield => 77,
        TokenKind::Opaque => 78,
        TokenKind::Underscore => 79,
        TokenKind::Comment => 80,
        TokenKind::Eof => 81,
    }
}

/// How a token kind is named in messages: its spelling for punctuation and
/// keywords, a word for the others.
pub open spec fn spelling_of(k: TokenKindView) -> Seq<char> {
    match k {
        TokenKindView::OpenParen => "("@,
        TokenKindView::CloseParen => ")"@,
        TokenKindView::OpenBrace => "{"@,
        TokenKindView::CloseBrace => "}"@,
        TokenKindView::OpenBracket => "["@,
        TokenKindView::CloseBracket => "]"@,
        TokenKindView::Comma => ","@,
        TokenKindView::Semi => ";"@,
        TokenKindView::Colon => ":"@,
        TokenKindView::ColonColon => "::"@,
        TokenKindView::Dot => "."@,
        TokenKindView::DotDot => ".."@,
        TokenKindView::DotDotEq => "..="@,
        TokenKindView::Hash => "#"@,
        TokenKindView::At => "@"@,
        TokenKindView::Question => "?"@,
        TokenKindView::Plus => "+"@,
        TokenKindView::PlusEq => "+="@,
        TokenKindView::Minus => "-"@,
        TokenKindView::MinusEq => "-="@,
        TokenKindView::Arrow => "->"@,
        TokenKindView::Star => "*"@,
        TokenKindView::StarEq => "*="@,
        TokenKindView::Slash => "/"@,
        TokenKindView::SlashEq => "/="@,
        TokenKindView::Percent => "%"@,
        TokenKindView::PercentEq => "%="@,
        TokenKindView::Bang => "!"@,
        TokenKindView::Ne => "!="@,
        TokenKindView::Eq => "="@,
        TokenKindView::EqEq => "=="@,
        TokenKindView::FatArrow => "=>"@,
        TokenKindView::Lt => "<"@,
        TokenKindView::Le => "<="@,
        TokenKindView::Shl => "<<"@,
        TokenKindView::ShlEq => "<<="@,
        TokenKindView::Gt => ">"@,
        TokenKindView::Ge => ">="@,
        TokenKindView::Shr => ">>"@,
        TokenKindView::ShrEq => ">>="@,
        TokenKindView::And => "&"@,
        TokenKindView::AndAnd => "&&"@,
        TokenKindView::AndEq => "&="@,
        TokenKindView::Or => "|"@,
        TokenKindView::OrOr => "||"@,
        TokenKindView::OrEq => "|="@,
        TokenKindView::Caret => "^"@,
        TokenKindView::CaretEq => "^="@,
        TokenKindView::Tilde => "~"@,
        TokenKindView::Fn => "fn"@,
        TokenKindView::Let => "let"@,
        TokenKindView::Mut => "mut"@,
        TokenKindView::If => "if"@,
        TokenKindView::Else => "else"@,
        TokenKindView::While => "while"@,
        TokenKindView::For => "for"@,
        TokenKindView::In => "in"@,
        TokenKindView::Loop => "loop"@,
        TokenKindView::Break => "break"@,
        TokenKindView::Continue => "continue"@,
        TokenKindView::Return => "return"@,
        TokenKindView::Match => "match"@,
        TokenKindView::Struct => "struct"@,
        TokenKindView::Enum => "enum"@,
        TokenKindView::Impl => "impl"@,
        TokenKindView::Trait => "trait"@,
        TokenKindView::Self_ => "self"@,
        TokenKindView::Pub => "pub"@,
        TokenKindView::Use => "use"@,
        TokenKindView::Mod => "mod"@,
        TokenKindView::Const => "const"@,
        TokenKindView::Type => "type"@,
        TokenKindView::Yield => "yield"@,
        TokenKindView::Opaque => "opaque"@,
        TokenKindView::Underscore => "_"@,
        TokenKindView::Comment => "comment"@,
        TokenKindView::Eof => "end of input"@,
        TokenKindView::Int(_) => "integer"@,
        TokenKindView::Float(_) => "float"@,
        TokenKindView::Str(_) => "string"@,
        TokenKindView::Bool(_) => "boolean"@,
        TokenKindView::Ident(_) => "identifier"@,
    }
}

/// The spelling of a token kind, as `spelling_of` gives it.
pub fn spelling(k: &TokenKind) -> (r: &'static str)
    ensures
        r@ == spelling_of(k@),
{
    match k {
        TokenKind::OpenParen => "(",
        TokenKind::CloseParen => ")",
        TokenKind::OpenBrace => "{",
        TokenKind::CloseBrace => "}",
        TokenKind::OpenBracket => "[",
        TokenKind::CloseBracket => "]",
        TokenKind::Comma => ",",
        TokenKind::Semi => ";",
        TokenKind::Colon => ":",
        TokenKind::ColonColon => "::",
        TokenKind::Dot => ".",
        TokenKind::DotDot => "..",
        TokenKind::DotDotEq => "..=",
        TokenKind::Hash => "#",
        TokenKind::At => "@",
        TokenKind::Question => "?",
        TokenKind::Plus => "+",
        TokenKind::PlusEq => "+=",
        TokenKind::Minus => "-",
        TokenKind::MinusEq => "-=",
        TokenKind::Arrow => "->",
        TokenKind::Star => "*",
        TokenKind::StarEq => "*=",
        TokenKind::Slash => "/",
        TokenKind::SlashEq => "/=",
        TokenKind::Percent => "%",
        TokenKind::PercentEq => "%=",
        TokenKind::Bang => "!",
        TokenKind::Ne => "!=",
        TokenKind::Eq => "=",
        TokenKind::EqEq => "==",
        TokenKind::FatArrow => "=>",
        TokenKind::Lt => "<",
        TokenKind::Le => "<=",
        TokenKind::Shl => "<<",
        TokenKind::ShlEq => "<<=",
        TokenKind::Gt => ">",
        TokenKind::Ge => ">=",
        TokenKind::Shr => ">>",
        TokenKind::ShrEq => ">>=",
        TokenKind::And => "&",
        TokenKind::AndAnd => "&&",
        TokenKind::AndEq => "&=",
        TokenKind::Or => "|",
        TokenKind::OrOr => "||",
        TokenKind::OrEq => "|=",
        TokenKind::Caret => "^",
        TokenKind::CaretEq => "^=",
        TokenKind::Tilde => "~",
        TokenKind::Fn => "fn",
        TokenKind::Let => "let",
        TokenKind::Mut => "mut",
        TokenKind::If => "if",
        TokenKind::Else => "else",
        TokenKind::While => "while",
        TokenKind::For => "for",
        TokenKind::In => "in",
        TokenKind::Loop => "loop",
        TokenKind::Break => "break",
        TokenKind::Continue => "continue",
        TokenKind::Return => "return",
        TokenKind::Match => "match",
        TokenKind::Struct => "struct",
        TokenKind::Enum => "enum",
        TokenKind::Impl => "impl",
        TokenKind::Trait => "trait",
        TokenKind::Self_ => "self",
        TokenKind::Pub => "pub",
        TokenKind::Use => "use",
        TokenKind::Mod => "mod",
        TokenKind::Const => "const",
        TokenKind::Type => "type",
        TokenKind::Yield => "yield",
        TokenKind::Opaque => "opaque",
        TokenKind::Underscore => "_",
        TokenKind::Comment => "comment",
        TokenKind::Eof => "end of input",
        TokenKind::Int(_) => "integer",
        TokenKind::Float(_) => "float",
        TokenKind::Str(_) => "string",
        TokenKind::Bool(_) => "boolean",
        TokenKind::Ident(_) => "identifier",
    }
}

/// A reserved word's token kind.
pub open spec fn keyword_kind(k: TokenKindView) -> bool {
    match k {
        TokenKindView::Fn | TokenKindView::Let | TokenKindView::Mut | TokenKindView::If | TokenKindView::Else | TokenKindView::While
        | TokenKindView::For | TokenKindView::In | TokenKindView::Loop | TokenKindView::Break | TokenKindView::Continue | TokenKindView::Return
        | TokenKindView::Match | TokenKindView::Struct | TokenKindView::Enum | TokenKindView::Impl | TokenKindView::Trait | TokenKindView::Self_
        | TokenKindView::Pub | TokenKindView::Use | TokenKindView::Mod | TokenKindView::Const | TokenKindView::Type | TokenKindView::Yield
        | TokenKindView::Opaque | TokenKindView::Underscore => true,
        _ => false,
    }
}

/// The lexer reads each reserved word as the token kind that is spelled that
/// way: `keyword_of` of a keyword kind's spelling is that kind.
pub proof fn lemma_keyword_read_as_spelled(k: TokenKindView)
    requires
        keyword_kind(k),
    ensures
        keyword_of(spelling_of(k)) == Some(k),
{
    match k {
        TokenKindView::Fn => { reveal_strlit("fn"); },
        TokenKindView::Let => { reveal_strlit("let"); },
        TokenKindView::Mut => { reveal_strlit("mut"); },
        TokenKindView::If => { reveal_strlit("if"); },
        TokenKindView::Else => { reveal_strlit("else"); },
        TokenKindView::While => { reveal_strlit("while"); },
        TokenKindView::For => { reveal_strlit("for"); },
        TokenKindView::In => { reveal_strlit("in"); },
        TokenKindView::Loop => { reveal_strlit("loop"); },
        TokenKindView::Break => { reveal_strlit("break"); },
        TokenKindView::Continue => { reveal_strlit("continue"); },
        TokenKindView::Return => { reveal_strlit("return"); },
        TokenKindView::Match => { reveal_strlit("match"); },
        TokenKindView::Struct => { reveal_strlit("struct"); },
        TokenKindView::Enum => { reveal_strlit("enum"); },
        TokenKindView::Impl => { reveal_strlit("impl"); },
        TokenKindView::Trait => { reveal_strlit("trait"); },
        TokenKindView::Self_ => { reveal_strlit("self"); },
        TokenKindView::Pub => { reveal_strlit("pub"); },
        TokenKindView::Use => { reveal_strlit("use"); },
        TokenKindView::Mod => { reveal_strlit("mod"); },
        TokenKindView::Const => { reveal_strlit("const"); },
        TokenKindView::Type => { reveal_strlit("type"); },
        TokenKindView::Yield => { reveal_strlit("yield"); },
        TokenKindView::Opaque => { reveal_strlit("opaque"); },
        TokenKindView::Underscore => { reveal_strlit("_"); },
        _ => {},
    }
}

/// Conversely, a word the lexer reads as a keyword is that keyword's
/// spelling, or `true` or `false` read as a boolean.
pub proof fn lemma_keyword_spelled_as_read(w: Seq<char>)
    requires
        keyword_of(w) is Some,
    ensures
        keyword_kind(keyword_of(w)->0) ==> spelling_of(keyword_of(w)->0) == w,
        !keyword_kind(keyword_of(w)->0) ==> (keyword_of(w) == Some(TokenKindView::Bool(true)) && w == "true"@)
            || (keyword_of(w) == Some(TokenKindView::Bool(false)) && w == "false"@),
{
    reveal_strlit("fn");
    reveal_strlit("let");
    reveal_strlit("mut");
    reveal_strlit("if");
    reveal_strlit("else");
    reveal_strlit("while");
    reveal_strlit("for");
    reveal_strlit("in");
    reveal_strlit("loop");
    reveal_strlit("break");
    reveal_strlit("continue");
    reveal_strlit("return");
    reveal_strlit("match");
    reveal_strlit("struct");
    reveal_strlit("enum");
    reveal_strlit("impl");
    reveal_strlit("trait");
    reveal_strlit("self");
    reveal_strlit("pub");
    reveal_strlit("use");
    reveal_strlit("mod");
    reveal_strlit("const");
    reveal_strlit("type");
    reveal_strlit("yield");
    reveal_strlit("opaque");
    reveal_strlit("_");
    reveal_strlit("true");
    reveal_strlit("false");
}

} // verus!
