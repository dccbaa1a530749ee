//! The parser: turns the tokens of a Zen program into its syntax tree.
//!
//! Expressions are read by precedence climbing; statements and declarations
//! by recursive descent. A declaration or statement that fails to parse is
//! recorded and skipped, so that one run reports every error it finds.
use vstd::prelude::*;
use vstd::utf8::encode_utf8;
use vstd::string::StringSliceAdditionalSpecFns;
use crate::ast::{binop_of, copy_expr, BinOp, EnumVariant, Expr, MatchArm, Param, Pattern, Program, Stmt, StructField,
    Type, TypeParam, UnOp, Vis};
use crate::error::Error;
use crate::lexer::{lemma_lex_from_shape, lemma_lexable_without_trailing_backslash, lemma_without_comments_shape,
    str_shorter, tokens_match, token_matches, Lexer};
use crate::lexer_spec::{error_count, lex_from, lexable_from, without_comments, SpecToken};
use crate::span::{SourceLocation, Span, Spanned};
use crate::text::{char_is_uppercase, char_is_whitespace, chars_of, lemma_text_fits_short, push_str_chars, string_of, text_fits,
    uppercase, whitespace};
use crate::token::{kind_tag, spelling, spelling_of, tag, Token, TokenKind, TokenKindView};

verus! {

/// Precedence levels for Pratt parsing, weakest first.
#[derive(Debug, Clone, Copy, PartialEq, Eq, Structural, PartialOrd, Ord)]
pub enum Precedence {
    Lowest,
    Assign,
    Or,
    And,
    Compare,
    Term,
    Factor,
    Unary,
    Call,
    Primary,
}

/// The position of a level in the order from weakest to strongest.
pub open spec fn rank(p: Precedence) -> int {
    match p {
        Precedence::Lowest => 0,
        Precedence::Assign => 1,
        Precedence::Or => 2,
        Precedence::And => 3,
        Precedence::Compare => 4,
        Precedence::Term => 5,
        Precedence::Factor => 6,
        Precedence::Unary => 7,
        Precedence::Call => 8,
        Precedence::Primary => 9,
    }
}

/// How strongly an infix token binds; `Lowest` for a token that is no infix operator.
pub open spec fn precedence_of(k: TokenKindView) -> Precedence {
    match k {
        TokenKindView::Eq | TokenKindView::DotDot | TokenKindView::DotDotEq => Precedence::Assign,
        TokenKindView::OrOr => Precedence::Or,
        TokenKindView::AndAnd => Precedence::And,
        TokenKindView::EqEq | TokenKindView::Ne | TokenKindView::Lt | TokenKindView::Le | TokenKindView::Gt
        | TokenKindView::Ge => Precedence::Compare,
        TokenKindView::Plus | TokenKindView::Minus => Precedence::Term,
        TokenKindView::Star | TokenKindView::Slash | TokenKindView::Percent | TokenKindView::Shl
        | TokenKindView::Shr => Precedence::Factor,
        TokenKindView::And | TokenKindView::Or | TokenKindView::Caret => Precedence::Term,
        TokenKindView::OpenParen | TokenKindView::Dot | TokenKindView::OpenBracket | TokenKindView::Question
        | TokenKindView::ColonColon => Precedence::Call,
        _ => Precedence::Lowest,
    }
}

/// How tightly the infix operators bind, from loosest to tightest:
/// assignment, then `||`, then `&&`, then the comparisons (all alike), then
/// `+` and `-`, then `*`, `/` and `%`; calls, field reads and indexing bind
/// tighter than any of them.
pub proof fn lemma_operator_binding()
    ensures
        rank(precedence_of(TokenKindView::Eq)) < rank(precedence_of(TokenKindView::OrOr)),
        rank(precedence_of(TokenKindView::OrOr)) < rank(precedence_of(TokenKindView::AndAnd)),
        rank(precedence_of(TokenKindView::AndAnd)) < rank(precedence_of(TokenKindView::EqEq)),
        precedence_of(TokenKindView::EqEq) == precedence_of(TokenKindView::Ne),
        precedence_of(TokenKindView::EqEq) == precedence_of(TokenKindView::Lt),
        precedence_of(TokenKindView::EqEq) == precedence_of(TokenKindView::Le),
        precedence_of(TokenKindView::EqEq) == precedence_of(TokenKindView::Gt),
        precedence_of(TokenKindView::EqEq) == precedence_of(TokenKindView::Ge),
        rank(precedence_of(TokenKindView::EqEq)) < rank(precedence_of(TokenKindView::Plus)),
        precedence_of(TokenKindView::Plus) == precedence_of(TokenKindView::Minus),
        rank(precedence_of(TokenKindView::Plus)) < rank(precedence_of(TokenKindView::Star)),
        precedence_of(TokenKindView::Star) == precedence_of(TokenKindView::Slash),
        precedence_of(TokenKindView::Star) == precedence_of(TokenKindView::Percent),
        rank(precedence_of(TokenKindView::Star)) < rank(precedence_of(TokenKindView::OpenParen)),
        precedence_of(TokenKindView::OpenParen) == precedence_of(TokenKindView::Dot),
        precedence_of(TokenKindView::OpenParen) == precedence_of(TokenKindView::OpenBracket),
{
}

/// A token that no infix or postfix operator starts with, so an operand
/// before it ends there.
pub open spec fn ends_operand(k: TokenKindView) -> bool {
    precedence_of(k) == Precedence::Lowest && !is_compound(k) && !binary_token(k)
}

/// The expression a single literal token reads as, when it is one.
pub open spec fn literal_token_expr(k: TokenKind) -> Option<Expr> {
    match k {
        TokenKind::Int(n) => Some(Expr::Int(n)),
        TokenKind::Bool(b) => Some(Expr::Bool(b)),
        TokenKind::Underscore => Some(Expr::Unit),
        _ => None,
    }
}

/// The next stronger level; `Primary` is the strongest.
pub open spec fn prec_next(p: Precedence) -> Precedence {
    match p {
        Precedence::Lowest => Precedence::Assign,
        Precedence::Assign => Precedence::Or,
        Precedence::Or => Precedence::And,
        Precedence::And => Precedence::Compare,
        Precedence::Compare => Precedence::Term,
        Precedence::Term => Precedence::Factor,
        Precedence::Factor => Precedence::Unary,
        Precedence::Unary => Precedence::Call,
        Precedence::Call => Precedence::Primary,
        Precedence::Primary => Precedence::Primary,
    }
}

/// The kinds of a sequence of tokens.
pub open spec fn kinds_of(ts: Seq<Spanned<Token>>) -> Seq<TokenKindView> {
    ts.map_values(|t: Spanned<Token>| t.node.kind@)
}

/// The form of an expression as the grammar fixes it: literals, names,
/// operators, calls, method calls, field reads and index reads, with the
/// forms of their parts; `Other` for every other kind of expression.
pub ghost enum ExprShape {
    Int(i64),
    Bool(bool),
    Unit,
    Name(Seq<char>),
    Unary(UnOp, Box<ExprShape>),
    Binary(BinOp, Box<ExprShape>, Box<ExprShape>),
    Call(Box<ExprShape>, Seq<ExprShape>),
    Index(Box<ExprShape>, Box<ExprShape>),
    Field(Box<ExprShape>, Seq<char>),
    Method(Box<ExprShape>, Seq<char>, Seq<ExprShape>),
    Other,
}

/// The form of an expression.
pub open spec fn shape_of(e: Expr) -> ExprShape
    decreases e, 1nat,
{
    match e {
        Expr::Int(n) => ExprShape::Int(n),
        Expr::Bool(b) => ExprShape::Bool(b),
        Expr::Unit => ExprShape::Unit,
        Expr::Ident(n) => ExprShape::Name(n@),
        Expr::Unary { op, expr: inner } => ExprShape::Unary(op, Box::new(shape_of(*inner))),
        Expr::Binary { op, lhs, rhs } => ExprShape::Binary(op, Box::new(shape_of(*lhs)), Box::new(shape_of(*rhs))),
        Expr::Call { func, args } => ExprShape::Call(Box::new(shape_of(*func)), shapes_of(args@)),
        Expr::Index { obj, index } => ExprShape::Index(Box::new(shape_of(*obj)), Box::new(shape_of(*index))),
        Expr::Field { obj, field } => ExprShape::Field(Box::new(shape_of(*obj)), field@),
        Expr::MethodCall { obj, method, args } => ExprShape::Method(Box::new(shape_of(*obj)), method@, shapes_of(args@)),
        _ => ExprShape::Other,
    }
}

/// The forms of a list of expressions.
pub open spec fn shapes_of(es: Seq<Expr>) -> Seq<ExprShape>
    decreases es, 0nat,
{
    if es.len() == 0 {
        Seq::empty()
    } else {
        shapes_of(es.drop_last()).push(shape_of(es.last()))
    }
}

/// The form a single literal token reads as, when it is one.
pub open spec fn literal_view_expr(k: TokenKindView) -> Option<ExprShape> {
    match k {
        TokenKindView::Int(n) => Some(ExprShape::Int(n)),
        TokenKindView::Bool(b) => Some(ExprShape::Bool(b)),
        TokenKindView::Underscore => Some(ExprShape::Unit),
        _ => None,
    }
}

/// The expression that precedence climbing reads from token `i` when every
/// infix operator in it binds at least as strongly as `prec`, with the place
/// after it, for expressions built from literal operands (`_` is the unit
/// value), names (not followed by `{`), prefix operators, infix operators,
/// parentheses, calls, method calls, field reads and index reads. Operands
/// of an infix operator are read left to right; an operator's right operand
/// takes only operators binding more strongly, so operators of equal
/// strength group to the left; calls, field reads and index reads bind
/// most strongly and apply left to right. `None` for anything else.
pub open spec fn pratt_expr(ks: Seq<TokenKindView>, i: int, prec: Precedence) -> Option<(ExprShape, int)>
    decreases ks.len() - i, 2int,
{
    if !(0 <= i < ks.len()) {
        None
    } else {
        match pratt_operand(ks, i) {
            Some((lhs, j)) => if i < j <= ks.len() {
                pratt_rest(ks, j, lhs, prec)
            } else {
                None
            },
            None => None,
        }
    }
}

/// The operand that starts at token `i`: a literal, a name, a prefix
/// operator with its operand, or a parenthesised expression (`()` is the
/// unit value).
pub open spec fn pratt_operand(ks: Seq<TokenKindView>, i: int) -> Option<(ExprShape, int)>
    decreases ks.len() - i, 1int,
{
    if !(0 <= i < ks.len()) {
        None
    } else {
        let k = ks[i];
        match literal_view_expr(k) {
            Some(e) => Some((e, i + 1)),
            None => match k {
                TokenKindView::Ident(name) => if i + 1 < ks.len() && ks[i + 1] is OpenBrace {
                    None
                } else {
                    Some((ExprShape::Name(name), i + 1))
                },
                TokenKindView::Minus | TokenKindView::Bang | TokenKindView::Tilde => match pratt_expr(ks, i + 1, Precedence::Unary) {
                    Some((e, j)) => Some((ExprShape::Unary(crate::ast::unop_of(k)->0, Box::new(e)), j)),
                    None => None,
                },
                TokenKindView::OpenParen => if i + 1 < ks.len() && kind_tag(ks[i + 1]) == kind_tag(TokenKindView::CloseParen) {
                    Some((ExprShape::Unit, i + 2))
                } else {
                    match pratt_expr(ks, i + 1, Precedence::Lowest) {
                        Some((e, j)) => if 0 <= j < ks.len() && kind_tag(ks[j]) == kind_tag(TokenKindView::CloseParen) {
                            Some((e, j + 1))
                        } else {
                            None
                        },
                        None => None,
                    }
                },
                _ => None,
            },
        }
    }
}

/// The arguments of a call read from token `i`, just after its `(`: none
/// when `)` follows at once, else expressions separated by commas. With
/// the place of the token after them, which must be the `)`.
pub open spec fn pratt_args(ks: Seq<TokenKindView>, i: int) -> Option<(Seq<ExprShape>, int)>
    decreases ks.len() - i, 4int,
{
    if !(0 <= i < ks.len()) {
        None
    } else if ks[i] is CloseParen {
        Some((Seq::empty(), i))
    } else {
        pratt_args_from(ks, i)
    }
}

/// One or more arguments separated by commas, read from token `i`.
pub open spec fn pratt_args_from(ks: Seq<TokenKindView>, i: int) -> Option<(Seq<ExprShape>, int)>
    decreases ks.len() - i, 3int,
{
    if !(0 <= i < ks.len()) {
        None
    } else {
        match pratt_expr(ks, i, Precedence::Lowest) {
            Some((e, m)) => if i < m < ks.len() {
                if ks[m] is Comma {
                    match pratt_args_from(ks, m + 1) {
                        Some((rest, p)) => Some((seq![e] + rest, p)),
                        None => None,
                    }
                } else {
                    Some((seq![e], m))
                }
            } else {
                None
            },
            None => None,
        }
    }
}

/// After `lhs` was read up to token `j`: infix operators binding at least as
/// strongly as `prec` extend it, each taking a right operand of stronger
/// operators; a call's arguments in `(..)`, an index in `[..]`, or `.` with a
/// name (and arguments, for a method call) apply to it; a weaker operator or
/// a token that ends an operand stops it.
pub open spec fn pratt_rest(ks: Seq<TokenKindView>, j: int, lhs: ExprShape, prec: Precedence) -> Option<(ExprShape, int)>
    decreases ks.len() - j, 0int,
{
    if !(0 <= j < ks.len()) {
        None
    } else {
        let k = ks[j];
        if rank(precedence_of(k)) < rank(prec) {
            Some((lhs, j))
        } else if binary_token(k) {
            match pratt_expr(ks, j + 1, prec_next(precedence_of(k))) {
                Some((rhs, m)) => if j < m <= ks.len() {
                    pratt_rest(ks, m, ExprShape::Binary(binop_of(k)->0, Box::new(lhs), Box::new(rhs)), prec)
                } else {
                    None
                },
                None => None,
            }
        } else if k is OpenParen {
            match pratt_args(ks, j + 1) {
                Some((args, m)) => if j < m < ks.len() && ks[m] is CloseParen {
                    pratt_rest(ks, m + 1, ExprShape::Call(Box::new(lhs), args), prec)
                } else {
                    None
                },
                None => None,
            }
        } else if k is OpenBracket {
            match pratt_expr(ks, j + 1, Precedence::Lowest) {
                Some((ix, m)) => if j < m < ks.len() && ks[m] is CloseBracket {
                    pratt_rest(ks, m + 1, ExprShape::Index(Box::new(lhs), Box::new(ix)), prec)
                } else {
                    None
                },
                None => None,
            }
        } else if k is Dot {
            if j + 2 < ks.len() && ks[j + 1] is Ident {
                let name = ks[j + 1]->Ident_0;
                if ks[j + 2] is OpenParen {
                    match pratt_args(ks, j + 3) {
                        Some((args, m)) => if j < m < ks.len() && ks[m] is CloseParen {
                            pratt_rest(ks, m + 1, ExprShape::Method(Box::new(lhs), name, args), prec)
                        } else {
                            None
                        },
                        None => None,
                    }
                } else {
                    pratt_rest(ks, j + 2, ExprShape::Field(Box::new(lhs), name), prec)
                }
            } else {
                None
            }
        } else if ends_operand(k) {
            Some((lhs, j))
        } else {
            None
        }
    }
}

/// An expression statement of that kind read from token `i`: the expression
/// and the place after it and after a `;` that follows it.
pub open spec fn pratt_stmt(ks: Seq<TokenKindView>, i: int) -> Option<(ExprShape, int)> {
    match pratt_expr(ks, i, Precedence::Lowest) {
        Some((e, j)) => if 0 <= j < ks.len() && kind_tag(ks[j]) == kind_tag(TokenKindView::Semi) {
            Some((e, j + 1))
        } else {
            Some((e, j))
        },
        None => None,
    }
}

/// The expressions of a program read from token `i` that is nothing but
/// such expression statements up to the end of input.
pub open spec fn pratt_program(ks: Seq<TokenKindView>, i: int) -> Option<Seq<ExprShape>>
    decreases ks.len() - i,
{
    if !(0 <= i < ks.len()) {
        None
    } else if ks[i] is Eof {
        Some(Seq::empty())
    } else {
        match pratt_stmt(ks, i) {
            Some((e, j)) => if i < j <= ks.len() {
                match pratt_program(ks, j) {
                    Some(rest) => Some(seq![e] + rest),
                    None => None,
                }
            } else {
                None
            },
            None => None,
        }
    }
}

/// An expression statement whose expression has form `m`.
pub open spec fn expr_stmt_shaped(s: Stmt, m: ExprShape) -> bool {
    match s {
        Stmt::Expr(x) => shape_of(x) == m,
        _ => false,
    }
}

/// Such a statement starts with a literal, a name, a prefix operator or `(`.
pub proof fn lemma_pratt_start(ks: Seq<TokenKindView>, i: int)
    requires
        pratt_stmt(ks, i) is Some,
    ensures
        0 <= i < ks.len(),
        ks[i] is Int || ks[i] is Bool || ks[i] is Underscore || ks[i] is Minus
            || ks[i] is Bang || ks[i] is Tilde || ks[i] is OpenParen || ks[i] is Ident,
{
}

/// Whether a token is a compound assignment.
pub open spec fn is_compound(k: TokenKindView) -> bool {
    match k {
        TokenKindView::PlusEq | TokenKindView::MinusEq | TokenKindView::StarEq | TokenKindView::SlashEq
        | TokenKindView::PercentEq | TokenKindView::AndEq | TokenKindView::OrEq | TokenKindView::CaretEq
        | TokenKindView::ShlEq | TokenKindView::ShrEq => true,
        _ => false,
    }
}

/// The operator a compound assignment applies (`&=` and `|=` apply the logical
/// operators).
pub open spec fn compound_op(k: TokenKindView) -> BinOp {
    match k {
        TokenKindView::PlusEq => BinOp::Add,
        TokenKindView::MinusEq => BinOp::Sub,
        TokenKindView::StarEq => BinOp::Mul,
        TokenKindView::SlashEq => BinOp::Div,
        TokenKindView::PercentEq => BinOp::Mod,
        TokenKindView::AndEq => BinOp::And,
        TokenKindView::OrEq => BinOp::Or,
        TokenKindView::CaretEq => BinOp::BitXor,
        TokenKindView::ShlEq => BinOp::Shl,
        _ => BinOp::Shr,
    }
}

/// A compound assignment `t op= e` applies the operator spelled before its
/// `=`: `+=` adds, `-=` subtracts, `<<=` shifts left, and so on. `&=` and
/// `|=` apply the logical operators `&&` and `||`, as the language has always
/// read them.
pub proof fn lemma_compound_operator(k: TokenKindView)
    requires
        is_compound(k),
    ensures
        exists|b: TokenKindView| #[trigger] binop_of(b) == Some(compound_op(k)) && {
            let spelled = spelling_of(k).drop_last();
            if k is AndEq || k is OrEq {
                spelling_of(b) == spelled + spelled
            } else {
                spelling_of(b) == spelled
            }
        },
{
    reveal_strlit("+=");
    reveal_strlit("-=");
    reveal_strlit("*=");
    reveal_strlit("/=");
    reveal_strlit("%=");
    reveal_strlit("&=");
    reveal_strlit("|=");
    reveal_strlit("^=");
    reveal_strlit("<<=");
    reveal_strlit(">>=");
    reveal_strlit("+");
    reveal_strlit("-");
    reveal_strlit("*");
    reveal_strlit("/");
    reveal_strlit("%");
    reveal_strlit("&&");
    reveal_strlit("||");
    reveal_strlit("^");
    reveal_strlit("<<");
    reveal_strlit(">>");
    let b = match k {
        TokenKindView::PlusEq => TokenKindView::Plus,
        TokenKindView::MinusEq => TokenKindView::Minus,
        TokenKindView::StarEq => TokenKindView::Star,
        TokenKindView::SlashEq => TokenKindView::Slash,
        TokenKindView::PercentEq => TokenKindView::Percent,
        TokenKindView::AndEq => TokenKindView::AndAnd,
        TokenKindView::OrEq => TokenKindView::OrOr,
        TokenKindView::CaretEq => TokenKindView::Caret,
        TokenKindView::ShlEq => TokenKindView::Shl,
        _ => TokenKindView::Shr,
    };
    assert(binop_of(b) == Some(compound_op(k)));
    let spelled = spelling_of(k).drop_last();
    if k is AndEq || k is OrEq {
        assert(spelling_of(b) =~= spelled + spelled);
    } else {
        assert(spelling_of(b) =~= spelled);
    }
}

impl Precedence {
    /// The level's place in the order from weakest to strongest.
    pub fn rank_u8(&self) -> (r: u8)
        ensures
            r as int == rank(*self),
    {
        match self {
            Precedence::Lowest => 0,
            Precedence::Assign => 1,
            Precedence::Or => 2,
            Precedence::And => 3,
            Precedence::Compare => 4,
            Precedence::Term => 5,
            Precedence::Factor => 6,
            Precedence::Unary => 7,
            Precedence::Call => 8,
            Precedence::Primary => 9,
        }
    }

    /// The next stronger level; `Primary` is the strongest.
    pub fn next(&self) -> (p: Precedence)
        ensures
            p == prec_next(*self),
            rank(*self) < 9 ==> rank(p) == rank(*self) + 1,
            rank(*self) == 9 ==> p == Precedence::Primary,
    {
        match self {
            Precedence::Lowest => Precedence::Assign,
            Precedence::Assign => Precedence::Or,
            Precedence::Or => Precedence::And,
            Precedence::And => Precedence::Compare,
            Precedence::Compare => Precedence::Term,
            Precedence::Term => Precedence::Factor,
            Precedence::Factor => Precedence::Unary,
            Precedence::Unary => Precedence::Call,
            Precedence::Call => Precedence::Primary,
            Precedence::Primary => Precedence::Primary,
        }
    }

    /// How strongly `kind` binds as an infix operator.
    pub fn of(kind: &TokenKind) -> (p: Precedence)
        ensures
            p == precedence_of(kind@),
    {
        match kind {
            TokenKind::Eq => Precedence::Assign,
            TokenKind::DotDot | TokenKind::DotDotEq => Precedence::Assign,
            TokenKind::OrOr => Precedence::Or,
            TokenKind::AndAnd => Precedence::And,
            TokenKind::EqEq | TokenKind::Ne | TokenKind::Lt | TokenKind::Le | TokenKind::Gt | TokenKind::Ge => {
                Precedence::Compare
            },
            TokenKind::Plus | TokenKind::Minus => Precedence::Term,
            TokenKind::Star | TokenKind::Slash | TokenKind::Percent | TokenKind::Shl | TokenKind::Shr => {
                Precedence::Factor
            },
            TokenKind::And | TokenKind::Or | TokenKind::Caret => Precedence::Term,
            TokenKind::OpenParen | TokenKind::Dot | TokenKind::OpenBracket | TokenKind::Question
            | TokenKind::ColonColon => Precedence::Call,
            _ => Precedence::Lowest,
        }
    }
}

/// The operator a compound assignment token applies.
pub fn compound_to_binop(tok: &TokenKind) -> (op: BinOp)
    requires
        is_compound(tok@),
    ensures
        op == compound_op(tok@),
{
    match tok {
        TokenKind::PlusEq => BinOp::Add,
        TokenKind::MinusEq => BinOp::Sub,
        TokenKind::StarEq => BinOp::Mul,
        TokenKind::SlashEq => BinOp::Div,
        TokenKind::PercentEq => BinOp::Mod,
        TokenKind::AndEq => BinOp::And,
        TokenKind::OrEq => BinOp::Or,
        TokenKind::CaretEq => BinOp::BitXor,
        TokenKind::ShlEq => BinOp::Shl,
        _ => BinOp::Shr,
    }
}

/// What the parser needs of its input: a token list that ends with the
/// end-of-input token, a text of at most a quarter of `usize::MAX`
/// characters, and string literals shorter than the text (which the lexer's
/// output always has).
pub open spec fn parser_input(source: Seq<char>, tokens: Seq<Spanned<Token>>) -> bool {
    &&& tokens.len() > 0
    &&& tokens.last().node.kind is Eof
    &&& source.len() <= usize::MAX / 4
    &&& forall|k: int| 0 <= k < tokens.len() ==> str_shorter((#[trigger] tokens[k]).node.kind@, source.len() as int)
}

/// The tokens that the lexer reads from a text (comments dropped) are input
/// the parser accepts.
pub proof fn lemma_lexed_parser_input(s: Seq<char>, ts: Seq<Spanned<Token>>)
    requires
        lexable_from(s, 0),
        tokens_match(ts, without_comments(lex_from(s, 0)), s),
        s.len() <= usize::MAX / 4,
    ensures
        parser_input(s, ts),
{
    let all = lex_from(s, 0);
    lemma_lex_from_shape(s, 0);
    lemma_without_comments_shape(all);
    let w = without_comments(all);
    assert(token_matches(ts[ts.len() - 1], w[w.len() - 1], s));
    assert forall|k: int| 0 <= k < ts.len() implies str_shorter((#[trigger] ts[k]).node.kind@, s.len() as int) by {
        assert(token_matches(ts[k], w[k], s));
        let m = choose|m: int| 0 <= m < all.len() && w[k] == all[m];
        assert(str_shorter(all[m].kind, s.len() as int));
    }
}

/// A result that, when it fails, fails with a parse error.
pub open spec fn parse_err<T>(r: Result<T, Error>) -> bool {
    match r {
        Ok(_) => true,
        Err(e) => e is Parse,
    }
}

/// Line and column (both from 1) of byte offset `n` of an encoded text: a
/// line feed starts a new line; every other byte that starts a character
/// moves one column on.
pub open spec fn line_col_at(b: Seq<u8>, n: int) -> (int, int)
    decreases n,
{
    if n <= 0 {
        (1, 1)
    } else {
        let (l, c) = line_col_at(b, n - 1);
        if b[n - 1] == 10 {
            (l + 1, 1)
        } else if 0x80 <= b[n - 1] < 0xC0 {
            (l, c)
        } else {
            (l, c + 1)
        }
    }
}

proof fn lemma_line_col_bounds(b: Seq<u8>, n: int)
    requires
        0 <= n <= b.len(),
    ensures
        1 <= line_col_at(b, n).0 <= n + 1,
        1 <= line_col_at(b, n).1 <= n + 1,
    decreases n,
{
    if n > 0 {
        lemma_line_col_bounds(b, n - 1);
    }
}

/// Reads a token list, building the syntax tree and collecting the errors.
pub struct Parser<'a> {
    tokens: &'a [Spanned<Token>],
    current: usize,
    errors: Vec<Error>,
    source: &'a str,
}

impl<'a> Parser<'a> {
    pub closed spec fn wf(&self) -> bool {
        &&& parser_input(self.source@, self.tokens@)
        &&& self.current < self.tokens@.len() <= usize::MAX
        &&& forall|i: int| 0 <= i < self.errors@.len() ==> (#[trigger] self.errors@[i]) is Parse
    }

    /// The index of the next token.
    pub closed spec fn pos(&self) -> int {
        self.current as int
    }

    pub closed spec fn toks(&self) -> Seq<Spanned<Token>> {
        self.tokens@
    }

    pub closed spec fn text(&self) -> Seq<char> {
        self.source@
    }

    /// Errors recorded so far (inside blocks, which go on after an error).
    pub closed spec fn errs(&self) -> Seq<Error> {
        self.errors@
    }

    /// Whether the next token is the end of input.
    pub closed spec fn at_end(&self) -> bool {
        self.tokens@[self.current as int].node.kind is Eof
    }

    /// The next token is of kind `k` (payloads ignored), and not the end of input.
    pub closed spec fn next_is(&self, k: TokenKindView) -> bool {
        !self.at_end() && kind_tag(self.tokens@[self.current as int].node.kind@) == kind_tag(k)
    }

    /// The token just read is of kind `k` (payloads ignored).
    pub closed spec fn last_read_is(&self, k: TokenKindView) -> bool {
        self.current >= 1 && kind_tag(self.tokens@[self.current - 1].node.kind@) == kind_tag(k)
    }

    /// `{` after a name starts a struct literal: `{}`, `{ ..`, or `{ name`
    /// followed by `:`, `,` or `}`.
    pub closed spec fn struct_lit_ahead(&self) -> bool {
        let i = self.current as int;
        &&& self.next_is(TokenKindView::OpenBrace)
        &&& i + 1 < self.tokens@.len()
        &&& match self.tokens@[i + 1].node.kind@ {
            TokenKindView::CloseBrace | TokenKindView::DotDot => true,
            TokenKindView::Ident(_) => i + 2 < self.tokens@.len() && match self.tokens@[i + 2].node.kind@ {
                TokenKindView::Colon | TokenKindView::Comma | TokenKindView::CloseBrace => true,
                _ => false,
            },
            _ => false,
        }
    }

    /// `self` is `before` after reading on: same input, not moved back, no
    /// error forgotten.
    pub closed spec fn kept(&self, before: Self) -> bool {
        &&& self.wf()
        &&& self.tokens@ == before.tokens@
        &&& self.source@ == before.source@
        &&& before.current <= self.current
        &&& before.errors@.len() <= self.errors@.len()
    }

    /// A parser at the start of `tokens`, read from `source`.
    pub fn new(source: &'a str, tokens: &'a [Spanned<Token>]) -> (p: Self)
        requires
            parser_input(source@, tokens@),
        ensures
            p.wf(),
            p.pos() == 0,
            p.toks() == tokens@,
            p.text() == source@,
            p.errs().len() == 0,
    {
        let _n = tokens.len();
        Parser { tokens, current: 0, errors: Vec::new(), source }
    }

    fn peek(&self) -> (t: &Spanned<Token>)
        requires
            self.wf(),
        ensures
            *t == self.tokens@[self.current as int],
    {
        &self.tokens[self.current]
    }

    fn is_at_end(&self) -> (b: bool)
        requires
            self.wf(),
        ensures
            b == self.at_end(),
    {
        match self.tokens[self.current].node.kind {
            TokenKind::Eof => true,
            _ => false,
        }
    }

    /// Whether the next token is of the given kind (payloads ignored), and not
    /// the end of input.
    fn check(&self, kind: &TokenKind) -> (b: bool)
        requires
            self.wf(),
        ensures
            b == (!self.at_end() && kind_tag(self.tokens@[self.current as int].node.kind@) == kind_tag(kind@)),
    {
        !self.is_at_end() && tag(&self.tokens[self.current].node.kind) == tag(kind)
    }

    /// Step over the next token, unless it is the end of input.
    fn advance(&mut self)
        requires
            old(self).wf(),
        ensures
            final(self).kept(*old(self)),
            final(self).errors@ == old(self).errors@,
            !old(self).at_end() ==> final(self).current == old(self).current + 1,
            old(self).at_end() ==> final(self).current == old(self).current,
    {
        if !self.is_at_end() {
            proof {
                if self.current + 1 == self.tokens@.len() {
                    assert(self.tokens@[self.current as int] == self.tokens@.last());
                }
            }
            self.current = self.current + 1;
        }
    }

    /// Step over the next token when it is of the given kind.
    fn match_kind(&mut self, kind: TokenKind) -> (b: bool)
        requires
            old(self).wf(),
        ensures
            final(self).kept(*old(self)),
            final(self).errors@ == old(self).errors@,
            b == (!old(self).at_end() && kind_tag(old(self).tokens@[old(self).current as int].node.kind@) == kind_tag(kind@)),
            b ==> final(self).current == old(self).current + 1,
            !b ==> final(self).current == old(self).current,
    {
        if self.check(&kind) {
            self.advance();
            true
        } else {
            false
        }
    }

    fn prev_span(&self) -> (s: Span)
        requires
            self.wf(),
            self.current >= 1,
        ensures
            s == self.tokens@[self.current - 1].span,
    {
        self.tokens[self.current - 1].span
    }

    /// Line and column of a byte offset of the source text (offsets past its
    /// end count as its end).
    fn line_col(&self, offset: usize) -> (lc: (usize, usize))
        requires
            self.wf(),
        ensures
            ({
                let b = encode_utf8(self.source@);
                let n = if offset <= b.len() { offset as int } else { b.len() as int };
                (lc.0 as int, lc.1 as int) == line_col_at(b, n)
            }),
    {
        let bytes = self.source.as_bytes();
        proof {
            lemma_text_fits_short(self.source@);
        }
        let n = if offset <= bytes.len() { offset } else { bytes.len() };
        let mut line: usize = 1;
        let mut col: usize = 1;
        let mut k: usize = 0;
        while k < n
            invariant
                n <= bytes@.len() < usize::MAX - 1,
                k <= n,
                (line as int, col as int) == line_col_at(bytes@, k as int),
            decreases n - k,
        {
            proof {
                lemma_line_col_bounds(bytes@, k as int);
            }
            let b = bytes[k];
            if b == 10 {
                line = line + 1;
                col = 1;
            } else if 0x80 <= b && b < 0xC0 {
            } else {
                col = col + 1;
            }
            k = k + 1;
        }
        (line, col)
    }

    /// A parse error with message `msg`, located at the next token.
    fn error(&self, msg: &str) -> (e: Error)
        requires
            self.wf(),
        ensures
            e matches Error::Parse { location, msg: m } && location.span == self.tokens@[self.current as int].span
                && location.file is None && m@ == msg@,
    {
        let span = self.tokens[self.current].span;
        let (line, col) = self.line_col(span.start());
        let mut m = String::new();
        push_str_chars(&mut m, msg);
        Error::Parse { location: SourceLocation::new(None, span, line, col), msg: m }
    }

    /// After a failed declaration: skip at least one token, then up to just
    /// after a `;` or just before a token that starts a declaration.
    fn synchronize(&mut self)
        requires
            old(self).wf(),
        ensures
            final(self).kept(*old(self)),
            final(self).errors@ == old(self).errors@,
            !old(self).at_end() ==> final(self).current > old(self).current,
    {
        self.advance();
        while !self.is_at_end()
            invariant
                self.kept(*old(self)),
                self.errors@ == old(self).errors@,
                !old(self).at_end() ==> self.current > old(self).current,
                !self.at_end() ==> self.current >= 1,
            decreases self.tokens@.len() - self.current,
        {
            if matches!(self.tokens[self.current - 1].node.kind, TokenKind::Semi) {
                return;
            }
            match self.tokens[self.current].node.kind {
                TokenKind::Fn | TokenKind::Let | TokenKind::Struct | TokenKind::Enum | TokenKind::Impl
                | TokenKind::Trait | TokenKind::Pub | TokenKind::Use | TokenKind::Mod | TokenKind::Const
                | TokenKind::Type => {
                    return;
                },
                _ => {},
            }
            self.advance();
        }
    }

    /// After a failed statement in a block: skip at least one token, then up
    /// to just after a `;` or just before the closing `}`.
    fn synchronize_block(&mut self)
        requires
            old(self).wf(),
        ensures
            final(self).kept(*old(self)),
            final(self).errors@ == old(self).errors@,
            !old(self).at_end() ==> final(self).current > old(self).current,
    {
        self.advance();
        while !self.is_at_end() && !matches!(self.tokens[self.current].node.kind, TokenKind::CloseBrace)
            invariant
                self.kept(*old(self)),
                self.errors@ == old(self).errors@,
                !old(self).at_end() ==> self.current > old(self).current,
                !self.at_end() ==> self.current >= 1,
            decreases self.tokens@.len() - self.current,
        {
            if matches!(self.tokens[self.current - 1].node.kind, TokenKind::Semi) {
                return;
            }
            self.advance();
        }
    }
}

/// Whether `s` spells `w`.
fn is_word(s: &String, w: &str) -> (b: bool)
    ensures
        b == (s@ == w@),
{
    let t = w.to_string();
    *s == t
}

impl<'a> Parser<'a> {
    /// Step over the next token if it is of the given kind; fail with
    /// `expected '<kind>', found '<lexeme>'` otherwise.
    fn expect(&mut self, kind: TokenKind) -> (r: Result<(), Error>)
        requires
            old(self).wf(),
        ensures
            final(self).kept(*old(self)),
            final(self).errors@ == old(self).errors@,
            parse_err(r),
            r is Ok <==> (!old(self).at_end() && kind_tag(old(self).tokens@[old(self).current as int].node.kind@)
                == kind_tag(kind@)),
            r is Ok ==> final(self).current == old(self).current + 1,
            r is Err ==> final(self).current == old(self).current,
    {
        let shown = spelling(&kind);
        if self.match_kind(kind) {
            Ok(())
        } else {
            let mut m = String::new();
            push_str_chars(&mut m, "expected '");
            push_str_chars(&mut m, shown);
            push_str_chars(&mut m, "', found '");
            push_str_chars(&mut m, self.tokens[self.current].node.lexeme.as_str());
            push_str_chars(&mut m, "'");
            Err(self.error(m.as_str()))
        }
    }

    /// Read an identifier: its name when the next token is one, an error
    /// otherwise.
    fn expect_ident(&mut self) -> (r: Result<String, Error>)
        requires
            old(self).wf(),
        ensures
            final(self).kept(*old(self)),
            final(self).errors@ == old(self).errors@,
            parse_err(r),
            match r {
                Ok(name) => old(self).tokens@[old(self).current as int].node.kind matches TokenKind::Ident(s)
                    && name@ == s@ && final(self).current == old(self).current + 1,
                Err(_) => !(old(self).tokens@[old(self).current as int].node.kind is Ident)
                    && final(self).current == old(self).current,
            },
    {
        match &self.tokens[self.current].node.kind {
            TokenKind::Ident(s) => {
                let name = s.clone();
                self.advance();
                Ok(name)
            },
            _ => {
                let mut m = String::new();
                push_str_chars(&mut m, "expected identifier, found '");
                push_str_chars(&mut m, self.tokens[self.current].node.lexeme.as_str());
                push_str_chars(&mut m, "'");
                Err(self.error(m.as_str()))
            },
        }
    }

    /// Whether `{` after a name starts a struct literal: `{}`, `{ ..`, or
    /// `{ name` followed by `:`, `,` or `}`.
    fn is_struct_lit_start(&self) -> (b: bool)
        requires
            self.wf(),
        ensures
            b == self.struct_lit_ahead(),
    {
        if !self.check(&TokenKind::OpenBrace) {
            return false;
        }
        let i = self.current;
        if i + 1 >= self.tokens.len() {
            return false;
        }
        match &self.tokens[i + 1].node.kind {
            TokenKind::CloseBrace => true,
            TokenKind::DotDot => true,
            TokenKind::Ident(_) => {
                if i + 2 < self.tokens.len() {
                    match &self.tokens[i + 2].node.kind {
                        TokenKind::Colon | TokenKind::Comma | TokenKind::CloseBrace => true,
                        _ => false,
                    }
                } else {
                    false
                }
            },
            _ => false,
        }
    }

    /// Read a type annotation.
    fn parse_type(&mut self) -> (r: Result<Type, Error>)
        requires
            old(self).wf(),
        ensures
            final(self).kept(*old(self)),
            final(self).errors@ == old(self).errors@,
            parse_err(r),
            r is Ok ==> final(self).current > old(self).current,
        decreases old(self).tokens@.len() - old(self).current, 0nat,
    {
        match &self.tokens[self.current].node.kind {
            TokenKind::Ident(s) => {
                let prim = if is_word(s, "i32") || is_word(s, "i64") {
                    Some(Type::I64)
                } else if is_word(s, "f32") {
                    Some(Type::F32)
                } else if is_word(s, "f64") {
                    Some(Type::F64)
                } else if is_word(s, "bool") {
                    Some(Type::Bool)
                } else if is_word(s, "str") {
                    Some(Type::Str)
                } else if is_word(s, "void") {
                    Some(Type::Unit)
                } else if is_word(s, "any") {
                    Some(Type::Any)
                } else {
                    None
                };
                match prim {
                    Some(t) => {
                        self.advance();
                        return Ok(t);
                    },
                    None => {},
                }
                let name = self.expect_ident()?;
                if self.match_kind(TokenKind::Lt) {
                    let mut args: Vec<Type> = Vec::new();
                    loop
                        invariant
                            self.kept(*old(self)),
                            self.errors@ == old(self).errors@,
                            self.current > old(self).current,
                        decreases self.tokens@.len() - self.current,
                    {
                        let t = self.parse_type()?;
                        args.push(t);
                        if !self.match_kind(TokenKind::Comma) {
                            break;
                        }
                    }
                    self.expect(TokenKind::Gt)?;
                    if args.len() == 1 {
                        if is_word(&name, "Option") {
                            let inner = args.pop().unwrap();
                            return Ok(Type::Option(Box::new(inner)));
                        }
                    } else if args.len() == 2 && is_word(&name, "Result") {
                        let err = args.pop().unwrap();
                        let ok = args.pop().unwrap();
                        return Ok(Type::Result(Box::new(ok), Box::new(err)));
                    }
                    Ok(Type::Named(name))
                } else if self.match_kind(TokenKind::OpenBracket) {
                    if self.match_kind(TokenKind::CloseBracket) {
                        return Ok(Type::Array(Box::new(Type::Named(name))));
                    }
                    let inner = self.parse_type()?;
                    self.expect(TokenKind::CloseBracket)?;
                    Ok(Type::Array(Box::new(inner)))
                } else {
                    Ok(Type::Named(name))
                }
            },
            TokenKind::OpenParen => {
                self.advance();
                let mut params = self.parse_types_list()?;
                self.expect(TokenKind::CloseParen)?;
                if self.match_kind(TokenKind::Arrow) {
                    let ret = self.parse_type()?;
                    Ok(Type::Fn { params, ret: Box::new(ret) })
                } else if params.len() == 1 {
                    Ok(params.pop().unwrap())
                } else {
                    Ok(Type::Unit)
                }
            },
            _ => Err(self.error("expected type")),
        }
    }

    /// Read types separated by commas, up to (not including) a `)`.
    fn parse_types_list(&mut self) -> (r: Result<Vec<Type>, Error>)
        requires
            old(self).wf(),
        ensures
            final(self).kept(*old(self)),
            final(self).errors@ == old(self).errors@,
            parse_err(r),
            old(self).next_is(TokenKindView::CloseParen) ==> (r matches Ok(v) && v@.len() == 0
                && final(self).current == old(self).current),
            !old(self).next_is(TokenKindView::CloseParen) ==> (r matches Ok(v) ==> v@.len() >= 1
                && final(self).current > old(self).current && !final(self).next_is(TokenKindView::Comma)),
        decreases old(self).tokens@.len() - old(self).current, 1nat,
    {
        let mut types: Vec<Type> = Vec::new();
        if self.check(&TokenKind::CloseParen) {
            return Ok(types);
        }
        let ghost start = *self;
        loop
            invariant
                self.kept(start),
                start == *old(self),
                self.errors@ == old(self).errors@,
                types@.len() >= 1 ==> self.current > old(self).current,
                !old(self).next_is(TokenKindView::CloseParen),
            ensures
                types@.len() >= 1,
                self.current > old(self).current,
                !self.next_is(TokenKindView::Comma),
            decreases self.tokens@.len() - self.current,
        {
            let t = self.parse_type()?;
            types.push(t);
            if !self.match_kind(TokenKind::Comma) {
                break;
            }
        }
        Ok(types)
    }

    /// Read `<T, U>` after a declared name; nothing when there is no `<`.
    fn parse_type_params(&mut self) -> (r: Result<Vec<TypeParam>, Error>)
        requires
            old(self).wf(),
        ensures
            final(self).kept(*old(self)),
            final(self).errors@ == old(self).errors@,
            parse_err(r),
            !old(self).next_is(TokenKindView::Lt) ==> (r matches Ok(v) && v@.len() == 0
                && final(self).current == old(self).current),
            old(self).next_is(TokenKindView::Lt) ==> (r matches Ok(v) ==> v@.len() >= 1
                && final(self).last_read_is(TokenKindView::Gt)
                && forall|i: int| 0 <= i < v@.len() ==> (#[trigger] v@[i]).bounds@.len() == 0),
    {
        let mut params: Vec<TypeParam> = Vec::new();
        if !self.match_kind(TokenKind::Lt) {
            return Ok(params);
        }
        loop
            invariant
                self.kept(*old(self)),
                self.errors@ == old(self).errors@,
                forall|i: int| 0 <= i < params@.len() ==> (#[trigger] params@[i]).bounds@.len() == 0,
                old(self).next_is(TokenKindView::Lt),
            ensures
                params@.len() >= 1,
                forall|i: int| 0 <= i < params@.len() ==> (#[trigger] params@[i]).bounds@.len() == 0,
            decreases self.tokens@.len() - self.current,
        {
            let name = self.expect_ident()?;
            params.push(TypeParam { name, bounds: Vec::new() });
            if !self.match_kind(TokenKind::Comma) {
                break;
            }
        }
        self.expect(TokenKind::Gt)?;
        Ok(params)
    }

    /// Read one parameter: `[&] [mut] name [: type]`, where the name may be `self`
    /// when `allow_self`.
    fn param(&mut self, allow_self: bool) -> (r: Result<Param, Error>)
        requires
            old(self).wf(),
        ensures
            final(self).kept(*old(self)),
            final(self).errors@ == old(self).errors@,
            parse_err(r),
            r is Ok ==> final(self).current > old(self).current,
    {
        self.match_kind(TokenKind::And);
        self.match_kind(TokenKind::Mut);
        let name = if allow_self && self.match_kind(TokenKind::Self_) {
            "self".to_string()
        } else {
            self.expect_ident()?
        };
        let type_ann = if self.match_kind(TokenKind::Colon) {
            Some(self.parse_type()?)
        } else {
            None
        };
        Ok(Param { name, type_ann })
    }

    /// Read the parameters of a function, up to (not including) the `)`.
    fn param_list(&mut self) -> (r: Result<Vec<Param>, Error>)
        requires
            old(self).wf(),
        ensures
            final(self).kept(*old(self)),
            final(self).errors@ == old(self).errors@,
            parse_err(r),
            old(self).next_is(TokenKindView::CloseParen) ==> (r matches Ok(v) && v@.len() == 0
                && final(self).current == old(self).current),
            !old(self).next_is(TokenKindView::CloseParen) ==> (r matches Ok(v) ==> v@.len() >= 1
                && final(self).current > old(self).current && !final(self).next_is(TokenKindView::Comma)),
    {
        let mut params: Vec<Param> = Vec::new();
        if self.check(&TokenKind::CloseParen) {
            return Ok(params);
        }
        loop
            invariant
                self.kept(*old(self)),
                self.errors@ == old(self).errors@,
                params@.len() >= 1 ==> self.current > old(self).current,
                !old(self).next_is(TokenKindView::CloseParen),
            ensures
                params@.len() >= 1,
                self.current > old(self).current,
                !self.next_is(TokenKindView::Comma),
            decreases self.tokens@.len() - self.current,
        {
            let p = self.param(true)?;
            params.push(p);
            if !self.match_kind(TokenKind::Comma) {
                break;
            }
        }
        Ok(params)
    }

    /// Read the parameters of a closure, up to (not including) the closing `|`.
    fn lambda_param_list(&mut self) -> (r: Result<Vec<Param>, Error>)
        requires
            old(self).wf(),
        ensures
            final(self).kept(*old(self)),
            final(self).errors@ == old(self).errors@,
            parse_err(r),
            old(self).next_is(TokenKindView::Or) || old(self).next_is(TokenKindView::CloseParen) ==> (r matches Ok(v)
                && v@.len() == 0 && final(self).current == old(self).current),
            r matches Ok(v) ==> v@.len() == 0 || final(self).current > old(self).current,
    {
        let mut params: Vec<Param> = Vec::new();
        loop
            invariant
                self.kept(*old(self)),
                self.errors@ == old(self).errors@,
                params@.len() == 0 ==> self.current == old(self).current,
                params@.len() >= 1 ==> self.current > old(self).current,
                params@.len() >= 1 ==> !(old(self).next_is(TokenKindView::Or) || old(self).next_is(TokenKindView::CloseParen)),
            ensures
                params@.len() == 0 || self.current > old(self).current,
                old(self).next_is(TokenKindView::Or) || old(self).next_is(TokenKindView::CloseParen) ==> params@.len() == 0
                    && self.current == old(self).current,
            decreases self.tokens@.len() - self.current,
        {
            if self.check(&TokenKind::Or) || self.check(&TokenKind::CloseParen) {
                break;
            }
            let p = self.param(false)?;
            params.push(p);
            if !self.match_kind(TokenKind::Comma) {
                break;
            }
        }
        Ok(params)
    }

    /// Read the bindings of a variant pattern, up to and including the `)`;
    /// `_` binds nothing and is kept as an empty name.
    fn pattern_bindings(&mut self) -> (r: Result<Vec<String>, Error>)
        requires
            old(self).wf(),
        ensures
            final(self).kept(*old(self)),
            final(self).errors@ == old(self).errors@,
            parse_err(r),
            r is Ok ==> final(self).last_read_is(TokenKindView::CloseParen) && final(self).current > old(self).current,
    {
        let mut b: Vec<String> = Vec::new();
        while !self.check(&TokenKind::CloseParen) && !self.is_at_end()
            invariant
                self.kept(*old(self)),
                self.errors@ == old(self).errors@,
            decreases self.tokens@.len() - self.current,
        {
            let binding = if self.check(&TokenKind::Underscore) {
                self.advance();
                String::new()
            } else {
                self.expect_ident()?
            };
            b.push(binding);
            self.match_kind(TokenKind::Comma);
        }
        self.expect(TokenKind::CloseParen)?;
        Ok(b)
    }

    /// Read a pattern of a `match` arm.
    fn parse_pattern(&mut self) -> (r: Result<Pattern, Error>)
        requires
            old(self).wf(),
        ensures
            final(self).kept(*old(self)),
            final(self).errors@ == old(self).errors@,
            parse_err(r),
            r is Ok ==> final(self).current > old(self).current,
    {
        match &self.tokens[self.current].node.kind {
            TokenKind::Underscore => {
                self.advance();
                Ok(Pattern::Wildcard)
            },
            TokenKind::Int(n) => {
                let v = *n;
                self.advance();
                Ok(Pattern::Int(v))
            },
            TokenKind::Float(f) => {
                let v = f.clone();
                self.advance();
                Ok(Pattern::Float(v))
            },
            TokenKind::Str(s) => {
                let v = s.clone();
                self.advance();
                Ok(Pattern::Str(v))
            },
            TokenKind::Bool(b) => {
                let v = *b;
                self.advance();
                Ok(Pattern::Bool(v))
            },
            TokenKind::Ident(_) => {
                let name = self.expect_ident()?;
                if self.match_kind(TokenKind::ColonColon) {
                    let variant = self.expect_ident()?;
                    let bindings = if self.match_kind(TokenKind::OpenParen) {
                        self.pattern_bindings()?
                    } else {
                        Vec::new()
                    };
                    return Ok(Pattern::EnumVariant { enum_name: Some(name), variant_name: variant, bindings });
                }
                if self.match_kind(TokenKind::OpenParen) {
                    let bindings = self.pattern_bindings()?;
                    Ok(Pattern::EnumVariant { enum_name: None, variant_name: name, bindings })
                } else if starts_uppercase(&name) {
                    Ok(Pattern::EnumVariant { enum_name: None, variant_name: name, bindings: Vec::new() })
                } else {
                    Ok(Pattern::Ident(name))
                }
            },
            _ => Err(self.error("expected pattern")),
        }
    }
}

/// Whether the first character of `s` is uppercase.
fn starts_uppercase(s: &String) -> (b: bool)
    ensures
        b == (s@.len() > 0 && uppercase(s@[0])),
{
    let chars = chars_of(s.as_str());
    chars.len() > 0 && char_is_uppercase(chars[0])
}

/// `t` with each `cc` pair (read from the left) written as one `c`.
pub open spec fn collapse(t: Seq<char>, c: char) -> Seq<char>
    decreases t.len(),
{
    if t.len() == 0 {
        t
    } else if t.len() >= 2 && t[0] == c && t[1] == c {
        seq![c] + collapse(t.subrange(2, t.len() as int), c)
    } else {
        seq![t[0]] + collapse(t.subrange(1, t.len() as int), c)
    }
}

/// The characters `t[lo..hi]` with `cc` pairs written as one `c`.
fn collapse_pairs(t: &Vec<char>, lo: usize, hi: usize, c: char) -> (r: Vec<char>)
    requires
        lo <= hi <= t@.len(),
    ensures
        r@ == collapse(t@.subrange(lo as int, hi as int), c),
{
    let mut out: Vec<char> = Vec::new();
    let mut i = lo;
    while i < hi
        invariant
            lo <= i <= hi <= t@.len(),
            out@ + collapse(t@.subrange(i as int, hi as int), c) == collapse(t@.subrange(lo as int, hi as int), c),
        decreases hi - i,
    {
        let ghost rest = t@.subrange(i as int, hi as int);
        if i + 1 < hi && t[i] == c && t[i + 1] == c {
            proof {
                assert(rest.subrange(2, rest.len() as int) =~= t@.subrange(i + 2, hi as int));
                assert(out@.push(c) + collapse(t@.subrange(i + 2, hi as int), c) =~= out@ + collapse(rest, c));
            }
            out.push(c);
            i = i + 2;
        } else {
            proof {
                assert(rest.subrange(1, rest.len() as int) =~= t@.subrange(i + 1, hi as int));
                assert(out@.push(t@[i as int]) + collapse(t@.subrange(i + 1, hi as int), c) =~= out@ + collapse(rest, c));
            }
            out.push(t[i]);
            i = i + 1;
        }
    }
    proof {
        assert(t@.subrange(hi as int, hi as int) =~= Seq::<char>::empty());
        assert(out@ + Seq::<char>::empty() =~= out@);
    }
    out
}

/// The text `t[lo..hi]` of an interpolated string, with `{{` and `}}` unescaped.
fn literal_part(t: &Vec<char>, lo: usize, hi: usize) -> (r: String)
    requires
        lo <= hi <= t@.len(),
    ensures
        r@ == collapse(collapse(t@.subrange(lo as int, hi as int), '{'), '}'),
{
    let once = collapse_pairs(t, lo, hi, '{');
    let twice = collapse_pairs(&once, 0, once.len(), '}');
    proof {
        assert(once@.subrange(0, once@.len() as int) =~= once@);
    }
    string_of(&twice, 0, twice.len())
}

/// Parse the text of an interpolation `{...}` inside a string literal: it
/// must be exactly one expression.
fn parse_interpolated_expr(source: &str) -> (r: Result<Expr, Error>)
    requires
        source@.len() <= usize::MAX / 4,
    ensures
        parse_err(r),
        source@.len() > 0 && source@.last() == '\\' ==> (r matches Err(Error::Parse { msg, .. })
            && msg@ == "invalid interpolation expression: multiple parse errors"@),
    decreases source@.len() as int + 1, 0int, 0int,
{
    let chars = chars_of(source);
    let n = chars.len();
    if n > 0 && chars[n - 1] == '\\' {
        return Err(interpolation_error(source));
    }
    proof {
        lemma_text_fits_short(source@);
        lemma_lexable_without_trailing_backslash(source@, 0);
    }
    let tokens = match Lexer::new(source).tokenize() {
        Ok(t) => t,
        Err(_) => {
            return Err(interpolation_error(source));
        },
    };
    proof {
        lemma_lexed_parser_input(source@, tokens@);
    }
    let mut parser = Parser::new(source, tokens.as_slice());
    let expr = parser.expression(Precedence::Lowest)?;
    if !parser.is_at_end() {
        return Err(parser.error("unexpected tokens after interpolation expression"));
    }
    Ok(expr)
}

/// The error for an interpolation whose text does not read as tokens: it
/// covers the whole text and points at line 1, column 1.
fn interpolation_error(source: &str) -> (e: Error)
    ensures
        e matches Error::Parse { location, msg } && location.file is None
            && location.span == Span(0, source.spec_bytes().len() as usize) && location.line == 1 && location.column == 1
            && msg@ == "invalid interpolation expression: multiple parse errors"@,
{
    let mut m = String::new();
    push_str_chars(&mut m, "invalid interpolation expression: multiple parse errors");
    let len = source.as_bytes().len();
    Error::Parse { location: SourceLocation::new(None, Span::new(0, len), 1, 1), msg: m }
}

impl<'a> Parser<'a> {
    /// Read the whole token list. Succeeds with the program when no error was
    /// found; fails with every error found otherwise.
    pub fn parse(self) -> (r: Result<Program, Error>)
        requires
            self.wf(),
            self.errs().len() == 0,
        ensures
            match r {
                Ok(prog) => prog.stmts@.len() == 0 <==> self.at_end(),
                Err(e) => e matches Error::ParseMultiple { errors } && errors@.len() > 0
                    && forall|i: int| 0 <= i < errors@.len() ==> (#[trigger] errors@[i]) is Parse,
            },
            self.at_end() ==> r is Ok,
            pratt_program(kinds_of(self.toks()), self.pos()) matches Some(es) ==> (r matches Ok(prog)
                && prog.stmts@.len() == es.len()
                && forall|k: int| 0 <= k < es.len() ==> expr_stmt_shaped((#[trigger] prog.stmts@[k]).node, es[k])),
    {
        let mut p = self;
        let mut stmts: Vec<Spanned<Stmt>> = Vec::new();
        let ghost target = pratt_program(kinds_of(self.tokens@), self.current as int);
        let ghost es = target->0;
        while !p.is_at_end()
            invariant
                p.wf(),
                p.tokens@ == self.tokens@,
                self.current <= p.current,
                p.current == self.current ==> stmts@.len() == 0,
                stmts@.len() == 0 && p.errors@.len() == 0 ==> p.current == self.current,
                self.at_end() ==> p.current == self.current,
                self.at_end() ==> p.errors@.len() == 0,
                target == pratt_program(kinds_of(self.tokens@), self.current as int),
                es == target->0,
                target is Some ==> {
                    &&& p.errors@.len() == 0
                    &&& stmts@.len() <= es.len()
                    &&& pratt_program(kinds_of(p.tokens@), p.current as int) == Some(es.subrange(stmts@.len() as int, es.len() as int))
                    &&& forall|k: int| 0 <= k < stmts@.len() ==> expr_stmt_shaped((#[trigger] stmts@[k]).node, es[k])
                },
            decreases p.tokens@.len() - p.current,
        {
            let ghost before = p;
            let ghost n = stmts@.len() as int;
            let ghost prev = stmts@;
            proof {
                if target is Some {
                    assert(!(p.tokens@[p.current as int].node.kind is Eof));
                    assert(pratt_stmt(kinds_of(p.tokens@), p.current as int) is Some);
                }
            }
            match p.declaration() {
                Ok(stmt) => {
                    stmts.push(stmt);
                    proof {
                        if target is Some {
                            let (e, j) = pratt_stmt(kinds_of(before.tokens@), before.current as int)->0;
                            let rest = pratt_program(kinds_of(before.tokens@), j)->0;
                            assert(es.subrange(n, es.len() as int) == seq![e] + rest);
                            assert(es[n] == e) by {
                                assert(es.subrange(n, es.len() as int)[0] == es[n]);
                            }
                            assert(es.subrange(n + 1, es.len() as int) =~= rest) by {
                                assert forall|x: int| 0 <= x < rest.len() implies es.subrange(n + 1, es.len() as int)[x] == rest[x] by {
                                    assert(es.subrange(n, es.len() as int)[x + 1] == es[n + 1 + x]);
                                }
                            }
                            assert forall|k: int| 0 <= k < stmts@.len() implies expr_stmt_shaped((#[trigger] stmts@[k]).node, es[k]) by {
                                if k < n {
                                    assert(stmts@[k] == prev[k]);
                                }
                            }
                        }
                    }
                },
                Err(e) => {
                    p.errors.push(e);
                    p.synchronize();
                },
            }
        }
        proof {
            if target is Some {
                assert(es.subrange(stmts@.len() as int, es.len() as int).len() == 0);
            }
        }
        if p.errors.len() == 0 {
            Ok(Program { stmts })
        } else {
            Err(Error::ParseMultiple { errors: p.errors })
        }
    }

    fn declaration(&mut self) -> (r: Result<Spanned<Stmt>, Error>)
        requires
            old(self).wf(),
        ensures
            final(self).kept(*old(self)),
            parse_err(r),
            r is Ok ==> final(self).current > old(self).current,
            pratt_stmt(kinds_of(old(self).tokens@), old(self).current as int) matches Some((e, p))
                ==> (r matches Ok(st) && expr_stmt_shaped(st.node, e)) && final(self).current == p && final(self).errors@ == old(self).errors@,
        decreases old(self).source@.len() as int, old(self).tokens@.len() - old(self).current, 9int,
    {
        proof {
            if pratt_stmt(kinds_of(self.tokens@), self.current as int) is Some {
                lemma_pratt_start(kinds_of(self.tokens@), self.current as int);
                assert(kinds_of(self.tokens@)[self.current as int] == self.tokens@[self.current as int].node.kind@);
            }
        }
        self.declaration_with_vis(Vis::Private)
    }

    #[verifier::rlimit(40)]
    fn declaration_with_vis(&mut self, vis: Vis) -> (r: Result<Spanned<Stmt>, Error>)
        requires
            old(self).wf(),
        ensures
            final(self).kept(*old(self)),
            parse_err(r),
            r is Ok ==> final(self).current > old(self).current,
            pratt_stmt(kinds_of(old(self).tokens@), old(self).current as int) matches Some((e, p))
                ==> (r matches Ok(st) && expr_stmt_shaped(st.node, e)) && final(self).current == p && final(self).errors@ == old(self).errors@,
        decreases old(self).source@.len() as int, old(self).tokens@.len() - old(self).current, 8int,
    {
        proof {
            if pratt_stmt(kinds_of(self.tokens@), self.current as int) is Some {
                lemma_pratt_start(kinds_of(self.tokens@), self.current as int);
                assert(kinds_of(self.tokens@)[self.current as int] == self.tokens@[self.current as int].node.kind@);
            }
        }
        if self.match_kind(TokenKind::Fn) {
            self.function_decl(vis)
        } else if self.match_kind(TokenKind::Struct) {
            self.struct_decl(vis)
        } else if self.match_kind(TokenKind::Enum) {
            self.enum_decl(vis)
        } else if self.match_kind(TokenKind::Impl) {
            self.impl_decl()
        } else if self.match_kind(TokenKind::Trait) {
            self.trait_decl(vis)
        } else if self.match_kind(TokenKind::Use) {
            self.use_decl(vis)
        } else if self.match_kind(TokenKind::Mod) {
            self.mod_decl(vis)
        } else if self.match_kind(TokenKind::Const) {
            self.const_decl(vis)
        } else if self.match_kind(TokenKind::Opaque) {
            self.expect(TokenKind::Type)?;
            self.type_decl(vis, true)
        } else if self.match_kind(TokenKind::Type) {
            self.type_decl(vis, false)
        } else if self.match_kind(TokenKind::Pub) {
            self.declaration_with_vis(Vis::Public)
        } else {
            self.statement()
        }
    }

    fn use_decl(&mut self, vis: Vis) -> (r: Result<Spanned<Stmt>, Error>)
        requires
            old(self).wf(),
            old(self).current >= 1,
        ensures
            final(self).kept(*old(self)),
            final(self).errors@ == old(self).errors@,
            parse_err(r),
            r is Ok ==> final(self).current > old(self).current,
    {
        let start = self.prev_span();
        let mut path: Vec<String> = Vec::new();
        let first = self.expect_ident()?;
        path.push(first);
        while self.match_kind(TokenKind::ColonColon)
            invariant
                self.kept(*old(self)),
                self.errors@ == old(self).errors@,
                self.current > old(self).current,
            decreases self.tokens@.len() - self.current,
        {
            let next = self.expect_ident()?;
            path.push(next);
        }
        self.expect(TokenKind::Semi)?;
        let span = start.merge(&self.prev_span());
        Ok(Spanned::new(Stmt::Use { vis, path }, span))
    }

    fn mod_decl(&mut self, vis: Vis) -> (r: Result<Spanned<Stmt>, Error>)
        requires
            old(self).wf(),
            old(self).current >= 1,
        ensures
            final(self).kept(*old(self)),
            parse_err(r),
            r is Ok ==> final(self).current > old(self).current,
        decreases old(self).source@.len() as int, old(self).tokens@.len() - old(self).current, 0int,
    {
        let start = self.prev_span();
        let name = self.expect_ident()?;
        let body = if self.match_kind(TokenKind::Semi) {
            Vec::new()
        } else {
            self.block_stmts()?
        };
        let span = start.merge(&self.prev_span());
        Ok(Spanned::new(Stmt::Mod { vis, name, body }, span))
    }

    fn statement(&mut self) -> (r: Result<Spanned<Stmt>, Error>)
        requires
            old(self).wf(),
        ensures
            final(self).kept(*old(self)),
            parse_err(r),
            r is Ok ==> final(self).current > old(self).current,
            pratt_stmt(kinds_of(old(self).tokens@), old(self).current as int) matches Some((e, p))
                ==> (r matches Ok(st) && expr_stmt_shaped(st.node, e)) && final(self).current == p && final(self).errors@ == old(self).errors@,
        decreases old(self).source@.len() as int, old(self).tokens@.len() - old(self).current, 7int,
    {
        proof {
            if pratt_stmt(kinds_of(self.tokens@), self.current as int) is Some {
                lemma_pratt_start(kinds_of(self.tokens@), self.current as int);
                assert(kinds_of(self.tokens@)[self.current as int] == self.tokens@[self.current as int].node.kind@);
            }
        }
        self.statement_with_vis(Vis::Private)
    }

    /// A control-flow expression used as a statement, with an optional `;`.
    fn flow_stmt(&mut self, which: u8) -> (r: Result<Spanned<Stmt>, Error>)
        requires
            old(self).wf(),
            !old(self).at_end(),
        ensures
            final(self).kept(*old(self)),
            parse_err(r),
            r is Ok ==> final(self).current > old(self).current,
        decreases old(self).source@.len() as int, old(self).tokens@.len() - old(self).current, 5int,
    {
        let start = self.tokens[self.current].span.start();
        let expr = if which == 0 {
            self.if_stmt()?
        } else if which == 1 {
            self.while_stmt()?
        } else if which == 2 {
            self.for_stmt()?
        } else {
            self.loop_stmt()?
        };
        let end = self.prev_span().end();
        self.match_kind(TokenKind::Semi);
        Ok(Spanned::new(Stmt::Expr(expr), Span::new(start, end)))
    }

    #[verifier::rlimit(40)]
    fn statement_with_vis(&mut self, vis: Vis) -> (r: Result<Spanned<Stmt>, Error>)
        requires
            old(self).wf(),
        ensures
            final(self).kept(*old(self)),
            parse_err(r),
            r is Ok ==> final(self).current > old(self).current,
            pratt_stmt(kinds_of(old(self).tokens@), old(self).current as int) matches Some((e, p))
                ==> (r matches Ok(st) && expr_stmt_shaped(st.node, e)) && final(self).current == p && final(self).errors@ == old(self).errors@,
        decreases old(self).source@.len() as int, old(self).tokens@.len() - old(self).current, 6int,
    {
        proof {
            if pratt_stmt(kinds_of(self.tokens@), self.current as int) is Some {
                lemma_pratt_start(kinds_of(self.tokens@), self.current as int);
                assert(kinds_of(self.tokens@)[self.current as int] == self.tokens@[self.current as int].node.kind@);
            }
        }
        if self.match_kind(TokenKind::Fn) {
            self.function_decl(vis)
        } else if self.match_kind(TokenKind::Struct) {
            self.struct_decl(vis)
        } else if self.match_kind(TokenKind::Enum) {
            self.enum_decl(vis)
        } else if self.match_kind(TokenKind::Impl) {
            self.impl_decl()
        } else if self.match_kind(TokenKind::Trait) {
            self.trait_decl(vis)
        } else if self.match_kind(TokenKind::Use) {
            self.use_decl(vis)
        } else if self.match_kind(TokenKind::Mod) {
            self.mod_decl(vis)
        } else if self.match_kind(TokenKind::Const) {
            self.const_decl(vis)
        } else if self.match_kind(TokenKind::Opaque) {
            self.expect(TokenKind::Type)?;
            self.type_decl(vis, true)
        } else if self.match_kind(TokenKind::Type) {
            self.type_decl(vis, false)
        } else if self.match_kind(TokenKind::Pub) {
            self.statement_with_vis(Vis::Public)
        } else if self.match_kind(TokenKind::Let) {
            self.let_stmt()
        } else if self.check(&TokenKind::If) {
            self.flow_stmt(0)
        } else if self.check(&TokenKind::While) {
            self.flow_stmt(1)
        } else if self.check(&TokenKind::For) {
            self.flow_stmt(2)
        } else if self.check(&TokenKind::Loop) {
            self.flow_stmt(3)
        } else if self.match_kind(TokenKind::Return) {
            self.return_stmt()
        } else if self.match_kind(TokenKind::Yield) {
            self.yield_stmt()
        } else if self.match_kind(TokenKind::Break) {
            let span = self.prev_span();
            self.match_kind(TokenKind::Semi);
            Ok(Spanned::new(Stmt::Expr(Expr::Break), span))
        } else if self.match_kind(TokenKind::Continue) {
            let span = self.prev_span();
            self.match_kind(TokenKind::Semi);
            Ok(Spanned::new(Stmt::Expr(Expr::Continue), span))
        } else {
            self.expr_stmt()
        }
    }

    fn const_decl(&mut self, vis: Vis) -> (r: Result<Spanned<Stmt>, Error>)
        requires
            old(self).wf(),
            old(self).current >= 1,
        ensures
            final(self).kept(*old(self)),
            parse_err(r),
            r is Ok ==> final(self).current > old(self).current,
        decreases old(self).source@.len() as int, old(self).tokens@.len() - old(self).current, 0int,
    {
        let start = self.prev_span();
        let name = self.expect_ident()?;
        let type_ann = if self.match_kind(TokenKind::Colon) {
            Some(self.parse_type()?)
        } else {
            None
        };
        self.expect(TokenKind::Eq)?;
        let init = self.expression(Precedence::Lowest)?;
        self.expect(TokenKind::Semi)?;
        let span = start.merge(&self.prev_span());
        Ok(Spanned::new(Stmt::Const { vis, name, type_ann, init }, span))
    }

    fn type_decl(&mut self, vis: Vis, opaque: bool) -> (r: Result<Spanned<Stmt>, Error>)
        requires
            old(self).wf(),
            old(self).current >= 1,
        ensures
            final(self).kept(*old(self)),
            final(self).errors@ == old(self).errors@,
            parse_err(r),
            r is Ok ==> final(self).current > old(self).current,
    {
        let start = self.prev_span();
        let name = self.expect_ident()?;
        let type_params = self.parse_type_params()?;
        self.expect(TokenKind::Eq)?;
        let alias = self.parse_type()?;
        self.expect(TokenKind::Semi)?;
        let span = start.merge(&self.prev_span());
        Ok(Spanned::new(Stmt::Type { vis, opaque, name, type_params, alias }, span))
    }

    fn let_stmt(&mut self) -> (r: Result<Spanned<Stmt>, Error>)
        requires
            old(self).wf(),
            old(self).current >= 1,
        ensures
            final(self).kept(*old(self)),
            parse_err(r),
            r is Ok ==> final(self).current > old(self).current,
        decreases old(self).source@.len() as int, old(self).tokens@.len() - old(self).current, 0int,
    {
        let start = self.prev_span();
        let mutable = self.match_kind(TokenKind::Mut);
        let name = self.expect_ident()?;
        let type_ann = if self.match_kind(TokenKind::Colon) {
            Some(self.parse_type()?)
        } else {
            None
        };
        let init = if self.match_kind(TokenKind::Eq) {
            Some(self.expression(Precedence::Lowest)?)
        } else {
            None
        };
        self.expect(TokenKind::Semi)?;
        let span = start.merge(&self.prev_span());
        Ok(Spanned::new(Stmt::Let { mutable, name, type_ann, init }, span))
    }

    fn expr_stmt(&mut self) -> (r: Result<Spanned<Stmt>, Error>)
        requires
            old(self).wf(),
        ensures
            final(self).kept(*old(self)),
            parse_err(r),
            r is Ok ==> final(self).current > old(self).current,
            pratt_stmt(kinds_of(old(self).tokens@), old(self).current as int) matches Some((e, p))
                ==> (r matches Ok(st) && expr_stmt_shaped(st.node, e)) && final(self).current == p && final(self).errors@ == old(self).errors@,
        decreases old(self).source@.len() as int, old(self).tokens@.len() - old(self).current, 4int,
    {
        let start = self.tokens[self.current].span.start();
        let expr = self.expression(Precedence::Lowest)?;
        let end = self.prev_span().end();
        self.match_kind(TokenKind::Semi);
        Ok(Spanned::new(Stmt::Expr(expr), Span::new(start, end)))
    }

    fn return_stmt(&mut self) -> (r: Result<Spanned<Stmt>, Error>)
        requires
            old(self).wf(),
            old(self).current >= 1,
        ensures
            final(self).kept(*old(self)),
            parse_err(r),
            old(self).next_is(TokenKindView::Semi) || old(self).next_is(TokenKindView::CloseBrace) ==> (r matches Ok(
                s,
            ) && s.node matches Stmt::Return(None)),
            r matches Ok(s) ==> s.node matches Stmt::Return(v) && (v is None <==> (old(self).next_is(TokenKindView::Semi)
                || old(self).next_is(TokenKindView::CloseBrace))),
        decreases old(self).source@.len() as int, old(self).tokens@.len() - old(self).current, 4int,
    {
        let start = self.prev_span();
        let value = if self.check(&TokenKind::Semi) || self.check(&TokenKind::CloseBrace) {
            None
        } else {
            Some(self.expression(Precedence::Lowest)?)
        };
        self.match_kind(TokenKind::Semi);
        let span = start.merge(&self.prev_span());
        Ok(Spanned::new(Stmt::Return(value), span))
    }

    fn yield_stmt(&mut self) -> (r: Result<Spanned<Stmt>, Error>)
        requires
            old(self).wf(),
            old(self).current >= 1,
        ensures
            final(self).kept(*old(self)),
            parse_err(r),
            old(self).next_is(TokenKindView::Semi) || old(self).next_is(TokenKindView::CloseBrace) ==> (r matches Ok(
                s,
            ) && s.node matches Stmt::Expr(Expr::Yield(v)) && *v == Expr::Unit),
            r matches Ok(s) ==> s.node matches Stmt::Expr(Expr::Yield(_)),
        decreases old(self).source@.len() as int, old(self).tokens@.len() - old(self).current, 4int,
    {
        let start = self.prev_span();
        let value = if self.check(&TokenKind::Semi) || self.check(&TokenKind::CloseBrace) {
            Expr::Unit
        } else {
            self.expression(Precedence::Lowest)?
        };
        self.match_kind(TokenKind::Semi);
        let span = start.merge(&self.prev_span());
        Ok(Spanned::new(Stmt::Expr(Expr::Yield(Box::new(value))), span))
    }

    fn function_decl(&mut self, vis: Vis) -> (r: Result<Spanned<Stmt>, Error>)
        requires
            old(self).wf(),
            old(self).current >= 1,
        ensures
            final(self).kept(*old(self)),
            parse_err(r),
            r is Ok ==> final(self).current > old(self).current,
        decreases old(self).source@.len() as int, old(self).tokens@.len() - old(self).current, 0int,
    {
        let start = self.prev_span();
        let name = self.expect_ident()?;
        let type_params = self.parse_type_params()?;
        self.expect(TokenKind::OpenParen)?;
        let params = self.param_list()?;
        self.expect(TokenKind::CloseParen)?;
        let return_type = if self.match_kind(TokenKind::Arrow) {
            Some(self.parse_type()?)
        } else {
            None
        };
        let body = self.block_stmts()?;
        let span = start.merge(&self.prev_span());
        Ok(Spanned::new(Stmt::Fn { vis, name, type_params, params, return_type, body }, span))
    }

    fn struct_decl(&mut self, vis: Vis) -> (r: Result<Spanned<Stmt>, Error>)
        requires
            old(self).wf(),
            old(self).current >= 1,
        ensures
            final(self).kept(*old(self)),
            final(self).errors@ == old(self).errors@,
            parse_err(r),
            r is Ok ==> final(self).current > old(self).current,
    {
        let start = self.prev_span();
        let name = self.expect_ident()?;
        let type_params = self.parse_type_params()?;
        self.expect(TokenKind::OpenBrace)?;
        let mut fields: Vec<StructField> = Vec::new();
        while !self.check(&TokenKind::CloseBrace) && !self.is_at_end()
            invariant
                self.kept(*old(self)),
                self.errors@ == old(self).errors@,
                self.current > old(self).current,
            decreases self.tokens@.len() - self.current,
        {
            let fname = self.expect_ident()?;
            self.expect(TokenKind::Colon)?;
            let ftype = self.parse_type()?;
            fields.push(StructField { name: fname, type_ann: ftype });
            self.match_kind(TokenKind::Comma);
        }
        self.expect(TokenKind::CloseBrace)?;
        let span = start.merge(&self.prev_span());
        Ok(Spanned::new(Stmt::Struct { vis, name, type_params, fields }, span))
    }

    fn enum_decl(&mut self, vis: Vis) -> (r: Result<Spanned<Stmt>, Error>)
        requires
            old(self).wf(),
            old(self).current >= 1,
        ensures
            final(self).kept(*old(self)),
            final(self).errors@ == old(self).errors@,
            parse_err(r),
            r is Ok ==> final(self).current > old(self).current,
    {
        let start = self.prev_span();
        let name = self.expect_ident()?;
        let type_params = self.parse_type_params()?;
        self.expect(TokenKind::OpenBrace)?;
        let mut variants: Vec<EnumVariant> = Vec::new();
        while !self.check(&TokenKind::CloseBrace) && !self.is_at_end()
            invariant
                self.kept(*old(self)),
                self.errors@ == old(self).errors@,
                self.current > old(self).current,
            decreases self.tokens@.len() - self.current,
        {
            let ghost outer = self.current as int;
            let vname = self.expect_ident()?;
            let mut fields: Vec<Type> = Vec::new();
            if self.match_kind(TokenKind::OpenParen) {
                while !self.check(&TokenKind::CloseParen) && !self.is_at_end()
                    invariant
                        self.kept(*old(self)),
                        self.errors@ == old(self).errors@,
                        self.current > outer,
                        outer >= old(self).current,
                    decreases self.tokens@.len() - self.current,
                {
                    let t = self.parse_type()?;
                    fields.push(t);
                    self.match_kind(TokenKind::Comma);
                }
                self.expect(TokenKind::CloseParen)?;
            }
            variants.push(EnumVariant { name: vname, fields });
            self.match_kind(TokenKind::Comma);
        }
        self.expect(TokenKind::CloseBrace)?;
        let span = start.merge(&self.prev_span());
        Ok(Spanned::new(Stmt::Enum { vis, name, type_params, variants }, span))
    }

    fn impl_decl(&mut self) -> (r: Result<Spanned<Stmt>, Error>)
        requires
            old(self).wf(),
            old(self).current >= 1,
        ensures
            final(self).kept(*old(self)),
            parse_err(r),
            r is Ok ==> final(self).current > old(self).current,
        decreases old(self).source@.len() as int, old(self).tokens@.len() - old(self).current, 0int,
    {
        let start = self.prev_span();
        let type_params = self.parse_type_params()?;
        let first_ident = self.expect_ident()?;
        let (trait_name, self_type) = if self.match_kind(TokenKind::For) {
            let t = self.expect_ident()?;
            (Some(first_ident), t)
        } else {
            (None, first_ident)
        };
        self.expect(TokenKind::OpenBrace)?;
        let mut methods: Vec<Spanned<Stmt>> = Vec::new();
        while !self.check(&TokenKind::CloseBrace) && !self.is_at_end()
            invariant
                self.kept(*old(self)),
                self.current > old(self).current,
            decreases self.tokens@.len() - self.current,
        {
            if self.match_kind(TokenKind::Fn) {
                let method = self.function_decl(Vis::Private)?;
                methods.push(method);
            } else {
                return Err(self.error("expected method declaration inside impl block"));
            }
        }
        self.expect(TokenKind::CloseBrace)?;
        let span = start.merge(&self.prev_span());
        Ok(Spanned::new(Stmt::Impl { self_type, type_params, trait_name, methods }, span))
    }

    fn trait_decl(&mut self, vis: Vis) -> (r: Result<Spanned<Stmt>, Error>)
        requires
            old(self).wf(),
            old(self).current >= 1,
        ensures
            final(self).kept(*old(self)),
            final(self).errors@ == old(self).errors@,
            parse_err(r),
            r is Ok ==> final(self).current > old(self).current,
    {
        let start = self.prev_span();
        let type_params = self.parse_type_params()?;
        let name = self.expect_ident()?;
        self.expect(TokenKind::OpenBrace)?;
        let mut methods: Vec<Spanned<Stmt>> = Vec::new();
        while !self.check(&TokenKind::CloseBrace) && !self.is_at_end()
            invariant
                self.kept(*old(self)),
                self.errors@ == old(self).errors@,
                self.current > old(self).current,
            decreases self.tokens@.len() - self.current,
        {
            if self.match_kind(TokenKind::Fn) {
                let fn_name = self.expect_ident()?;
                let method_type_params = self.parse_type_params()?;
                self.expect(TokenKind::OpenParen)?;
                let params = self.param_list()?;
                self.expect(TokenKind::CloseParen)?;
                let return_type = if self.match_kind(TokenKind::Arrow) {
                    Some(self.parse_type()?)
                } else {
                    None
                };
                self.expect(TokenKind::Semi)?;
                let span = start.merge(&self.prev_span());
                methods.push(
                    Spanned::new(
                        Stmt::Fn {
                            vis: Vis::Private,
                            name: fn_name,
                            type_params: method_type_params,
                            params,
                            return_type,
                            body: Vec::new(),
                        },
                        span,
                    ),
                );
            } else {
                return Err(self.error("expected method signature inside trait block"));
            }
        }
        self.expect(TokenKind::CloseBrace)?;
        let span = start.merge(&self.prev_span());
        Ok(Spanned::new(Stmt::Trait { vis, name, type_params, methods }, span))
    }
}

/// An operator token that reads as a binary operation.
pub open spec fn binary_token(k: TokenKindView) -> bool {
    match k {
        TokenKindView::Eq | TokenKindView::OrOr | TokenKindView::AndAnd | TokenKindView::EqEq | TokenKindView::Ne
        | TokenKindView::Lt | TokenKindView::Le | TokenKindView::Gt | TokenKindView::Ge | TokenKindView::Plus
        | TokenKindView::Minus | TokenKindView::Star | TokenKindView::Slash | TokenKindView::Percent
        | TokenKindView::And | TokenKindView::Or | TokenKindView::Caret | TokenKindView::Shl | TokenKindView::Shr => true,
        _ => false,
    }
}

fn is_binary_token(k: &TokenKind) -> (b: bool)
    ensures
        b == binary_token(k@),
        b ==> binop_of(k@) is Some,
{
    match k {
        TokenKind::Eq | TokenKind::OrOr | TokenKind::AndAnd | TokenKind::EqEq | TokenKind::Ne | TokenKind::Lt
        | TokenKind::Le | TokenKind::Gt | TokenKind::Ge | TokenKind::Plus | TokenKind::Minus | TokenKind::Star
        | TokenKind::Slash | TokenKind::Percent | TokenKind::And | TokenKind::Or | TokenKind::Caret | TokenKind::Shl
        | TokenKind::Shr => true,
        _ => false,
    }
}

fn is_compound_token(k: &TokenKind) -> (b: bool)
    ensures
        b == is_compound(k@),
{
    match k {
        TokenKind::PlusEq | TokenKind::MinusEq | TokenKind::StarEq | TokenKind::SlashEq | TokenKind::PercentEq
        | TokenKind::AndEq | TokenKind::OrEq | TokenKind::CaretEq | TokenKind::ShlEq | TokenKind::ShrEq => true,
        _ => false,
    }
}

/// The arms of the `match` that `expr?` stands for: `Ok(val) => val` and
/// `Err(e) => return Err(e)`, without guards.
pub open spec fn try_arms(ok: MatchArm, err: MatchArm) -> bool {
    &&& ok.pattern matches Pattern::EnumVariant { enum_name: None, variant_name, bindings } && variant_name@ == "Ok"@
        && bindings@.len() == 1 && bindings@[0]@ == "val"@
    &&& ok.guard is None
    &&& *ok.body matches Expr::Ident(n) && n@ == "val"@
    &&& err.pattern matches Pattern::EnumVariant { enum_name: None, variant_name, bindings } && variant_name@ == "Err"@
        && bindings@.len() == 1 && bindings@[0]@ == "e"@
    &&& err.guard is None
    &&& *err.body matches Expr::Return(Some(c)) && *c matches Expr::Call { func, args } && *func matches Expr::Ident(f)
        && f@ == "Err"@ && args@.len() == 1 && (args@[0] matches Expr::Ident(a) && a@ == "e"@)
}

/// The `match` that `expr?` stands for: `Ok(val) => val`, `Err(e) => return Err(e)`.
fn try_desugar(expr: Expr) -> (r: Expr)
    ensures
        r matches Expr::Match { expr: e, arms } && *e == expr && arms@.len() == 2 && try_arms(arms@[0], arms@[1]),
{
    let ok_arm = MatchArm {
        pattern: Pattern::EnumVariant {
            enum_name: None,
            variant_name: "Ok".to_string(),
            bindings: vec!["val".to_string()],
        },
        guard: None,
        body: Box::new(Expr::Ident("val".to_string())),
    };
    let err_arm = MatchArm {
        pattern: Pattern::EnumVariant {
            enum_name: None,
            variant_name: "Err".to_string(),
            bindings: vec!["e".to_string()],
        },
        guard: None,
        body: Box::new(
            Expr::Return(
                Some(
                    Box::new(
                        Expr::Call {
                            func: Box::new(Expr::Ident("Err".to_string())),
                            args: vec![Expr::Ident("e".to_string())],
                        },
                    ),
                ),
            ),
        ),
    };
    Expr::Match { expr: Box::new(expr), arms: vec![ok_arm, err_arm] }
}

impl<'a> Parser<'a> {
    /// Read an expression whose infix operators bind at least as strongly as
    /// `precedence`.
    #[verifier::rlimit(60)]
    fn expression(&mut self, precedence: Precedence) -> (r: Result<Expr, Error>)
        requires
            old(self).wf(),
        ensures
            final(self).kept(*old(self)),
            parse_err(r),
            r is Ok ==> final(self).current > old(self).current,
            pratt_expr(kinds_of(old(self).tokens@), old(self).current as int, precedence) matches Some((e, p))
                ==> (r matches Ok(x) && shape_of(x) == e) && final(self).current == p && final(self).errors@ == old(self).errors@,
        decreases old(self).source@.len() as int, old(self).tokens@.len() - old(self).current, 3int,
    {
        let mut expr = self.prefix()?;
        let ghost start = *old(self);
        let ghost target = pratt_expr(kinds_of(start.tokens@), start.current as int, precedence);
        loop
            invariant
                self.kept(start),
                self.current > start.current,
                start == *old(self),
                target == pratt_expr(kinds_of(start.tokens@), start.current as int, precedence),
                target is Some ==> pratt_rest(kinds_of(start.tokens@), self.current as int, shape_of(expr), precedence) == target,
                target is Some ==> self.errors@ == start.errors@,
            ensures
                target is Some ==> target == Some((shape_of(expr), self.current as int)),
            decreases self.tokens@.len() - self.current,
        {
            let tok = self.tokens[self.current].node.kind.duplicate();
            proof {
                assert(tok@ == self.tokens@[self.current as int].node.kind@);
                if target is Some {
                    if !(rank(precedence_of(tok@)) < rank(precedence)) && !binary_token(tok@) && !(tok is OpenParen)
                        && !(tok is OpenBracket) && !(tok is Dot) {
                        assert(ends_operand(tok@));
                        assert(!(tok is DotDot || tok is DotDotEq || tok is ColonColon || tok is Question));
                    }
                }
            }
            let ghost j = self.current as int;
            let ghost ks = kinds_of(start.tokens@);
            proof {
                assert(ks[j] == tok@);
            }
            let op_prec = Precedence::of(&tok);
            if op_prec.rank_u8() < precedence.rank_u8() {
                break;
            }
            if is_binary_token(&tok) {
                self.advance();
                let op = BinOp::from_token(&tok).unwrap();
                let rhs = self.expression(op_prec.next())?;
                expr = Expr::Binary { op, lhs: Box::new(expr), rhs: Box::new(rhs) };
            } else if is_compound_token(&tok) {
                self.advance();
                let op = compound_to_binop(&tok);
                let rhs = self.expression(op_prec.next())?;
                let target = copy_expr(&expr);
                expr = Expr::Binary {
                    op: BinOp::Assign,
                    lhs: Box::new(target),
                    rhs: Box::new(Expr::Binary { op, lhs: Box::new(expr), rhs: Box::new(rhs) }),
                };
            } else if matches!(tok, TokenKind::OpenParen) {
                self.advance();
                let args = self.arg_list()?;
                let ghost m = self.current as int;
                proof {
                    assert(ks[m] == self.tokens@[m].node.kind@);
                }
                self.expect(TokenKind::CloseParen)?;
                let ghost old_expr = expr;
                expr = Expr::Call { func: Box::new(expr), args };
                proof {
                    assert(shape_of(expr) == ExprShape::Call(Box::new(shape_of(old_expr)), shapes_of(args@)));
                }
            } else if matches!(tok, TokenKind::DotDot | TokenKind::DotDotEq) {
                self.advance();
                let inclusive = matches!(tok, TokenKind::DotDotEq);
                let end = self.expression(op_prec.next())?;
                expr = Expr::Range { start: Box::new(expr), end: Box::new(end), inclusive };
            } else if matches!(tok, TokenKind::Dot) {
                self.advance();
                proof {
                    assert(ks[j + 1] == self.tokens@[j + 1].node.kind@);
                }
                let field = self.expect_ident()?;
                proof {
                    assert(ks[j + 2] == self.tokens@[j + 2].node.kind@);
                }
                if self.match_kind(TokenKind::OpenParen) {
                    let args = self.arg_list()?;
                    let ghost m = self.current as int;
                    proof {
                        assert(ks[m] == self.tokens@[m].node.kind@);
                    }
                    self.expect(TokenKind::CloseParen)?;
                    let ghost old_expr = expr;
                    expr = Expr::MethodCall { obj: Box::new(expr), method: field, args };
                    proof {
                        assert(shape_of(expr) == ExprShape::Method(Box::new(shape_of(old_expr)), field@, shapes_of(args@)));
                    }
                } else {
                    let ghost old_expr = expr;
                    expr = Expr::Field { obj: Box::new(expr), field };
                    proof {
                        assert(shape_of(expr) == ExprShape::Field(Box::new(shape_of(old_expr)), field@));
                    }
                }
            } else if matches!(tok, TokenKind::OpenBracket) {
                self.advance();
                let index = self.expression(Precedence::Lowest)?;
                let ghost m = self.current as int;
                proof {
                    assert(ks[m] == self.tokens@[m].node.kind@);
                }
                self.expect(TokenKind::CloseBracket)?;
                let ghost old_expr = expr;
                expr = Expr::Index { obj: Box::new(expr), index: Box::new(index) };
                proof {
                    assert(shape_of(expr) == ExprShape::Index(Box::new(shape_of(old_expr)), Box::new(shape_of(index))));
                }
            } else if matches!(tok, TokenKind::ColonColon) {
                self.advance();
                let variant = self.expect_ident()?;
                let enum_name = match &expr {
                    Expr::Ident(name) => name.clone(),
                    _ => {
                        return Err(self.error("expected enum name before '::'"));
                    },
                };
                let args = if self.match_kind(TokenKind::OpenParen) {
                    let a = self.arg_list()?;
                    self.expect(TokenKind::CloseParen)?;
                    a
                } else {
                    Vec::new()
                };
                expr = Expr::EnumCtor { enum_name, variant_name: variant, args };
            } else if matches!(tok, TokenKind::Question) {
                self.advance();
                expr = try_desugar(expr);
            } else {
                break;
            }
        }
        Ok(expr)
    }

    /// Read the fields of a struct literal after its `{`, up to and including
    /// the `}`.
    fn struct_lit_body(&mut self, name: String) -> (r: Result<Expr, Error>)
        requires
            old(self).wf(),
            old(self).current >= 1,
        ensures
            final(self).kept(*old(self)),
            parse_err(r),
            r matches Ok(e) ==> e is StructLit,
            r is Ok ==> final(self).current > old(self).current,
        decreases old(self).source@.len() as int, old(self).tokens@.len() - old(self).current, 0int,
    {
        let mut fields: Vec<(String, Expr)> = Vec::new();
        let mut spread: Option<Box<Expr>> = None;
        while !self.check(&TokenKind::CloseBrace) && !self.is_at_end()
            invariant
                self.kept(*old(self)),
            decreases self.tokens@.len() - self.current,
        {
            if self.check(&TokenKind::DotDot) {
                self.advance();
                let base = self.expression(Precedence::Lowest)?;
                spread = Some(Box::new(base));
                self.match_kind(TokenKind::Comma);
                break;
            }
            let fname = self.expect_ident()?;
            if self.check(&TokenKind::Comma) || self.check(&TokenKind::CloseBrace) {
                let short = Expr::Ident(fname.clone());
                fields.push((fname, short));
            } else {
                self.expect(TokenKind::Colon)?;
                let val = self.expression(Precedence::Lowest)?;
                fields.push((fname, val));
            }
            self.match_kind(TokenKind::Comma);
        }
        self.expect(TokenKind::CloseBrace)?;
        Ok(Expr::StructLit { name, fields, spread })
    }

    /// Read the operand that starts an expression: a literal, a name, a
    /// unary operation, a group, a block, a control-flow expression, an array,
    /// a range with no start, or a closure.
    fn prefix(&mut self) -> (r: Result<Expr, Error>)
        requires
            old(self).wf(),
        ensures
            final(self).kept(*old(self)),
            parse_err(r),
            r is Ok ==> final(self).current > old(self).current,
            pratt_operand(kinds_of(old(self).tokens@), old(self).current as int) matches Some((e, p))
                ==> (r matches Ok(x) && shape_of(x) == e) && final(self).current == p && final(self).errors@ == old(self).errors@,
            match old(self).tokens@[old(self).current as int].node.kind {
                TokenKind::Int(n) => r == Ok::<Expr, Error>(Expr::Int(n)) && final(self).current == old(self).current + 1,
                TokenKind::Float(f) => (r matches Ok(Expr::Float(g)) && g@ == f@) && final(self).current == old(self).current + 1,
                TokenKind::Bool(b) => r == Ok::<Expr, Error>(Expr::Bool(b)) && final(self).current == old(self).current + 1,
                TokenKind::Underscore => r == Ok::<Expr, Error>(Expr::Unit) && final(self).current == old(self).current + 1,
                TokenKind::Str(t) => !t@.contains('{') ==> (r matches Ok(Expr::Str(u)) && u@ == t@),
                TokenKind::Self_ => (r matches Ok(Expr::Ident(n)) && n@ == "self"@) && final(self).current == old(self).current + 1,
                TokenKind::Ident(name) => r matches Ok(e) ==> (e is Ident || e is StructLit) && (e matches Expr::Ident(n) ==> n@ == name@),
                TokenKind::Minus | TokenKind::Bang | TokenKind::Tilde => r matches Ok(e) ==> (e matches Expr::Unary { op, .. }
                    && Some(op) == crate::ast::unop_of(old(self).tokens@[old(self).current as int].node.kind@)),
                TokenKind::OpenBracket => r matches Ok(e) ==> e is Array,
                TokenKind::OrOr | TokenKind::Or => r matches Ok(e) ==> e is Lambda,
                TokenKind::DotDot | TokenKind::DotDotEq => r matches Ok(e) ==> e is Range,
                TokenKind::Yield => r matches Ok(e) ==> e is Yield,
                TokenKind::OpenParen | TokenKind::OpenBrace | TokenKind::If | TokenKind::While | TokenKind::For
                | TokenKind::Loop | TokenKind::Match => true,
                _ => r is Err,
            },
        decreases old(self).source@.len() as int, old(self).tokens@.len() - old(self).current, 2int,
    {
        let tok = self.tokens[self.current].node.kind.duplicate();
        match tok {
            TokenKind::Int(n) => {
                self.advance();
                Ok(Expr::Int(n))
            },
            TokenKind::Float(f) => {
                self.advance();
                Ok(Expr::Float(f))
            },
            TokenKind::Str(s) => {
                proof {
                    assert(str_shorter(self.tokens@[self.current as int].node.kind@, self.source@.len() as int));
                }
                self.advance();
                self.interpolated_string(s)
            },
            TokenKind::Bool(b) => {
                self.advance();
                Ok(Expr::Bool(b))
            },
            TokenKind::Underscore => {
                self.advance();
                Ok(Expr::Unit)
            },
            TokenKind::Minus | TokenKind::Bang | TokenKind::Tilde => {
                self.advance();
                let op = UnOp::from_token(&tok).unwrap();
                let operand = self.expression(Precedence::Unary)?;
                Ok(Expr::Unary { op, expr: Box::new(operand) })
            },
            TokenKind::OpenParen => {
                self.advance();
                if self.match_kind(TokenKind::CloseParen) {
                    Ok(Expr::Unit)
                } else {
                    let inner = self.expression(Precedence::Lowest)?;
                    self.expect(TokenKind::CloseParen)?;
                    Ok(inner)
                }
            },
            TokenKind::OpenBrace => self.block(),
            TokenKind::If => self.if_stmt(),
            TokenKind::Yield => {
                self.advance();
                let value = self.expression(Precedence::Lowest)?;
                Ok(Expr::Yield(Box::new(value)))
            },
            TokenKind::While => self.while_stmt(),
            TokenKind::For => self.for_stmt(),
            TokenKind::Loop => self.loop_stmt(),
            TokenKind::Match => self.match_expr(),
            TokenKind::Self_ => {
                self.advance();
                Ok(Expr::Ident("self".to_string()))
            },
            TokenKind::Ident(_) => {
                let name = self.expect_ident()?;
                if self.is_struct_lit_start() {
                    self.advance();
                    self.struct_lit_body(name)
                } else {
                    Ok(Expr::Ident(name))
                }
            },
            TokenKind::OpenBracket => {
                self.advance();
                let mut elems: Vec<Expr> = Vec::new();
                while !self.check(&TokenKind::CloseBracket) && !self.is_at_end()
                    invariant
                        self.kept(*old(self)),
                        self.current > old(self).current,
                        old(self).tokens@[old(self).current as int].node.kind is OpenBracket,
                    decreases self.tokens@.len() - self.current,
                {
                    let e = self.expression(Precedence::Lowest)?;
                    elems.push(e);
                    self.match_kind(TokenKind::Comma);
                }
                self.expect(TokenKind::CloseBracket)?;
                Ok(Expr::Array(elems))
            },
            TokenKind::DotDot | TokenKind::DotDotEq => {
                let inclusive = matches!(tok, TokenKind::DotDotEq);
                self.advance();
                let end = self.expression(Precedence::Lowest)?;
                Ok(Expr::Range { start: Box::new(Expr::Int(0)), end: Box::new(end), inclusive })
            },
            TokenKind::OrOr => {
                self.advance();
                let body = self.expression(Precedence::Lowest)?;
                Ok(Expr::Lambda { params: Vec::new(), return_type: None, body: Box::new(body) })
            },
            TokenKind::Or => {
                self.advance();
                let params = self.lambda_param_list()?;
                self.expect(TokenKind::Or)?;
                let body = self.expression(Precedence::Lowest)?;
                Ok(Expr::Lambda { params, return_type: None, body: Box::new(body) })
            },
            _ => Err(self.unexpected_token()),
        }
    }

    /// `unexpected token '<lexeme>'`, at the next token.
    fn unexpected_token(&self) -> (e: Error)
        requires
            self.wf(),
        ensures
            e matches Error::Parse { location, msg: m } && location.span == self.tokens@[self.current as int].span
                && location.file is None
                && m@ == "unexpected token '"@ + self.tokens@[self.current as int].node.lexeme@ + "'"@,
    {
        let mut m = String::new();
        push_str_chars(&mut m, "unexpected token '");
        push_str_chars(&mut m, self.tokens[self.current].node.lexeme.as_str());
        push_str_chars(&mut m, "'");
        self.error(m.as_str())
    }

    /// Read the contents of a string literal: plain text, or, when it holds
    /// `{expr}` interpolations, the concatenation of its text parts (with
    /// `{{` and `}}` unescaped) and of `to_str(expr)` for each interpolation.
    fn interpolated_string(&mut self, s: String) -> (r: Result<Expr, Error>)
        requires
            old(self).wf(),
            s@.len() < old(self).source@.len(),
        ensures
            final(self).kept(*old(self)),
            parse_err(r),
            !s@.contains('{') ==> r == Ok::<Expr, Error>(Expr::Str(s)),
        decreases old(self).source@.len() as int, old(self).tokens@.len() - old(self).current, 0int,
    {
        let chars = chars_of(s.as_str());
        let len = chars.len();
        let mut has_brace = false;
        let mut k: usize = 0;
        while k < len
            invariant
                k <= len == chars@.len(),
                chars@ == s@,
                has_brace == exists|j: int| 0 <= j < k && chars@[j] == '{',
            decreases len - k,
        {
            if chars[k] == '{' {
                has_brace = true;
            }
            k = k + 1;
        }
        if !has_brace {
            proof {
                assert forall|j: int| 0 <= j < s@.len() implies s@[j] != '{' by {}
            }
            return Ok(Expr::Str(s));
        }
        proof {
            let j = choose|j: int| 0 <= j < k && chars@[j] == '{';
            assert(s@[j] == '{');
        }
        let mut parts: Vec<Expr> = Vec::new();
        let mut pos: usize = 0;
        let mut text_start: usize = 0;
        while pos < len
            invariant
                self.kept(*old(self)),
                len == chars@.len() == s@.len(),
                s@.len() < self.source@.len(),
                s@.contains('{'),
                self.source@.len() <= usize::MAX / 4,
                chars@ == s@,
                text_start <= pos <= len,
                text_start == 0 || parts@.len() > 0,
            decreases len - pos,
        {
            if pos + 1 < len && chars[pos] == '{' && chars[pos + 1] == '{' {
                pos = pos + 2;
                continue;
            }
            if pos + 1 < len && chars[pos] == '}' && chars[pos + 1] == '}' {
                pos = pos + 2;
                continue;
            }
            if chars[pos] == '{' {
                if text_start < pos {
                    parts.push(Expr::Str(literal_part(&chars, text_start, pos)));
                }
                pos = pos + 1;
                let expr_start = pos;
                let mut depth: usize = 1;
                while depth > 0 && pos < len
                    invariant
                        expr_start <= pos <= len,
                        len == chars@.len(),
                        len <= usize::MAX / 4,
                        depth <= pos - expr_start + 1,
                        pos == expr_start ==> depth == 1,
                    decreases len - pos,
                {
                    if chars[pos] == '{' {
                        depth = depth + 1;
                    } else if chars[pos] == '}' {
                        depth = depth - 1;
                    }
                    pos = pos + 1;
                }
                if depth > 0 {
                    return Err(self.error("unterminated string interpolation"));
                }
                let mut lo = expr_start;
                let hi0 = pos - 1;
                while lo < hi0 && char_is_whitespace(chars[lo])
                    invariant
                        expr_start <= lo <= hi0 < len,
                        len == chars@.len(),
                    decreases hi0 - lo,
                {
                    lo = lo + 1;
                }
                let mut hi = hi0;
                while hi > lo && char_is_whitespace(chars[hi - 1])
                    invariant
                        expr_start <= lo <= hi <= hi0 < len,
                        len == chars@.len(),
                    decreases hi - lo,
                {
                    hi = hi - 1;
                }
                if lo == hi {
                    return Err(self.error("empty string interpolation"));
                }
                let inner = string_of(&chars, lo, hi);
                let expr = parse_interpolated_expr(inner.as_str())?;
                parts.push(Expr::Call { func: Box::new(Expr::Ident("to_str".to_string())), args: vec![expr] });
                text_start = pos;
            } else {
                pos = pos + 1;
            }
        }
        if text_start < len {
            parts.push(Expr::Str(literal_part(&chars, text_start, len)));
        }
        let mut result = parts.remove(0);
        let mut i: usize = 0;
        let n = parts.len();
        while i < n
            invariant
                n == parts@.len(),
                i <= n,
            decreases n - i,
        {
            let part = copy_expr(&parts[i]);
            result = Expr::Binary { op: BinOp::Add, lhs: Box::new(result), rhs: Box::new(part) };
            i = i + 1;
        }
        Ok(result)
    }

    /// Read a literal, a name or a group; anything else as by [`Parser::prefix`].
    fn primary_expr(&mut self) -> (r: Result<Expr, Error>)
        requires
            old(self).wf(),
        ensures
            final(self).kept(*old(self)),
            parse_err(r),
            r is Ok ==> final(self).current > old(self).current,
        decreases old(self).source@.len() as int, old(self).tokens@.len() - old(self).current, 3int,
    {
        let tok = self.tokens[self.current].node.kind.duplicate();
        match tok {
            TokenKind::Int(n) => {
                self.advance();
                Ok(Expr::Int(n))
            },
            TokenKind::Float(f) => {
                self.advance();
                Ok(Expr::Float(f))
            },
            TokenKind::Str(s) => {
                self.advance();
                Ok(Expr::Str(s))
            },
            TokenKind::Bool(b) => {
                self.advance();
                Ok(Expr::Bool(b))
            },
            TokenKind::Underscore => {
                self.advance();
                Ok(Expr::Unit)
            },
            TokenKind::Ident(_) => {
                let name = self.expect_ident()?;
                Ok(Expr::Ident(name))
            },
            TokenKind::OpenParen => {
                self.advance();
                let inner = self.expression(Precedence::Lowest)?;
                self.expect(TokenKind::CloseParen)?;
                Ok(inner)
            },
            _ => self.prefix(),
        }
    }

    fn if_stmt(&mut self) -> (r: Result<Expr, Error>)
        requires
            old(self).wf(),
        ensures
            final(self).kept(*old(self)),
            parse_err(r),
            r is Ok ==> final(self).current > old(self).current,
        decreases old(self).source@.len() as int, old(self).tokens@.len() - old(self).current, 1int,
    {
        if self.is_at_end() {
            return Err(self.unexpected_token());
        }
        self.advance();
        if self.check(&TokenKind::Let) {
            return self.if_let_stmt();
        }
        let cond = self.expression(Precedence::Lowest)?;
        let then = self.block()?;
        let else_ = if self.match_kind(TokenKind::Else) {
            if self.match_kind(TokenKind::If) {
                Some(Box::new(self.if_stmt()?))
            } else {
                Some(Box::new(self.block()?))
            }
        } else {
            None
        };
        Ok(Expr::If { cond: Box::new(cond), then: Box::new(then), else_ })
    }
}

impl<'a> Parser<'a> {
    /// `if let pattern = value { then } [else ...]`, read as
    /// `match value { pattern => then, _ => else }` (`()` without `else`).
    fn if_let_stmt(&mut self) -> (r: Result<Expr, Error>)
        requires
            old(self).wf(),
            !old(self).at_end(),
        ensures
            final(self).kept(*old(self)),
            parse_err(r),
            r is Ok ==> final(self).current > old(self).current,
        decreases old(self).source@.len() as int, old(self).tokens@.len() - old(self).current, 0int,
    {
        self.advance();
        let pattern = self.parse_pattern()?;
        self.expect(TokenKind::Eq)?;
        let value = self.expression(Precedence::Lowest)?;
        let then = self.block()?;
        let else_expr = if self.match_kind(TokenKind::Else) {
            if self.check(&TokenKind::If) {
                self.if_stmt()?
            } else {
                self.block()?
            }
        } else {
            Expr::Unit
        };
        let arms = vec![
            MatchArm { pattern, guard: None, body: Box::new(then) },
            MatchArm { pattern: Pattern::Wildcard, guard: None, body: Box::new(else_expr) },
        ];
        Ok(Expr::Match { expr: Box::new(value), arms })
    }

    fn while_stmt(&mut self) -> (r: Result<Expr, Error>)
        requires
            old(self).wf(),
            !old(self).at_end(),
        ensures
            final(self).kept(*old(self)),
            parse_err(r),
            r is Ok ==> final(self).current > old(self).current,
        decreases old(self).source@.len() as int, old(self).tokens@.len() - old(self).current, 1int,
    {
        self.advance();
        if self.check(&TokenKind::Let) {
            return self.while_let_stmt();
        }
        let cond = self.expression(Precedence::Lowest)?;
        let body = self.block()?;
        Ok(Expr::While { cond: Box::new(cond), body: Box::new(body) })
    }

    /// `while let pattern = value { body }`, read as
    /// `loop { match value { pattern => body, _ => break } }`.
    fn while_let_stmt(&mut self) -> (r: Result<Expr, Error>)
        requires
            old(self).wf(),
            !old(self).at_end(),
        ensures
            final(self).kept(*old(self)),
            parse_err(r),
            r is Ok ==> final(self).current > old(self).current,
        decreases old(self).source@.len() as int, old(self).tokens@.len() - old(self).current, 0int,
    {
        self.advance();
        let pattern = self.parse_pattern()?;
        self.expect(TokenKind::Eq)?;
        let value = self.expression(Precedence::Lowest)?;
        let body = self.block()?;
        let arms = vec![
            MatchArm { pattern, guard: None, body: Box::new(body) },
            MatchArm { pattern: Pattern::Wildcard, guard: None, body: Box::new(Expr::Break) },
        ];
        let m = Expr::Match { expr: Box::new(value), arms };
        Ok(Expr::Loop(Box::new(Expr::Block(vec![Spanned { node: Stmt::Expr(m), span: Span::new(0, 0) }]))))
    }

    fn for_stmt(&mut self) -> (r: Result<Expr, Error>)
        requires
            old(self).wf(),
            !old(self).at_end(),
        ensures
            final(self).kept(*old(self)),
            parse_err(r),
            r is Ok ==> final(self).current > old(self).current,
        decreases old(self).source@.len() as int, old(self).tokens@.len() - old(self).current, 1int,
    {
        self.advance();
        let var = self.expect_ident()?;
        self.expect(TokenKind::In)?;
        let iter = self.expression(Precedence::Lowest)?;
        let body = self.block()?;
        Ok(Expr::For { var, iter: Box::new(iter), body: Box::new(body) })
    }

    fn loop_stmt(&mut self) -> (r: Result<Expr, Error>)
        requires
            old(self).wf(),
            !old(self).at_end(),
        ensures
            final(self).kept(*old(self)),
            parse_err(r),
            r is Ok ==> final(self).current > old(self).current,
        decreases old(self).source@.len() as int, old(self).tokens@.len() - old(self).current, 1int,
    {
        self.advance();
        let body = self.block()?;
        Ok(Expr::Loop(Box::new(body)))
    }

    fn block(&mut self) -> (r: Result<Expr, Error>)
        requires
            old(self).wf(),
        ensures
            final(self).kept(*old(self)),
            parse_err(r),
            r is Ok ==> final(self).current > old(self).current,
        decreases old(self).source@.len() as int, old(self).tokens@.len() - old(self).current, 1int,
    {
        let stmts = self.block_stmts()?;
        Ok(Expr::Block(stmts))
    }

    /// Read `{ statements }`. A statement that fails is recorded and skipped.
    fn block_stmts(&mut self) -> (r: Result<Vec<Spanned<Stmt>>, Error>)
        requires
            old(self).wf(),
        ensures
            final(self).kept(*old(self)),
            parse_err(r),
            r is Ok ==> final(self).current > old(self).current,
        decreases old(self).source@.len() as int, old(self).tokens@.len() - old(self).current, 0int,
    {
        self.expect(TokenKind::OpenBrace)?;
        let mut stmts: Vec<Spanned<Stmt>> = Vec::new();
        while !self.check(&TokenKind::CloseBrace) && !self.is_at_end()
            invariant
                self.kept(*old(self)),
                self.current > old(self).current,
            decreases self.tokens@.len() - self.current,
        {
            match self.statement() {
                Ok(stmt) => stmts.push(stmt),
                Err(e) => {
                    self.errors.push(e);
                    self.synchronize_block();
                },
            }
        }
        self.expect(TokenKind::CloseBrace)?;
        Ok(stmts)
    }

    /// Read the value a `match` inspects: a group, a name or a primary
    /// expression, then calls, fields, indexing and `::` variants, stopping at
    /// the `{` of the arms.
    fn match_target(&mut self) -> (r: Result<Expr, Error>)
        requires
            old(self).wf(),
        ensures
            final(self).kept(*old(self)),
            parse_err(r),
            r is Ok ==> final(self).current > old(self).current,
        decreases old(self).source@.len() as int, old(self).tokens@.len() - old(self).current, 4int,
    {
        let mut expr = if self.check(&TokenKind::OpenParen) {
            self.advance();
            let inner = self.expression(Precedence::Lowest)?;
            self.expect(TokenKind::CloseParen)?;
            inner
        } else if matches!(self.tokens[self.current].node.kind, TokenKind::Ident(_)) {
            let name = self.expect_ident()?;
            Expr::Ident(name)
        } else {
            self.primary_expr()?
        };
        let ghost start = *old(self);
        loop
            invariant
                self.kept(start),
                self.current > start.current,
                start == *old(self),
            decreases self.tokens@.len() - self.current,
        {
            if self.match_kind(TokenKind::Dot) {
                let field = self.expect_ident()?;
                if self.match_kind(TokenKind::OpenParen) {
                    let args = self.arg_list()?;
                    self.expect(TokenKind::CloseParen)?;
                    expr = Expr::MethodCall { obj: Box::new(expr), method: field, args };
                } else {
                    expr = Expr::Field { obj: Box::new(expr), field };
                }
            } else if self.match_kind(TokenKind::OpenParen) {
                let args = self.arg_list()?;
                self.expect(TokenKind::CloseParen)?;
                expr = Expr::Call { func: Box::new(expr), args };
            } else if self.match_kind(TokenKind::OpenBracket) {
                let index = self.expression(Precedence::Lowest)?;
                self.expect(TokenKind::CloseBracket)?;
                expr = Expr::Index { obj: Box::new(expr), index: Box::new(index) };
            } else if self.match_kind(TokenKind::ColonColon) {
                let variant = self.expect_ident()?;
                let args = if self.match_kind(TokenKind::OpenParen) {
                    let a = self.arg_list()?;
                    self.expect(TokenKind::CloseParen)?;
                    a
                } else {
                    Vec::new()
                };
                let enum_name = match &expr {
                    Expr::Ident(name) => name.clone(),
                    _ => {
                        return Err(self.error("expected enum name before '::'"));
                    },
                };
                expr = Expr::EnumCtor { enum_name, variant_name: variant, args };
            } else {
                break;
            }
        }
        Ok(expr)
    }

    fn match_expr(&mut self) -> (r: Result<Expr, Error>)
        requires
            old(self).wf(),
            !old(self).at_end(),
        ensures
            final(self).kept(*old(self)),
            parse_err(r),
            r is Ok ==> final(self).current > old(self).current,
        decreases old(self).source@.len() as int, old(self).tokens@.len() - old(self).current, 1int,
    {
        self.advance();
        let target = self.match_target()?;
        self.expect(TokenKind::OpenBrace)?;
        let mut arms: Vec<MatchArm> = Vec::new();
        while !self.check(&TokenKind::CloseBrace) && !self.is_at_end()
            invariant
                self.kept(*old(self)),
                self.current > old(self).current,
            decreases self.tokens@.len() - self.current,
        {
            let pattern = self.parse_pattern()?;
            let guard = if self.match_kind(TokenKind::If) {
                Some(Box::new(self.expression(Precedence::Lowest)?))
            } else {
                None
            };
            self.expect(TokenKind::FatArrow)?;
            let body = self.expression(Precedence::Lowest)?;
            self.match_kind(TokenKind::Comma);
            arms.push(MatchArm { pattern, guard, body: Box::new(body) });
        }
        self.expect(TokenKind::CloseBrace)?;
        Ok(Expr::Match { expr: Box::new(target), arms })
    }

    /// Read call arguments separated by commas, up to (not including) the `)`.
    fn arg_list(&mut self) -> (r: Result<Vec<Expr>, Error>)
        requires
            old(self).wf(),
        ensures
            final(self).kept(*old(self)),
            parse_err(r),
            old(self).next_is(TokenKindView::CloseParen) ==> (r matches Ok(v) && v@.len() == 0
                && final(self).current == old(self).current),
            !old(self).next_is(TokenKindView::CloseParen) ==> (r matches Ok(v) ==> v@.len() >= 1
                && final(self).current > old(self).current && !final(self).next_is(TokenKindView::Comma)),
            pratt_args(kinds_of(old(self).tokens@), old(self).current as int) matches Some((ss, m))
                ==> (r matches Ok(v) && shapes_of(v@) == ss) && final(self).current == m
                && final(self).errors@ == old(self).errors@,
        decreases old(self).source@.len() as int, old(self).tokens@.len() - old(self).current, 4int,
    {
        let mut args: Vec<Expr> = Vec::new();
        proof {
            assert(kinds_of(self.tokens@)[self.current as int] == self.tokens@[self.current as int].node.kind@);
        }
        if self.check(&TokenKind::CloseParen) {
            return Ok(args);
        }
        let ghost start = *old(self);
        let ghost ks = kinds_of(start.tokens@);
        let ghost target = pratt_args(ks, start.current as int);
        loop
            invariant_except_break
                target is Some ==> {
                    &&& pratt_args_from(ks, self.current as int) matches Some((rest, p))
                    &&& target == Some((shapes_of(args@) + rest, p))
                    &&& self.errors@ == start.errors@
                },
            invariant
                self.kept(start),
                start == *old(self),
                ks == kinds_of(start.tokens@),
                target == pratt_args(ks, start.current as int),
                args@.len() >= 1 ==> self.current > old(self).current,
                !old(self).next_is(TokenKindView::CloseParen),
            ensures
                args@.len() >= 1,
                self.current > old(self).current,
                !self.next_is(TokenKindView::Comma),
                target is Some ==> target == Some((shapes_of(args@), self.current as int)) && self.errors@ == start.errors@,
            decreases self.tokens@.len() - self.current,
        {
            let ghost before = *self;
            let ghost prev = args@;
            let e = self.expression(Precedence::Lowest)?;
            args.push(e);
            proof {
                assert(args@.drop_last() =~= prev);
                assert(shapes_of(args@) == shapes_of(prev).push(shape_of(e)));
            }
            let ghost after_e = *self;
            let more = self.match_kind(TokenKind::Comma);
            proof {
                assert(kinds_of(self.tokens@)[after_e.current as int] == self.tokens@[after_e.current as int].node.kind@);
                if target is Some {
                    let (rest, p) = pratt_args_from(ks, before.current as int)->0;
                    let (e0, m) = pratt_expr(ks, before.current as int, Precedence::Lowest)->0;
                    assert(shape_of(e) == e0);
                    assert(after_e.current == m);
                    if more {
                        let (rest2, p2) = pratt_args_from(ks, m + 1)->0;
                        assert(rest == seq![e0] + rest2);
                        assert(shapes_of(args@) + rest2 =~= shapes_of(prev) + rest);
                    } else {
                        assert(rest == seq![e0]);
                        assert(shapes_of(args@) =~= shapes_of(prev) + rest);
                    }
                }
            }
            if !more {
                break;
            }
        }
        Ok(args)
    }
}

} // verus!
