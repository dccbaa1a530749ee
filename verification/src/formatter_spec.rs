//! The layout rules of the source formatter, stated over token kinds and texts.
use vstd::prelude::*;
use crate::lexer_spec::{lemma_run_end_bounds, not_newline, run_end, SpecToken};
use crate::text::{repeat_char, whitespace};
use crate::token::TokenKindView;

verus! {

/// A token as the formatter sees it: its kind and its source text.
pub ghost struct FmtTok {
    pub kind: TokenKindView,
    pub text: Seq<char>,
}

/// The formatter's state between tokens: indentation level, whether output is
/// at the beginning of a line, and the kind of the last non-comment token.
pub ghost struct FmtSt {
    pub indent: nat,
    pub bol: bool,
    pub prev: Option<TokenKindView>,
}

pub open spec fn fmt_tokens(ts: Seq<SpecToken>, s: Seq<char>) -> Seq<FmtTok> {
    Seq::new(ts.len(), |k: int| FmtTok { kind: ts[k].kind, text: s.subrange(ts[k].start, ts[k].end) })
}

pub open spec fn initial_state() -> FmtSt {
    FmtSt { indent: 0, bol: true, prev: None }
}

/// Keywords that always begin a new line.
pub open spec fn starts_line(k: TokenKindView) -> bool {
    match k {
        TokenKindView::Fn | TokenKindView::Struct | TokenKindView::Enum | TokenKindView::Impl
        | TokenKindView::Trait | TokenKindView::If | TokenKindView::While | TokenKindView::For
        | TokenKindView::Loop | TokenKindView::Let | TokenKindView::Return | TokenKindView::Break
        | TokenKindView::Continue => true,
        _ => false,
    }
}

/// Arithmetic, shift and xor operators.
pub open spec fn bin_op(k: TokenKindView) -> bool {
    match k {
        TokenKindView::Plus | TokenKindView::Minus | TokenKindView::Star | TokenKindView::Slash
        | TokenKindView::Percent | TokenKindView::Shl | TokenKindView::Shr | TokenKindView::Caret => true,
        _ => false,
    }
}

/// Comparison and logical operators.
pub open spec fn compare_op(k: TokenKindView) -> bool {
    match k {
        TokenKindView::EqEq | TokenKindView::Ne | TokenKindView::Lt | TokenKindView::Gt
        | TokenKindView::Le | TokenKindView::Ge | TokenKindView::AndAnd | TokenKindView::OrOr => true,
        _ => false,
    }
}

/// Bitwise operators and compound assignments.
pub open spec fn other_op(k: TokenKindView) -> bool {
    match k {
        TokenKindView::And | TokenKindView::Or | TokenKindView::Caret | TokenKindView::Shl
        | TokenKindView::Shr | TokenKindView::PlusEq | TokenKindView::MinusEq
        | TokenKindView::StarEq | TokenKindView::SlashEq | TokenKindView::PercentEq
        | TokenKindView::AndEq | TokenKindView::OrEq | TokenKindView::CaretEq
        | TokenKindView::ShlEq | TokenKindView::ShrEq => true,
        _ => false,
    }
}

/// Keywords followed by a space before what comes next.
pub open spec fn spaced_keyword(k: TokenKindView) -> bool {
    match k {
        TokenKindView::Fn | TokenKindView::Let | TokenKindView::Mut | TokenKindView::If
        | TokenKindView::While | TokenKindView::For | TokenKindView::Loop | TokenKindView::Return
        | TokenKindView::Match | TokenKindView::Struct | TokenKindView::Enum | TokenKindView::Impl
        | TokenKindView::Trait | TokenKindView::Pub | TokenKindView::Use | TokenKindView::Const
        | TokenKindView::Type | TokenKindView::In => true,
        _ => false,
    }
}

/// Whether a token of kind `k`, after one of kind `prev`, is preceded by a space.
pub open spec fn space_before(k: TokenKindView, prev: Option<TokenKindView>) -> bool {
    match k {
        TokenKindView::OpenBrace | TokenKindView::Eq | TokenKindView::Arrow
        | TokenKindView::FatArrow | TokenKindView::Colon => true,
        _ => bin_op(k) || compare_op(k) || other_op(k) || match prev {
            Some(p) => spaced_keyword(p),
            None => false,
        },
    }
}

/// Whether a token of kind `k` is followed by a space.
pub open spec fn space_after(k: TokenKindView) -> bool {
    match k {
        TokenKindView::Comma | TokenKindView::Arrow | TokenKindView::FatArrow | TokenKindView::Eq => true,
        _ => bin_op(k) || compare_op(k) || other_op(k),
    }
}

/// The kind of the first non-comment token after position `i`.
pub open spec fn next_code(toks: Seq<FmtTok>, i: int) -> Option<TokenKindView>
    decreases toks.len() - i,
{
    if i + 1 >= toks.len() || i + 1 < 0 {
        None
    } else if toks[i + 1].kind is Comment {
        next_code(toks, i + 1)
    } else {
        Some(toks[i + 1].kind)
    }
}

/// `n` levels of indentation of `tab` spaces each.
pub open spec fn pad(n: nat, tab: nat) -> Seq<char> {
    repeat_char(' ', n * tab)
}

/// First position in `lo..hi` that is not whitespace (or `hi`).
pub open spec fn skip_ws_fwd(t: Seq<char>, lo: int, hi: int) -> int
    decreases hi - lo,
{
    if lo < hi && 0 <= lo < t.len() && whitespace(t[lo]) {
        skip_ws_fwd(t, lo + 1, hi)
    } else {
        lo
    }
}

/// Last position after `lo` that follows a non-whitespace character in `lo..hi` (or `lo`).
pub open spec fn skip_ws_bwd(t: Seq<char>, lo: int, hi: int) -> int
    decreases hi - lo,
{
    if lo < hi && 0 < hi <= t.len() && whitespace(t[hi - 1]) {
        skip_ws_bwd(t, lo, hi - 1)
    } else {
        hi
    }
}

/// `t[lo..hi]` without leading and trailing whitespace.
pub open spec fn trimmed(t: Seq<char>, lo: int, hi: int) -> Seq<char> {
    let a = skip_ws_fwd(t, lo, hi);
    t.subrange(a, skip_ws_bwd(t, a, hi))
}

/// `t` without trailing whitespace.
pub open spec fn trim_end(t: Seq<char>) -> Seq<char> {
    t.subrange(0, skip_ws_bwd(t, 0, t.len() as int))
}

/// The lines of a multi-line block comment from position `k`, each trimmed,
/// indented by `pad` and ended by a line feed. A line feed at the very end does
/// not start another line.
pub open spec fn block_lines(t: Seq<char>, k: int, pad: Seq<char>) -> Seq<char>
    decreases t.len() + 1 - k,
{
    if k < 0 || k >= t.len() {
        Seq::empty()
    } else {
        proof {
            lemma_run_end_bounds(t, k, not_newline());
        }
        pad + trimmed(t, k, run_end(t, k, not_newline())) + seq!['\n'] + block_lines(
            t,
            run_end(t, k, not_newline()) + 1,
            pad,
        )
    }
}

pub open spec fn is_line_comment(t: Seq<char>) -> bool {
    t.len() >= 2 && t[0] == '/' && t[1] == '/'
}

/// The text a comment produces, in state `st`. A comment always ends its line.
pub open spec fn comment_text(t: Seq<char>, st: FmtSt, tab: nat) -> Seq<char> {
    let p = pad(st.indent, tab);
    if is_line_comment(t) {
        (if st.bol { Seq::empty() } else { seq!['\n'] }) + p + t + seq!['\n']
    } else if t.contains('\n') {
        (if st.bol { Seq::empty() } else { seq!['\n'] }) + block_lines(t, 0, p)
    } else {
        (if st.bol { p } else { seq![' '] }) + t + seq!['\n']
    }
}

/// Indentation level a closing brace is printed at: one level out from the
/// block it closes, an empty one too.
pub open spec fn close_indent(st: FmtSt) -> nat {
    if st.indent == 0 {
        st.indent
    } else {
        (st.indent - 1) as nat
    }
}

/// What is written before a non-comment token of kind `k`.
pub open spec fn lead(k: TokenKindView, st: FmtSt, tab: nat) -> Seq<char> {
    if k is CloseBrace {
        if st.bol {
            pad(close_indent(st), tab)
        } else {
            seq!['\n'] + pad(close_indent(st), tab)
        }
    } else if st.bol {
        pad(st.indent, tab)
    } else if k is Else {
        seq![' ']
    } else if starts_line(k) {
        seq!['\n'] + pad(st.indent, tab)
    } else if space_before(k, st.prev) {
        seq![' ']
    } else {
        Seq::empty()
    }
}

/// A token that starts with a letter, a digit or `_`: a name, a number, a
/// boolean or a reserved word.
pub open spec fn word_token(k: TokenKindView) -> bool {
    k is Ident || k is Int || k is Float || k is Bool || crate::token::keyword_kind(k)
}

/// The reserved words after which the formatter writes what follows directly:
/// `else`, `break`, `continue`, `self`, `mod`, `yield`, `opaque` and `_`.
pub open spec fn unspaced_keyword(k: TokenKindView) -> bool {
    k is Else || k is Break || k is Continue || k is Self_ || k is Mod || k is Yield || k is Opaque || k is Underscore
}

/// Formatting never glues a word to the reserved word before it: after any
/// other reserved word (`return`, `let`, `fn`, `in`, ...), a token that
/// starts with a letter, digit or `_` begins a line or is written after a
/// space or a line break, so the two still read as two tokens.
pub proof fn lemma_keyword_not_glued(k: TokenKindView, st: FmtSt, tab: nat)
    requires
        st.prev matches Some(p) && crate::token::keyword_kind(p) && !unspaced_keyword(p),
        word_token(k),
    ensures
        st.bol || (lead(k, st, tab).len() > 0 && (lead(k, st, tab)[0] == ' ' || lead(k, st, tab)[0] == '\n')),
{
}

/// Every infix operator (`+`, `==`, `&&`, `&`, `<<`, `=`, ...) is written
/// with a space on each side, whatever comes before it.
pub proof fn lemma_infix_spaced(k: TokenKindView, prev: Option<TokenKindView>)
    requires
        crate::ast::binop_of(k) is Some,
    ensures
        space_before(k, prev),
        space_after(k),
{
}

/// Whether a line ends after a non-comment token of kind `k`.
pub open spec fn ends_line(k: TokenKindView, next: Option<TokenKindView>) -> bool {
    match k {
        TokenKindView::OpenBrace | TokenKindView::Semi => true,
        TokenKindView::CloseBrace => next != Some(TokenKindView::Else),
        _ => false,
    }
}

/// Indentation after a non-comment token of kind `k`.
pub open spec fn indent_after(k: TokenKindView, st: FmtSt) -> nat {
    if k is OpenBrace {
        st.indent + 1
    } else if k is CloseBrace {
        close_indent(st)
    } else {
        st.indent
    }
}

/// The text written for token `i` and the state after it.
pub open spec fn emit(toks: Seq<FmtTok>, i: int, st: FmtSt, tab: nat) -> (Seq<char>, FmtSt) {
    let t = toks[i];
    if t.kind is Comment {
        (comment_text(t.text, st, tab), FmtSt { indent: st.indent, bol: true, prev: st.prev })
    } else {
        let ind = indent_after(t.kind, st);
        let nl = ends_line(t.kind, next_code(toks, i));
        let tail = if space_after(t.kind) {
            seq![' ']
        } else if nl {
            if t.kind is CloseBrace && ind == 0 {
                seq!['\n', '\n']
            } else {
                seq!['\n']
            }
        } else {
            Seq::empty()
        };
        (
            lead(t.kind, st, tab) + t.text + tail,
            FmtSt { indent: ind, bol: nl, prev: Some(t.kind) },
        )
    }
}

/// The indentation level that token `i` multiplies by the tab width, if any.
pub open spec fn indent_used(k: TokenKindView, st: FmtSt) -> Option<nat> {
    if k is Comment {
        Some(st.indent)
    } else if k is CloseBrace {
        Some(close_indent(st))
    } else if st.bol {
        Some(st.indent)
    } else if !(k is Else) && starts_line(k) {
        Some(st.indent)
    } else {
        None
    }
}

/// The formatted text of the tokens from `i` on, up to the end-of-input token.
pub open spec fn fmt_from(toks: Seq<FmtTok>, i: int, st: FmtSt, tab: nat) -> Seq<char>
    decreases toks.len() - i,
{
    if i < 0 || i >= toks.len() || toks[i].kind is Eof {
        Seq::empty()
    } else {
        let (piece, st2) = emit(toks, i, st, tab);
        piece + fmt_from(toks, i + 1, st2, tab)
    }
}

/// Every indentation written while formatting from `i` on, in spaces, fits in a `usize`.
pub open spec fn indents_fit(toks: Seq<FmtTok>, i: int, st: FmtSt, tab: nat) -> bool
    decreases toks.len() - i,
{
    if i < 0 || i >= toks.len() || toks[i].kind is Eof {
        true
    } else {
        (match indent_used(toks[i].kind, st) {
            Some(n) => n * tab <= usize::MAX,
            None => true,
        }) && indents_fit(toks, i + 1, emit(toks, i, st, tab).1, tab)
    }
}

} // verus!
