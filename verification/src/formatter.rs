//! The source formatter: re-lays out Zen source text token by token.
use vstd::prelude::*;
use crate::error::Error;
use crate::formatter_spec::{
    bin_op, block_lines, close_indent, comment_text, compare_op, emit, ends_line, fmt_from,
    fmt_tokens, indent_after, indent_used, indents_fit, initial_state, is_line_comment, lead, next_code,
    other_op, pad, skip_ws_bwd, skip_ws_fwd, space_after, space_before, spaced_keyword, starts_line,
    trim_end, trimmed, FmtSt, FmtTok,
};
use crate::lexer::{tokens_match, token_matches, Lexer};
use crate::lexer_spec::{error_count, lemma_run_end_bounds, lex_from, lexable_from, not_newline, run_end};
use crate::span::Spanned;
use crate::text::{
    char_is_whitespace, chars_of, push_chars, push_spaces, push_str_chars, repeat_char, string_of,
    string_push, text_fits, whitespace,
};
use crate::token::{Token, TokenKind, TokenKindView};

verus! {

/// The formatter's view of lexed tokens: kinds and lexemes.
pub open spec fn fmt_view(ts: Seq<Spanned<Token>>) -> Seq<FmtTok> {
    Seq::new(ts.len(), |k: int| FmtTok { kind: ts[k].node.kind@, text: ts[k].node.lexeme@ })
}

struct FmtState {
    indent: usize,
    tab_size: usize,
    bol: bool,
    prev_kind: Option<TokenKind>,
}

impl FmtState {
    spec fn st(&self) -> FmtSt {
        FmtSt {
            indent: self.indent as nat,
            bol: self.bol,
            prev: match self.prev_kind {
                Some(k) => Some(k@),
                None => None,
            },
        }
    }

    /// Write `n` levels of indentation.
    fn indentation(&self, n: usize, out: &mut String)
        requires
            n * self.tab_size <= usize::MAX,
        ensures
            final(out)@ == old(out)@ + pad(n as nat, self.tab_size as nat),
    {
        push_spaces(out, n * self.tab_size);
    }

    fn emit_comment(&mut self, t: &Spanned<Token>, out: &mut String)
        requires
            old(self).indent * old(self).tab_size <= usize::MAX,
        ensures
            final(out)@ == old(out)@ + comment_text(
                t.node.lexeme@,
                old(self).st(),
                old(self).tab_size as nat,
            ),
            final(self).indent == old(self).indent,
            final(self).tab_size == old(self).tab_size,
            final(self).prev_kind == old(self).prev_kind,
            final(self).bol,
    {
        let text = chars_of(t.node.lexeme.as_str());
        let ghost tv = text@;
        let is_line = text.len() >= 2 && text[0] == '/' && text[1] == '/';
        if is_line {
            if !self.bol {
                string_push(out, '\n');
            }
            self.indentation(self.indent, out);
            push_chars(out, &text, 0, text.len());
            string_push(out, '\n');
            self.bol = true;
            proof {
                assert(tv.subrange(0, tv.len() as int) =~= tv);
                assert(out@ =~= old(out)@ + comment_text(tv, old(self).st(), self.tab_size as nat));
            }
        } else {
            let mut has_nl = false;
            let mut k: usize = 0;
            while k < text.len()
                invariant
                    k <= text@.len(),
                    has_nl == text@.subrange(0, k as int).contains('\n'),
                decreases text@.len() - k,
            {
                let ghost pre = text@.subrange(0, k as int);
                let ghost post = text@.subrange(0, k + 1);
                proof {
                    assert(post =~= pre.push(text@[k as int]));
                    if pre.contains('\n') {
                        let w = choose|w: int| 0 <= w < pre.len() && pre[w] == '\n';
                        assert(post[w] == '\n');
                    }
                    if text@[k as int] == '\n' {
                        assert(post[k as int] == '\n');
                    } else if post.contains('\n') {
                        let w = choose|w: int| 0 <= w < post.len() && post[w] == '\n';
                        assert(pre[w] == '\n');
                    }
                }
                if text[k] == '\n' {
                    has_nl = true;
                }
                k = k + 1;
            }
            proof {
                assert(text@.subrange(0, text@.len() as int) =~= text@);
            }
            if has_nl {
                if !self.bol {
                    string_push(out, '\n');
                }
                let ghost before = out@;
                let ghost p = pad(self.indent as nat, self.tab_size as nat);
                let mut k: usize = 0;
                proof {
                    assert(before + block_lines(tv, 0, p) =~= out@ + block_lines(tv, k as int, p));
                }
                while k < text.len()
                    invariant
                        k <= text@.len(),
                        tv == text@,
                        self.indent * self.tab_size <= usize::MAX,
                        p == pad(self.indent as nat, self.tab_size as nat),
                        before + block_lines(tv, 0, p) == out@ + block_lines(tv, k as int, p),
                    decreases text@.len() - k,
                {
                    let mut e = k;
                    while e < text.len() && text[e] != '\n'
                        invariant
                            k <= e <= text@.len(),
                            run_end(tv, k as int, not_newline()) == run_end(tv, e as int, not_newline()),
                            tv == text@,
                        decreases text@.len() - e,
                    {
                        e = e + 1;
                    }
                    let mut a = k;
                    while a < e && char_is_whitespace(text[a])
                        invariant
                            k <= a <= e <= text@.len(),
                            tv == text@,
                            skip_ws_fwd(tv, k as int, e as int) == skip_ws_fwd(tv, a as int, e as int),
                        decreases e - a,
                    {
                        a = a + 1;
                    }
                    let mut b = e;
                    while b > a && char_is_whitespace(text[b - 1])
                        invariant
                            a <= b <= e <= text@.len(),
                            tv == text@,
                            skip_ws_bwd(tv, a as int, e as int) == skip_ws_bwd(tv, a as int, b as int),
                        decreases b - a,
                    {
                        b = b - 1;
                    }
                    self.indentation(self.indent, out);
                    push_chars(out, &text, a, b);
                    string_push(out, '\n');
                    proof {
                        assert(trimmed(tv, k as int, e as int) == tv.subrange(a as int, b as int));
                        assert(block_lines(tv, k as int, p) =~= p + tv.subrange(a as int, b as int)
                            + seq!['\n'] + block_lines(tv, e + 1, p));
                    }
                    if e < text.len() {
                        k = e + 1;
                    } else {
                        k = e;
                        proof {
                            assert(block_lines(tv, e + 1, p) =~= Seq::<char>::empty());
                            assert(block_lines(tv, e as int, p) =~= Seq::<char>::empty());
                        }
                    }
                }
                self.bol = true;
                proof {
                    assert(block_lines(tv, k as int, p) =~= Seq::<char>::empty());
                    assert(out@ =~= before + block_lines(tv, 0, p));
                }
            } else {
                if self.bol {
                    self.indentation(self.indent, out);
                } else {
                    string_push(out, ' ');
                }
                push_chars(out, &text, 0, text.len());
                string_push(out, '\n');
                self.bol = true;
                proof {
                    assert(tv.subrange(0, tv.len() as int) =~= tv);
                    assert(out@ =~= old(out)@ + comment_text(tv, old(self).st(), self.tab_size as nat));
                }
            }
        }
    }
}


/// Tokens that always start on a new line (unless already at the beginning of one).
fn must_start_line(kind: &TokenKind, _prev: &Option<TokenKind>) -> (b: bool)
    ensures
        b == starts_line(kind@),
{
    matches!(kind,
        TokenKind::Fn | TokenKind::Struct | TokenKind::Enum | TokenKind::Impl | TokenKind::Trait
        | TokenKind::If | TokenKind::While | TokenKind::For | TokenKind::Loop | TokenKind::Let
        | TokenKind::Return | TokenKind::Break | TokenKind::Continue)
}

fn needs_space_before(kind: &TokenKind, prev: &Option<TokenKind>) -> (b: bool)
    ensures
        b == space_before(
            kind@,
            match prev {
                Some(p) => Some(p@),
                None => None,
            },
        ),
{
    match kind {
        TokenKind::OpenBrace => true,
        TokenKind::Eq => true,
        TokenKind::Arrow | TokenKind::FatArrow => true,
        TokenKind::Colon => true,
        _ => {
            if is_bin_op(kind) || is_compare_op(kind) {
                true
            } else if matches!(kind,
                TokenKind::And | TokenKind::Or | TokenKind::Caret | TokenKind::Shl | TokenKind::Shr
                | TokenKind::PlusEq | TokenKind::MinusEq | TokenKind::StarEq | TokenKind::SlashEq
                | TokenKind::PercentEq | TokenKind::AndEq | TokenKind::OrEq | TokenKind::CaretEq
                | TokenKind::ShlEq | TokenKind::ShrEq) {
                true
            } else {
                match prev {
                    Some(p) => is_keyword_that_needs_space(p),
                    None => false,
                }
            }
        },
    }
}

fn is_keyword_that_needs_space(k: &TokenKind) -> (b: bool)
    ensures
        b == spaced_keyword(k@),
{
    matches!(k,
        TokenKind::Fn | TokenKind::Let | TokenKind::Mut | TokenKind::If | TokenKind::While
        | TokenKind::For | TokenKind::Loop | TokenKind::Return | TokenKind::Match | TokenKind::Struct
        | TokenKind::Enum | TokenKind::Impl | TokenKind::Trait | TokenKind::Pub | TokenKind::Use
        | TokenKind::Const | TokenKind::Type | TokenKind::In)
}

fn is_bin_op(k: &TokenKind) -> (b: bool)
    ensures
        b == bin_op(k@),
{
    matches!(k,
        TokenKind::Plus | TokenKind::Minus | TokenKind::Star | TokenKind::Slash | TokenKind::Percent
        | TokenKind::Shl | TokenKind::Shr | TokenKind::Caret)
}

fn is_compare_op(k: &TokenKind) -> (b: bool)
    ensures
        b == compare_op(k@),
{
    matches!(k,
        TokenKind::EqEq | TokenKind::Ne | TokenKind::Lt | TokenKind::Gt | TokenKind::Le
        | TokenKind::Ge | TokenKind::AndAnd | TokenKind::OrOr)
}

/// Whether the first non-comment token after `i` is `else`.
fn next_is_else(tokens: &[Spanned<Token>], i: usize) -> (b: bool)
    requires
        i < tokens@.len(),
    ensures
        b == (next_code(fmt_view(tokens@), i as int) == Some(TokenKindView::Else)),
{
    let ghost toks = fmt_view(tokens@);
    if tokens.len() - i <= 1 {
        return false;
    }
    let mut k = i + 1;
    while k < tokens.len()
        invariant
            i < k <= tokens@.len(),
            toks == fmt_view(tokens@),
            next_code(toks, i as int) == next_code(toks, k - 1),
        decreases tokens@.len() - k,
    {
        match tokens[k].node.kind {
            TokenKind::Comment => {},
            TokenKind::Else => {
                return true;
            },
            _ => {
                return false;
            },
        }
        k = k + 1;
    }
    false
}

impl FmtState {
    /// Write what precedes a non-comment token of kind `kind`.
    fn emit_lead(&mut self, kind: &TokenKind, out: &mut String)
        requires
            !(kind@ is Comment),
            match indent_used(kind@, old(self).st()) {
                Some(n) => n * old(self).tab_size <= usize::MAX,
                None => true,
            },
        ensures
            final(out)@ == old(out)@ + lead(kind@, old(self).st(), old(self).tab_size as nat),
            final(self).tab_size == old(self).tab_size,
            final(self).prev_kind == old(self).prev_kind,
            !final(self).bol,
            final(self).indent == if kind@ is CloseBrace {
                close_indent(old(self).st())
            } else {
                old(self).indent as nat
            },
    {
        if matches!(kind, TokenKind::CloseBrace) {
            if self.indent > 0 {
                self.indent = self.indent - 1;
            }
            if !self.bol {
                string_push(out, '\n');
                self.indentation(self.indent, out);
            } else {
                self.indentation(self.indent, out);
                self.bol = false;
            }
        } else if self.bol {
            self.indentation(self.indent, out);
            self.bol = false;
        } else if matches!(kind, TokenKind::Else) {
            string_push(out, ' ');
        } else if must_start_line(kind, &self.prev_kind) {
            string_push(out, '\n');
            self.indentation(self.indent, out);
        } else if needs_space_before(kind, &self.prev_kind) {
            string_push(out, ' ');
        }
        proof {
            assert(out@ =~= old(out)@ + lead(kind@, old(self).st(), old(self).tab_size as nat));
        }
    }

    /// Write what follows a non-comment token of kind `kind`, and update the state.
    fn emit_tail(&mut self, kind: &TokenKind, next_else: bool, out: &mut String)
        requires
            !(kind@ is Comment),
            old(self).indent < usize::MAX,
        ensures
            final(self).tab_size == old(self).tab_size,
            ({
                let nl = ends_line(kind@, if next_else { Some(TokenKindView::Else) } else { None });
                let ind: nat = if kind@ is OpenBrace { (old(self).indent + 1) as nat } else { old(self).indent as nat };
                let tail = if space_after(kind@) {
                    seq![' ']
                } else if nl {
                    if kind@ is CloseBrace && ind == 0 {
                        seq!['\n', '\n']
                    } else {
                        seq!['\n']
                    }
                } else {
                    Seq::<char>::empty()
                };
                &&& final(out)@ == old(out)@ + tail
                &&& final(self).indent == ind
                &&& final(self).bol == (nl || (!nl && old(self).bol))
                &&& final(self).prev_kind matches Some(p) && p@ == kind@
            }),
    {
        let after = match kind {
            TokenKind::OpenBrace => {
                self.indent = self.indent + 1;
                true
            },
            TokenKind::CloseBrace => !next_else,
            TokenKind::Semi => true,
            TokenKind::Comma => {
                string_push(out, ' ');
                false
            },
            TokenKind::Arrow | TokenKind::FatArrow | TokenKind::Eq => {
                string_push(out, ' ');
                false
            },
            _ => {
                if is_bin_op(kind) || is_compare_op(kind) || matches!(kind,
                    TokenKind::And | TokenKind::Or | TokenKind::Caret | TokenKind::Shl
                    | TokenKind::Shr | TokenKind::PlusEq | TokenKind::MinusEq | TokenKind::StarEq
                    | TokenKind::SlashEq | TokenKind::PercentEq | TokenKind::AndEq | TokenKind::OrEq
                    | TokenKind::CaretEq | TokenKind::ShlEq | TokenKind::ShrEq) {
                    string_push(out, ' ');
                }
                false
            },
        };
        if after {
            string_push(out, '\n');
            if matches!(kind, TokenKind::CloseBrace) && self.indent == 0 {
                string_push(out, '\n');
            }
            self.bol = true;
        }
        self.prev_kind = Some(kind.duplicate());
        proof {
            let nl = ends_line(kind@, if next_else { Some(TokenKindView::Else) } else { None });
            assert(after == nl);
        }
    }

    /// Emit token `i`; return the index of the next token to emit.
    fn emit_token(&mut self, tokens: &[Spanned<Token>], i: usize, out: &mut String) -> (next: usize)
        requires
            i < tokens@.len(),
            old(self).indent <= i,
            match indent_used(tokens@[i as int].node.kind@, old(self).st()) {
                Some(n) => n * old(self).tab_size <= usize::MAX,
                None => true,
            },
        ensures
            next == i + 1,
            final(self).tab_size == old(self).tab_size,
            final(self).indent <= next,
            ({
                let (piece, st2) = emit(fmt_view(tokens@), i as int, old(self).st(), old(self).tab_size as nat);
                &&& final(out)@ == old(out)@ + piece
                &&& final(self).st() == st2
            }),
    {
        let ghost toks = fmt_view(tokens@);
        let ghost tab = self.tab_size as nat;
        let kind = &tokens[i].node.kind;
        if matches!(kind, TokenKind::Comment) {
            self.emit_comment(&tokens[i], out);
            return i + 1;
        }
        let next_else = next_is_else(tokens, i);
        self.emit_lead(kind, out);
        push_str_chars(out, tokens[i].node.lexeme.as_str());
        self.emit_tail(kind, next_else, out);
        proof {
            let (piece, st2) = emit(toks, i as int, old(self).st(), tab);
            let nc = next_code(toks, i as int);
            assert(ends_line(kind@, nc) == ends_line(kind@, if next_else { Some(TokenKindView::Else) } else { None }));
            assert(out@ =~= old(out)@ + piece);
        }
        i + 1
    }
}

/// Re-lay out `source`: one statement per line, `tab_size` spaces per level of
/// braces, spaces around operators, a blank line after each top-level block,
/// and exactly one line feed at the end. Fails with the lexer's errors when the
/// source does not lex.
pub fn format_source(source: &str, tab_size: usize) -> (res: Result<String, Error>)
    requires
        text_fits(source@),
        lexable_from(source@, 0),
        indents_fit(fmt_tokens(lex_from(source@, 0), source@), 0, initial_state(), tab_size as nat),
    ensures
        ({
            let all = lex_from(source@, 0);
            match res {
                Ok(out) => error_count(all) == 0 && out@ == trim_end(
                    fmt_from(fmt_tokens(all, source@), 0, initial_state(), tab_size as nat),
                ) + seq!['\n'],
                Err(e) => error_count(all) > 0 && (e matches Error::ParseMultiple { errors }
                    && errors@.len() == error_count(all)),
            }
        }),
{
    let ghost all = lex_from(source@, 0);
    let tokens = match Lexer::new(source).tokenize_with_comments() {
        Ok(t) => t,
        Err(e) => {
            return Err(e);
        },
    };
    let ghost toks = fmt_tokens(all, source@);
    proof {
        assert(fmt_view(tokens@) =~= toks) by {
            assert forall|k: int| 0 <= k < tokens@.len() implies #[trigger] fmt_view(tokens@)[k] == toks[k] by {
                assert(token_matches(tokens@[k], all[k], source@));
            }
        }
    }
    let mut out = String::new();
    let mut f = FmtState { indent: 0, tab_size, bol: true, prev_kind: None };
    let mut i: usize = 0;
    proof {
        assert(f.st() == initial_state());
        assert(out@ + fmt_from(toks, 0, f.st(), tab_size as nat) =~= fmt_from(toks, 0, initial_state(), tab_size as nat));
    }
    while i < tokens.len()
        invariant
            i <= tokens@.len(),
            toks == fmt_view(tokens@),
            f.tab_size == tab_size,
            f.indent <= i,
            indents_fit(toks, i as int, f.st(), tab_size as nat),
            out@ + fmt_from(toks, i as int, f.st(), tab_size as nat) == fmt_from(
                toks,
                0,
                initial_state(),
                tab_size as nat,
            ),
        ensures
            i >= tokens@.len() || toks[i as int].kind is Eof,
            out@ + fmt_from(toks, i as int, f.st(), tab_size as nat) == fmt_from(
                toks,
                0,
                initial_state(),
                tab_size as nat,
            ),
        decreases tokens@.len() - i,
    {
        if matches!(&tokens[i].node.kind, TokenKind::Eof) {
            break;
        }
        let ghost prev_out = out@;
        let ghost st0 = f.st();
        i = f.emit_token(tokens.as_slice(), i, &mut out);
        proof {
            let (piece, st2) = emit(toks, i - 1, st0, tab_size as nat);
            assert(fmt_from(toks, i - 1, st0, tab_size as nat) == piece + fmt_from(toks, i as int, st2, tab_size as nat));
            assert(out@ + fmt_from(toks, i as int, f.st(), tab_size as nat) =~= prev_out + fmt_from(
                toks,
                i - 1,
                st0,
                tab_size as nat,
            ));
        }
    }
    proof {
        assert(fmt_from(toks, i as int, f.st(), tab_size as nat) =~= Seq::<char>::empty());
        assert(out@ =~= fmt_from(toks, 0, initial_state(), tab_size as nat));
    }
    let chars = chars_of(out.as_str());
    let mut j = chars.len();
    while j > 0 && char_is_whitespace(chars[j - 1])
        invariant
            j <= chars@.len(),
            skip_ws_bwd(chars@, 0, chars@.len() as int) == skip_ws_bwd(chars@, 0, j as int),
        decreases j,
    {
        j = j - 1;
    }
    let mut result = string_of(&chars, 0, j);
    string_push(&mut result, '\n');
    Ok(result)
}

} // verus!
