//! What the lexer produces, stated over the characters of the source.
//!
//! A token starts after any run of blanks (space, tab, carriage return, line
//! feed). Its extent and kind are given by [`scan`]; lexing stops after the
//! end-of-input token or after an unexpected character.
use vstd::prelude::*;
use crate::text::{alphabetic, alphanumeric, is_ascii_digit, is_ascii_hexdigit};
use crate::token::{keyword_of, TokenKindView};

verus! {

/// The character at position `i`, or NUL past either end.
pub open spec fn char_at(s: Seq<char>, i: int) -> char {
    if 0 <= i < s.len() {
        s[i]
    } else {
        '\0'
    }
}

pub open spec fn is_blank(c: char) -> bool {
    c == ' ' || c == '\t' || c == '\r' || c == '\n'
}

/// The first position at or after `i` whose character does not satisfy `p`
/// (or the end of the text).
pub open spec fn run_end(s: Seq<char>, i: int, p: spec_fn(char) -> bool) -> int
    decreases s.len() - i,
{
    if 0 <= i < s.len() && p(s[i]) {
        run_end(s, i + 1, p)
    } else {
        i
    }
}

pub proof fn lemma_run_end_bounds(s: Seq<char>, i: int, p: spec_fn(char) -> bool)
    requires
        0 <= i <= s.len(),
    ensures
        i <= run_end(s, i, p) <= s.len(),
    decreases s.len() - i,
{
    if i < s.len() && p(s[i]) {
        lemma_run_end_bounds(s, i + 1, p);
    }
}

pub open spec fn blank_class() -> spec_fn(char) -> bool {
    |c: char| is_blank(c)
}

pub open spec fn not_newline() -> spec_fn(char) -> bool {
    |c: char| c != '\n'
}

pub open spec fn ident_continue() -> spec_fn(char) -> bool {
    |c: char| c == '_' || alphanumeric(c)
}

pub open spec fn is_ident_start(c: char) -> bool {
    c == '_' || alphabetic(c)
}

/// Digits of the given radix (2, 8, 10 or 16) and the separator `_`.
pub open spec fn radix_digit(radix: u32, c: char) -> bool {
    if radix == 16 {
        is_ascii_hexdigit(c)
    } else if radix == 8 {
        '0' <= c && c <= '7'
    } else if radix == 2 {
        c == '0' || c == '1'
    } else {
        is_ascii_digit(c)
    }
}

pub open spec fn digit_or_sep(radix: u32) -> spec_fn(char) -> bool {
    |c: char| c == '_' || radix_digit(radix, c)
}

/// Numeric value of a (hexa)decimal digit character.
pub open spec fn digit_value(c: char) -> int {
    if '0' <= c && c <= '9' {
        c as int - '0' as int
    } else if 'a' <= c && c <= 'f' {
        c as int - 'a' as int + 10
    } else {
        c as int - 'A' as int + 10
    }
}

/// `t` without its `_` separators.
pub open spec fn strip_sep(t: Seq<char>) -> Seq<char>
    decreases t.len(),
{
    if t.len() == 0 {
        t
    } else if t.last() == '_' {
        strip_sep(t.drop_last())
    } else {
        strip_sep(t.drop_last()).push(t.last())
    }
}

/// The number written by the digits `d` in base `radix`, most significant first.
pub open spec fn digits_value(d: Seq<char>, radix: int) -> int
    decreases d.len(),
{
    if d.len() == 0 {
        0
    } else {
        digits_value(d.drop_last(), radix) * radix + digit_value(d.last())
    }
}

/// Parsing the digits `d` as an `i64` in base `radix`: absent when there are no
/// digits or the value does not fit.
pub open spec fn parse_digits(d: Seq<char>, radix: int) -> Option<i64> {
    if d.len() == 0 || digits_value(d, radix) > i64::MAX {
        None
    } else {
        Some(digits_value(d, radix) as i64)
    }
}

/// One scanned token: its kind, where it ends, and how many errors it reports.
pub ghost struct Scan {
    pub kind: TokenKindView,
    pub end: int,
    pub errs: nat,
}

pub open spec fn simple(kind: TokenKindView, end: int) -> Scan {
    Scan { kind, end, errs: 0 }
}

/// Decoding an escape sequence `\e`: the character it stands for, and whether it is invalid.
pub open spec fn unescape(e: char) -> (char, nat) {
    if e == '"' {
        ('"', 0)
    } else if e == '\\' {
        ('\\', 0)
    } else if e == '{' {
        ('{', 0)
    } else if e == '}' {
        ('}', 0)
    } else if e == 'n' {
        ('\n', 0)
    } else if e == 'r' {
        ('\r', 0)
    } else if e == 't' {
        ('\t', 0)
    } else if e == '0' {
        ('\0', 0)
    } else {
        (e, 1)
    }
}

/// The body of a string literal from position `k` (just after the opening quote
/// or inside the literal): the decoded characters, the position after the
/// closing quote, and the errors. An escape that starts at the last character
/// of the text runs past its end.
pub open spec fn string_body(s: Seq<char>, k: int, acc: Seq<char>, errs: nat) -> (Seq<char>, int, nat)
    decreases s.len() - k,
{
    if k < 0 || k >= s.len() {
        (acc, k, errs + 1)
    } else if s[k] == '"' {
        (acc, k + 1, errs)
    } else if s[k] == '\\' {
        if k + 1 >= s.len() {
            (acc.push('\0'), s.len() as int + 1, errs + 2)
        } else {
            string_body(s, k + 2, acc.push(unescape(s[k + 1]).0), errs + unescape(s[k + 1]).1)
        }
    } else {
        string_body(s, k + 1, acc.push(s[k]), errs)
    }
}

/// A nested block comment from position `k` at nesting `depth`: where it ends,
/// and whether it is unterminated.
pub open spec fn block_end(s: Seq<char>, k: int, depth: nat) -> (int, nat)
    decreases s.len() - k, depth,
{
    if depth == 0 || k < 0 {
        (k, 0)
    } else if k >= s.len() {
        (k, 1)
    } else if s[k] == '/' && char_at(s, k + 1) == '*' {
        block_end(s, k + 2, depth + 1)
    } else if s[k] == '*' && char_at(s, k + 1) == '/' {
        block_end(s, k + 2, (depth - 1) as nat)
    } else {
        block_end(s, k + 1, depth)
    }
}

/// An integer literal in base `radix` whose digits start at `k`.
pub open spec fn scan_radix(s: Seq<char>, k: int, radix: u32) -> Scan {
    let e = run_end(s, k, digit_or_sep(radix));
    let v = parse_digits(strip_sep(s.subrange(k, e)), radix as int);
    Scan {
        kind: TokenKindView::Int(
            match v {
                Some(x) => x,
                None => 0,
            },
        ),
        end: e,
        errs: (if e == k {
            1nat
        } else {
            0nat
        }) + (if v is None {
            1nat
        } else {
            0nat
        }),
    }
}

/// A number literal starting with the digit at `i`.
pub open spec fn scan_number(s: Seq<char>, i: int) -> Scan {
    let j = i + 1;
    let n = char_at(s, j);
    if s[i] == '0' && (n == 'x' || n == 'X') {
        scan_radix(s, j + 1, 16)
    } else if s[i] == '0' && (n == 'o' || n == 'O') {
        scan_radix(s, j + 1, 8)
    } else if s[i] == '0' && (n == 'b' || n == 'B') {
        scan_radix(s, j + 1, 2)
    } else {
        let e1 = run_end(s, j, digit_or_sep(10));
        if char_at(s, e1) == '.' && is_ascii_digit(char_at(s, e1 + 1)) {
            let e2 = run_end(s, e1 + 1, digit_or_sep(10));
            simple(TokenKindView::Float(strip_sep(s.subrange(i, e2))), e2)
        } else {
            let v = parse_digits(strip_sep(s.subrange(i, e1)), 10);
            Scan {
                kind: TokenKindView::Int(
                    match v {
                        Some(x) => x,
                        None => 0,
                    },
                ),
                end: e1,
                errs: if v is None {
                    1
                } else {
                    0
                },
            }
        }
    }
}

/// Punctuation and operators: the token that starts with character `c` at
/// `j - 1`, the longest of its spellings that the text continues with.
pub open spec fn scan_operator(s: Seq<char>, c: char, j: int) -> Option<Scan> {
    let n = char_at(s, j);
    let n2 = char_at(s, j + 1);
    if c == '(' {
        Some(simple(TokenKindView::OpenParen, j))
    } else if c == ')' {
        Some(simple(TokenKindView::CloseParen, j))
    } else if c == '{' {
        Some(simple(TokenKindView::OpenBrace, j))
    } else if c == '}' {
        Some(simple(TokenKindView::CloseBrace, j))
    } else if c == '[' {
        Some(simple(TokenKindView::OpenBracket, j))
    } else if c == ']' {
        Some(simple(TokenKindView::CloseBracket, j))
    } else if c == ',' {
        Some(simple(TokenKindView::Comma, j))
    } else if c == ';' {
        Some(simple(TokenKindView::Semi, j))
    } else if c == ':' {
        Some(if n == ':' { simple(TokenKindView::ColonColon, j + 1) } else { simple(TokenKindView::Colon, j) })
    } else if c == '#' {
        Some(simple(TokenKindView::Hash, j))
    } else if c == '@' {
        Some(simple(TokenKindView::At, j))
    } else if c == '?' {
        Some(simple(TokenKindView::Question, j))
    } else if c == '%' {
        Some(if n == '=' { simple(TokenKindView::PercentEq, j + 1) } else { simple(TokenKindView::Percent, j) })
    } else if c == '+' {
        Some(if n == '=' { simple(TokenKindView::PlusEq, j + 1) } else { simple(TokenKindView::Plus, j) })
    } else if c == '-' {
        Some(if n == '>' {
            simple(TokenKindView::Arrow, j + 1)
        } else if n == '=' {
            simple(TokenKindView::MinusEq, j + 1)
        } else {
            simple(TokenKindView::Minus, j)
        })
    } else if c == '*' {
        Some(if n == '=' { simple(TokenKindView::StarEq, j + 1) } else { simple(TokenKindView::Star, j) })
    } else if c == '!' {
        Some(if n == '=' { simple(TokenKindView::Ne, j + 1) } else { simple(TokenKindView::Bang, j) })
    } else if c == '=' {
        Some(if n == '=' {
            simple(TokenKindView::EqEq, j + 1)
        } else if n == '>' {
            simple(TokenKindView::FatArrow, j + 1)
        } else {
            simple(TokenKindView::Eq, j)
        })
    } else if c == '<' {
        Some(if n == '<' {
            if n2 == '=' { simple(TokenKindView::ShlEq, j + 2) } else { simple(TokenKindView::Shl, j + 1) }
        } else if n == '=' {
            simple(TokenKindView::Le, j + 1)
        } else {
            simple(TokenKindView::Lt, j)
        })
    } else if c == '>' {
        Some(if n == '>' {
            if n2 == '=' { simple(TokenKindView::ShrEq, j + 2) } else { simple(TokenKindView::Shr, j + 1) }
        } else if n == '=' {
            simple(TokenKindView::Ge, j + 1)
        } else {
            simple(TokenKindView::Gt, j)
        })
    } else if c == '&' {
        Some(if n == '=' {
            simple(TokenKindView::AndEq, j + 1)
        } else if n == '&' {
            simple(TokenKindView::AndAnd, j + 1)
        } else {
            simple(TokenKindView::And, j)
        })
    } else if c == '|' {
        Some(if n == '=' {
            simple(TokenKindView::OrEq, j + 1)
        } else if n == '|' {
            simple(TokenKindView::OrOr, j + 1)
        } else {
            simple(TokenKindView::Or, j)
        })
    } else if c == '^' {
        Some(if n == '=' { simple(TokenKindView::CaretEq, j + 1) } else { simple(TokenKindView::Caret, j) })
    } else if c == '~' {
        Some(simple(TokenKindView::Tilde, j))
    } else if c == '.' {
        Some(if n == '.' {
            if n2 == '=' { simple(TokenKindView::DotDotEq, j + 2) } else { simple(TokenKindView::DotDot, j + 1) }
        } else {
            simple(TokenKindView::Dot, j)
        })
    } else {
        None
    }
}

/// The token that starts at position `i` (which holds a non-blank character).
/// An unexpected character yields an end-of-input token and one error.
pub open spec fn scan(s: Seq<char>, i: int) -> Scan {
    let c = s[i];
    let j = i + 1;
    let n = char_at(s, j);
    if c == '/' {
        if n == '=' {
            simple(TokenKindView::SlashEq, j + 1)
        } else if n == '/' {
            simple(TokenKindView::Comment, run_end(s, j + 1, not_newline()))
        } else if n == '*' {
            let b = block_end(s, j + 1, 1);
            Scan { kind: TokenKindView::Comment, end: b.0, errs: b.1 }
        } else {
            simple(TokenKindView::Slash, j)
        }
    } else if scan_operator(s, c, j) is Some {
        scan_operator(s, c, j)->0
    } else if c == '"' {
        let b = string_body(s, j, Seq::empty(), 0);
        Scan { kind: TokenKindView::Str(b.0), end: b.1, errs: b.2 }
    } else if is_ident_start(c) {
        let e = run_end(s, j, ident_continue());
        let w = s.subrange(i, e);
        simple(
            match keyword_of(w) {
                Some(k) => k,
                None => TokenKindView::Ident(w),
            },
            e,
        )
    } else if is_ascii_digit(c) {
        scan_number(s, i)
    } else {
        Scan { kind: TokenKindView::Eof, end: j, errs: 1 }
    }
}

/// A token as the specification sees it: kind, character extent, errors.
pub ghost struct SpecToken {
    pub kind: TokenKindView,
    pub start: int,
    pub end: int,
    pub errs: nat,
}

/// The tokens read from position `i` on. The sequence ends with an
/// end-of-input token: the one at the end of the text, or the one that an
/// unexpected character produces. It also stops at a token that would run past
/// the end of the text (see [`lexable_from`]).
pub open spec fn lex_from(s: Seq<char>, i: int) -> Seq<SpecToken>
    decreases s.len() - i,
{
    let j = run_end(s, i, blank_class());
    if j < 0 || j >= s.len() {
        seq![SpecToken { kind: TokenKindView::Eof, start: j, end: j, errs: 0 }]
    } else {
        let sc = scan(s, j);
        let t = SpecToken { kind: sc.kind, start: j, end: sc.end, errs: sc.errs };
        if sc.kind is Eof || sc.end <= j || sc.end > s.len() || i > j {
            seq![t]
        } else {
            seq![t] + lex_from(s, sc.end)
        }
    }
}

/// Every token read from position `i` on ends within the text. The one way to
/// break this is a string literal whose last character is an unfinished escape
/// `\` at the very end of the text.
pub open spec fn lexable_from(s: Seq<char>, i: int) -> bool
    decreases s.len() - i,
{
    let j = run_end(s, i, blank_class());
    if j < 0 || j >= s.len() {
        true
    } else {
        let sc = scan(s, j);
        sc.end <= s.len() && (!(sc.kind is Eof) && j < sc.end && i <= j ==> lexable_from(s, sc.end))
    }
}

/// Total number of errors reported while reading `ts`.
pub open spec fn error_count(ts: Seq<SpecToken>) -> nat
    decreases ts.len(),
{
    if ts.len() == 0 {
        0
    } else {
        error_count(ts.drop_last()) + ts.last().errs
    }
}

/// The tokens other than comments, in order.
pub open spec fn without_comments(ts: Seq<SpecToken>) -> Seq<SpecToken>
    decreases ts.len(),
{
    if ts.len() == 0 {
        ts
    } else if ts.last().kind is Comment {
        without_comments(ts.drop_last())
    } else {
        without_comments(ts.drop_last()).push(ts.last())
    }
}

/// Tokens come in the order of the text: each starts after the ones before it
/// (at `i` or later).
pub proof fn lemma_lex_from_ordered(s: Seq<char>, i: int)
    requires
        0 <= i <= s.len(),
    ensures
        forall|k: int| 0 <= k < lex_from(s, i).len() ==> #[trigger] lex_from(s, i)[k].start >= i,
        forall|a: int, b: int| 0 <= a < b < lex_from(s, i).len() ==> lex_from(s, i)[a].start < lex_from(s, i)[b].start,
    decreases s.len() - i,
{
    let j = run_end(s, i, blank_class());
    lemma_run_end_bounds(s, i, blank_class());
    if !(j < 0 || j >= s.len()) {
        let sc = scan(s, j);
        if !(sc.kind is Eof || sc.end <= j || sc.end > s.len() || i > j) {
            lemma_lex_from_ordered(s, sc.end);
            let ts = lex_from(s, i);
            let rest = lex_from(s, sc.end);
            assert(ts == seq![SpecToken { kind: sc.kind, start: j, end: sc.end, errs: sc.errs }] + rest);
            assert forall|k: int| 0 <= k < ts.len() implies #[trigger] ts[k].start >= i by {
                if k > 0 {
                    assert(ts[k] == rest[k - 1]);
                }
            }
            assert forall|a: int, b: int| 0 <= a < b < ts.len() implies ts[a].start < ts[b].start by {
                assert(ts[b] == rest[b - 1]);
                if a > 0 {
                    assert(ts[a] == rest[a - 1]);
                }
            }
        }
    }
}

/// Dropping comments keeps the tokens that stay in their order, and each of
/// them is one of the tokens read.
pub proof fn lemma_without_comments_ordered(ts: Seq<SpecToken>)
    requires
        forall|a: int, b: int| 0 <= a < b < ts.len() ==> ts[a].start < ts[b].start,
    ensures
        forall|a: int, b: int| 0 <= a < b < without_comments(ts).len() ==> without_comments(ts)[a].start
            < without_comments(ts)[b].start,
        forall|k: int| 0 <= k < without_comments(ts).len() ==> exists|m: int| 0 <= m < ts.len() && #[trigger] without_comments(ts)[k] == ts[m],
    decreases ts.len(),
{
    if ts.len() > 0 {
        let d = ts.drop_last();
        lemma_without_comments_ordered(d);
        let w = without_comments(d);
        if !(ts.last().kind is Comment) {
            let w2 = w.push(ts.last());
            assert(without_comments(ts) == w2);
            assert forall|k: int| 0 <= k < w2.len() implies exists|m: int| 0 <= m < ts.len() && #[trigger] w2[k] == ts[m] by {
                if k < w.len() {
                    let m = choose|m: int| 0 <= m < d.len() && w[k] == d[m];
                    assert(w2[k] == ts[m]);
                } else {
                    assert(w2[k] == ts[ts.len() - 1]);
                }
            }
            assert forall|a: int, b: int| 0 <= a < b < w2.len() implies w2[a].start < w2[b].start by {
                if b == w2.len() - 1 {
                    let m = choose|m: int| 0 <= m < d.len() && w[a] == d[m];
                    assert(w2[a] == ts[m]);
                } else {
                    assert(w2[a] == w[a] && w2[b] == w[b]);
                }
            }
        } else {
            assert forall|k: int| 0 <= k < w.len() implies exists|m: int| 0 <= m < ts.len() && #[trigger] w[k] == ts[m] by {
                let m = choose|m: int| 0 <= m < d.len() && w[k] == d[m];
                assert(w[k] == ts[m]);
            }
        }
    }
}

} // verus!
