//! The lexer: turns Zen source text into tokens.
use vstd::prelude::*;
use crate::error::Error;
use crate::lexer_spec::{
    block_end, char_at, digit_or_sep, digit_value, digits_value, error_count, ident_continue,
    is_blank, is_ident_start, lemma_run_end_bounds, lex_from, lexable_from, not_newline, parse_digits, radix_digit,
    run_end, scan, scan_number, scan_operator, scan_radix, simple, strip_sep, string_body,
    unescape, without_comments, blank_class, Scan, SpecToken,
};
use crate::span::{SourceLocation, Span, Spanned};
use crate::text::{
    alphabetic, alphanumeric, byte_offset, char_is_alphabetic, char_is_alphanumeric, chars_of,
    is_ascii_digit, is_ascii_hexdigit, is_digit, is_hexdigit, lemma_byte_offset_full,
    lemma_byte_offset_mono, lemma_byte_offset_step, push_chars, push_str_chars, string_of,
    string_push, text_fits, utf8_width,
};
use crate::token::{keyword_of, match_keyword, Token, TokenKind, TokenKindView};

verus! {

/// A lexed token agrees with the specification's token over the source `s`:
/// same kind, its lexeme is the source text it spans, and its span holds the
/// byte offsets of that text.
pub open spec fn token_matches(t: Spanned<Token>, st: SpecToken, s: Seq<char>) -> bool {
    &&& t.node.kind@ == st.kind
    &&& 0 <= st.start <= st.end <= s.len()
    &&& t.node.lexeme@ == s.subrange(st.start, st.end)
    &&& t.span.0 == byte_offset(s, st.start)
    &&& t.span.1 == byte_offset(s, st.end)
}

pub open spec fn tokens_match(ts: Seq<Spanned<Token>>, sts: Seq<SpecToken>, s: Seq<char>) -> bool {
    &&& ts.len() == sts.len()
    &&& forall|k: int| 0 <= k < ts.len() ==> token_matches(#[trigger] ts[k], sts[k], s)
}

/// An error the lexer reports: a parse error located in the text itself
/// (no file named).
pub open spec fn lex_error(e: Error) -> bool {
    e matches Error::Parse { location, .. } && location.file is None
}

/// Reads tokens from a source text, one at a time, collecting errors on the way.
pub struct Lexer {
    chars: Vec<char>,
    start: usize,
    current: usize,
    start_byte: usize,
    current_byte: usize,
    line: usize,
    column: usize,
    errors: Vec<Error>,
}

pub proof fn lemma_string_body_ge(s: Seq<char>, k: int, acc: Seq<char>, errs: nat)
    ensures
        string_body(s, k, acc, errs).1 >= k,
    decreases s.len() - k,
{
    if 0 <= k < s.len() && s[k] != '"' {
        if s[k] == '\\' {
            if k + 1 < s.len() {
                lemma_string_body_ge(s, k + 2, acc.push(unescape(s[k + 1]).0), errs + unescape(s[k + 1]).1);
            }
        } else {
            lemma_string_body_ge(s, k + 1, acc.push(s[k]), errs);
        }
    }
}

pub proof fn lemma_block_end_ge(s: Seq<char>, k: int, depth: nat)
    ensures
        block_end(s, k, depth).0 >= k,
    decreases s.len() - k, depth,
{
    if depth != 0 && 0 <= k < s.len() {
        if s[k] == '/' && char_at(s, k + 1) == '*' {
            lemma_block_end_ge(s, k + 2, depth + 1);
        } else if s[k] == '*' && char_at(s, k + 1) == '/' {
            lemma_block_end_ge(s, k + 2, (depth - 1) as nat);
        } else {
            lemma_block_end_ge(s, k + 1, depth);
        }
    }
}

/// A scanned token always covers at least the character it starts with.
pub proof fn lemma_scan_progress(s: Seq<char>, i: int)
    requires
        0 <= i < s.len(),
    ensures
        scan(s, i).end > i,
{
    let j = i + 1;
    lemma_run_end_bounds(s, j, ident_continue());
    lemma_run_end_bounds(s, j, digit_or_sep(10));
    if j + 1 <= s.len() {
        lemma_run_end_bounds(s, j + 1, not_newline());
        lemma_run_end_bounds(s, j + 1, digit_or_sep(16));
        lemma_run_end_bounds(s, j + 1, digit_or_sep(8));
        lemma_run_end_bounds(s, j + 1, digit_or_sep(2));
    }
    lemma_block_end_ge(s, j + 1, 1);
    lemma_string_body_ge(s, j, Seq::empty(), 0);
    let e1 = run_end(s, j, digit_or_sep(10));
    if e1 + 1 <= s.len() {
        lemma_run_end_bounds(s, e1 + 1, digit_or_sep(10));
    }
}

/// The first token read from `i` is the scan at the end of the blanks, and the
/// rest is read after it.
pub proof fn lemma_lex_from_unfold(s: Seq<char>, i: int)
    requires
        0 <= i <= s.len(),
        lexable_from(s, i),
    ensures
        ({
            let j = run_end(s, i, blank_class());
            &&& i <= j <= s.len()
            &&& j < s.len() ==> {
                let sc = scan(s, j);
                &&& j < sc.end <= s.len()
                &&& !(sc.kind is Eof) ==> lex_from(s, i) == seq![
                    SpecToken { kind: sc.kind, start: j, end: sc.end, errs: sc.errs },
                ] + lex_from(s, sc.end) && lexable_from(s, sc.end)
                &&& sc.kind is Eof ==> lex_from(s, i) == seq![
                    SpecToken { kind: sc.kind, start: j, end: sc.end, errs: sc.errs },
                ]
            }
            &&& j >= s.len() ==> lex_from(s, i) == seq![
                SpecToken { kind: TokenKindView::Eof, start: j, end: j, errs: 0 },
            ]
        }),
{
    let j = run_end(s, i, blank_class());
    lemma_run_end_bounds(s, i, blank_class());
    if j < s.len() {
        lemma_scan_progress(s, j);
    }
}

/// A token kind other than a string literal, or a string literal with fewer
/// than `n` characters.
pub open spec fn str_shorter(k: TokenKindView, n: int) -> bool {
    match k {
        TokenKindView::Str(p) => p.len() < n,
        _ => true,
    }
}

/// The decoded body of a string literal grows by at most one character for
/// each character read.
pub proof fn lemma_string_body_len(s: Seq<char>, k: int, acc: Seq<char>, errs: nat)
    requires
        0 <= k,
    ensures
        string_body(s, k, acc, errs).0.len() + k <= acc.len() + string_body(s, k, acc, errs).1,
    decreases s.len() - k,
{
    if 0 <= k < s.len() && s[k] != '"' {
        if s[k] == '\\' {
            if k + 1 < s.len() {
                lemma_string_body_len(s, k + 2, acc.push(unescape(s[k + 1]).0), errs + unescape(s[k + 1]).1);
            }
        } else {
            lemma_string_body_len(s, k + 1, acc.push(s[k]), errs);
        }
    }
}

/// A string literal's body ends within the text unless an escape starts at the
/// last character.
proof fn lemma_string_body_within(s: Seq<char>, k: int, acc: Seq<char>, errs: nat)
    requires
        0 <= k <= s.len(),
        s.len() == 0 || s.last() != '\\',
    ensures
        string_body(s, k, acc, errs).1 <= s.len(),
    decreases s.len() - k,
{
    if 0 <= k < s.len() && s[k] != '"' {
        if s[k] == '\\' {
            if k + 1 < s.len() {
                lemma_string_body_within(s, k + 2, acc.push(unescape(s[k + 1]).0), errs + unescape(s[k + 1]).1);
            }
        } else {
            lemma_string_body_within(s, k + 1, acc.push(s[k]), errs);
        }
    }
}

proof fn lemma_block_end_within(s: Seq<char>, k: int, depth: nat)
    requires
        0 <= k <= s.len(),
    ensures
        block_end(s, k, depth).0 <= s.len(),
    decreases s.len() - k, depth,
{
    if depth != 0 && 0 <= k < s.len() {
        if s[k] == '/' && char_at(s, k + 1) == '*' {
            lemma_block_end_within(s, k + 2, depth + 1);
        } else if s[k] == '*' && char_at(s, k + 1) == '/' {
            lemma_block_end_within(s, k + 2, (depth - 1) as nat);
        } else {
            lemma_block_end_within(s, k + 1, depth);
        }
    }
}

/// A token scanned in a text that does not end with `\` ends within the text.
proof fn lemma_scan_within(s: Seq<char>, i: int)
    requires
        0 <= i < s.len(),
        s.last() != '\\',
    ensures
        scan(s, i).end <= s.len(),
{
    let j = i + 1;
    lemma_run_end_bounds(s, j, ident_continue());
    lemma_run_end_bounds(s, j, digit_or_sep(10));
    if j + 1 <= s.len() {
        lemma_run_end_bounds(s, j + 1, not_newline());
        lemma_run_end_bounds(s, j + 1, digit_or_sep(16));
        lemma_run_end_bounds(s, j + 1, digit_or_sep(8));
        lemma_run_end_bounds(s, j + 1, digit_or_sep(2));
        lemma_block_end_within(s, j + 1, 1);
    }
    lemma_string_body_within(s, j, Seq::empty(), 0);
    let e1 = run_end(s, j, digit_or_sep(10));
    if e1 + 1 <= s.len() {
        lemma_run_end_bounds(s, e1 + 1, digit_or_sep(10));
    }
}

/// Every text that does not end with `\` can be read to its end.
pub proof fn lemma_lexable_without_trailing_backslash(s: Seq<char>, i: int)
    requires
        0 <= i <= s.len(),
        s.len() == 0 || s.last() != '\\',
    ensures
        lexable_from(s, i),
    decreases s.len() - i,
{
    let j = run_end(s, i, blank_class());
    lemma_run_end_bounds(s, i, blank_class());
    if j < s.len() {
        lemma_scan_within(s, j);
        lemma_scan_progress(s, j);
        let sc = scan(s, j);
        if !(sc.kind is Eof) {
            lemma_lexable_without_trailing_backslash(s, sc.end);
        }
    }
}

/// The tokens read from a readable text end with the end-of-input token, and
/// every string literal among them is shorter than the text.
pub proof fn lemma_lex_from_shape(s: Seq<char>, i: int)
    requires
        0 <= i <= s.len(),
        lexable_from(s, i),
    ensures
        lex_from(s, i).len() > 0,
        lex_from(s, i).last().kind is Eof,
        forall|k: int| 0 <= k < lex_from(s, i).len() ==> str_shorter((#[trigger] lex_from(s, i)[k]).kind, s.len() as int),
    decreases s.len() - i,
{
    lemma_lex_from_unfold(s, i);
    let j = run_end(s, i, blank_class());
    if j < s.len() {
        let sc = scan(s, j);
        let t = SpecToken { kind: sc.kind, start: j, end: sc.end, errs: sc.errs };
        if s[j] == '"' && scan_operator(s, s[j], j + 1) is None && s[j] != '/' {
            lemma_string_body_len(s, j + 1, Seq::empty(), 0);
        }
        assert(str_shorter(t.kind, s.len() as int));
        if !(sc.kind is Eof) {
            lemma_lex_from_shape(s, sc.end);
            let rest = lex_from(s, sc.end);
            assert forall|k: int| 0 <= k < lex_from(s, i).len() implies str_shorter((#[trigger] lex_from(s, i)[k]).kind, s.len() as int) by {
                if k > 0 {
                    assert(lex_from(s, i)[k] == rest[k - 1]);
                }
            }
        }
    }
}

/// Dropping comments keeps an end-of-input token at the end, and keeps only
/// tokens that were there.
pub proof fn lemma_without_comments_shape(ts: Seq<SpecToken>)
    requires
        ts.len() > 0,
        ts.last().kind is Eof,
    ensures
        without_comments(ts).len() > 0,
        without_comments(ts).last() == ts.last(),
        forall|k: int| 0 <= k < without_comments(ts).len() ==> exists|m: int| 0 <= m < ts.len() && #[trigger] without_comments(ts)[k] == ts[m],
{
    lemma_without_comments_members(ts);
}

proof fn lemma_without_comments_members(ts: Seq<SpecToken>)
    ensures
        forall|k: int| 0 <= k < without_comments(ts).len() ==> exists|m: int| 0 <= m < ts.len() && #[trigger] without_comments(ts)[k] == ts[m],
    decreases ts.len(),
{
    if ts.len() > 0 {
        let d = ts.drop_last();
        lemma_without_comments_members(d);
        let w = without_comments(d);
        if !(ts.last().kind is Comment) {
            let w2 = w.push(ts.last());
            assert forall|k: int| 0 <= k < w2.len() implies exists|m: int| 0 <= m < ts.len() && #[trigger] w2[k] == ts[m] by {
                if k < w.len() {
                    let m = choose|m: int| 0 <= m < d.len() && w[k] == d[m];
                    assert(w2[k] == ts[m]);
                } else {
                    assert(w2[k] == ts[ts.len() - 1]);
                }
            }
        } else {
            assert forall|k: int| 0 <= k < w.len() implies exists|m: int| 0 <= m < ts.len() && #[trigger] w[k] == ts[m] by {
                let m = choose|m: int| 0 <= m < d.len() && w[k] == d[m];
                assert(w[k] == ts[m]);
            }
        }
    }
}

impl Lexer {
    /// The characters of the source text being read.
    pub closed spec fn source(&self) -> Seq<char> {
        self.chars@
    }

    /// Position of the next unread character.
    pub closed spec fn position(&self) -> int {
        self.current as int
    }

    /// Errors reported so far.
    pub closed spec fn reported(&self) -> nat {
        self.errors@.len()
    }

    pub closed spec fn wf(&self) -> bool {
        &&& self.start <= self.current <= self.chars@.len()
        &&& self.chars@.len() < usize::MAX
        &&& self.start_byte == byte_offset(self.chars@, self.start as int)
        &&& self.current_byte == byte_offset(self.chars@, self.current as int)
        &&& byte_offset(self.chars@, self.chars@.len() as int) <= usize::MAX
        &&& self.line <= self.current + 1
        &&& self.column <= self.current + 1
        &&& forall|i: int| 0 <= i < self.errors@.len() ==> lex_error(#[trigger] self.errors@[i])
    }

    /// A lexer positioned at the start of `source`, with no errors reported.
    pub fn new(source: &str) -> (res: Lexer)
        requires
            text_fits(source@),
        ensures
            res.wf(),
            res.source() == source@,
            res.position() == 0,
            res.reported() == 0,
    {
        let chars = chars_of(source);
        proof {
            lemma_byte_offset_full(chars@);
            lemma_byte_offset_mono(chars@, 0, chars@.len() as int);
        }
        Lexer {
            chars,
            start: 0,
            current: 0,
            start_byte: 0,
            current_byte: 0,
            line: 1,
            column: 1,
            errors: Vec::new(),
        }
    }

    fn peek(&self) -> (c: char)
        requires
            self.wf(),
        ensures
            c == char_at(self.chars@, self.current as int),
    {
        if self.current < self.chars.len() {
            self.chars[self.current]
        } else {
            '\0'
        }
    }

    fn peek_next(&self) -> (c: char)
        requires
            self.wf(),
        ensures
            c == char_at(self.chars@, self.current + 1),
    {
        if self.current + 1 < self.chars.len() {
            self.chars[self.current + 1]
        } else {
            '\0'
        }
    }

    fn is_at_end(&self) -> (b: bool)
        requires
            self.wf(),
        ensures
            b == (self.current >= self.chars@.len()),
    {
        self.current >= self.chars.len()
    }

    fn advance(&mut self) -> (c: char)
        requires
            old(self).wf(),
            old(self).current < old(self).chars@.len(),
        ensures
            final(self).wf(),
            c == old(self).chars@[old(self).current as int],
            final(self).current == old(self).current + 1,
            final(self).chars == old(self).chars,
            final(self).start == old(self).start,
            final(self).errors == old(self).errors,
    {
        let c = self.chars[self.current];
        let w = utf8_width(c);
        proof {
            lemma_byte_offset_step(self.chars@, self.current as int);
            lemma_byte_offset_mono(self.chars@, self.current + 1, self.chars@.len() as int);
        }
        self.current = self.current + 1;
        self.current_byte = self.current_byte + w;
        if c == '\n' {
            self.line = self.line + 1;
            self.column = 1;
        } else {
            self.column = self.column + 1;
        }
        c
    }

    /// Consume the next character if it is `expected`.
    fn eat(&mut self, expected: char) -> (b: bool)
        requires
            old(self).wf(),
            expected != '\0',
        ensures
            final(self).wf(),
            b == (char_at(old(self).chars@, old(self).current as int) == expected),
            final(self).current == old(self).current + if b { 1int } else { 0int },
            final(self).chars == old(self).chars,
            final(self).start == old(self).start,
            final(self).errors == old(self).errors,
    {
        if self.is_at_end() || self.peek() != expected {
            return false;
        }
        self.advance();
        true
    }

    fn skip_whitespace(&mut self)
        requires
            old(self).wf(),
        ensures
            final(self).wf(),
            final(self).current == run_end(old(self).chars@, old(self).current as int, blank_class()),
            final(self).chars == old(self).chars,
            final(self).start == old(self).start,
            final(self).errors == old(self).errors,
    {
        loop
            invariant
                self.wf(),
                self.chars == old(self).chars,
                self.start == old(self).start,
                self.errors == old(self).errors,
                old(self).current <= self.current,
                run_end(self.chars@, old(self).current as int, blank_class()) == run_end(
                    self.chars@,
                    self.current as int,
                    blank_class(),
                ),
            decreases self.chars@.len() - self.current,
        {
            let c = self.peek();
            if self.current < self.chars.len() && (c == ' ' || c == '\t' || c == '\r' || c == '\n') {
                self.advance();
            } else {
                return;
            }
        }
    }

    fn skip_to_eol(&mut self)
        requires
            old(self).wf(),
        ensures
            final(self).wf(),
            final(self).current == run_end(old(self).chars@, old(self).current as int, not_newline()),
            final(self).chars == old(self).chars,
            final(self).start == old(self).start,
            final(self).errors == old(self).errors,
    {
        while self.peek() != '\n' && !self.is_at_end()
            invariant
                self.wf(),
                self.chars == old(self).chars,
                self.start == old(self).start,
                self.errors == old(self).errors,
                run_end(self.chars@, old(self).current as int, not_newline()) == run_end(
                    self.chars@,
                    self.current as int,
                    not_newline(),
                ),
            decreases self.chars@.len() - self.current,
        {
            self.advance();
        }
    }

    fn skip_ident(&mut self)
        requires
            old(self).wf(),
        ensures
            final(self).wf(),
            final(self).current == run_end(old(self).chars@, old(self).current as int, ident_continue()),
            final(self).chars == old(self).chars,
            final(self).start == old(self).start,
            final(self).errors == old(self).errors,
    {
        loop
            invariant
                self.wf(),
                self.chars == old(self).chars,
                self.start == old(self).start,
                self.errors == old(self).errors,
                run_end(self.chars@, old(self).current as int, ident_continue()) == run_end(
                    self.chars@,
                    self.current as int,
                    ident_continue(),
                ),
            decreases self.chars@.len() - self.current,
        {
            let c = self.peek();
            if self.current < self.chars.len() && (c == '_' || char_is_alphanumeric(c)) {
                self.advance();
            } else {
                return;
            }
        }
    }

    fn skip_digits(&mut self, radix: u32)
        requires
            old(self).wf(),
        ensures
            final(self).wf(),
            final(self).current == run_end(old(self).chars@, old(self).current as int, digit_or_sep(radix)),
            final(self).chars == old(self).chars,
            final(self).start == old(self).start,
            final(self).errors == old(self).errors,
    {
        loop
            invariant
                self.wf(),
                self.chars == old(self).chars,
                self.start == old(self).start,
                self.errors == old(self).errors,
                run_end(self.chars@, old(self).current as int, digit_or_sep(radix)) == run_end(
                    self.chars@,
                    self.current as int,
                    digit_or_sep(radix),
                ),
            decreases self.chars@.len() - self.current,
        {
            let c = self.peek();
            if self.current < self.chars.len() && (c == '_' || is_radix_digit(radix, c)) {
                self.advance();
            } else {
                return;
            }
        }
    }

    fn location(&self) -> (loc: SourceLocation)
        ensures
            loc.file is None,
            loc.span == Span(self.start_byte, self.current_byte),
            loc.line == self.line,
            loc.column == self.column,
    {
        SourceLocation::new(None, Span::new(self.start_byte, self.current_byte), self.line, self.column)
    }

    fn report(&mut self, msg: String)
        requires
            old(self).wf(),
        ensures
            final(self).wf(),
            final(self).errors@.len() == old(self).errors@.len() + 1,
            final(self).current == old(self).current,
            final(self).chars == old(self).chars,
            final(self).start == old(self).start,
    {
        let location = self.location();
        self.errors.push(Error::Parse { location, msg });
    }

    fn skip_to_block_end(&mut self)
        requires
            old(self).wf(),
        ensures
            final(self).wf(),
            final(self).current == block_end(old(self).chars@, old(self).current as int, 1).0,
            final(self).errors@.len() == old(self).errors@.len() + block_end(
                old(self).chars@,
                old(self).current as int,
                1,
            ).1,
            final(self).chars == old(self).chars,
            final(self).start == old(self).start,
    {
        let mut depth: usize = 1;
        while depth > 0
            invariant
                self.wf(),
                self.chars == old(self).chars,
                self.start == old(self).start,
                self.errors == old(self).errors,
                depth <= self.current + 1,
                block_end(old(self).chars@, old(self).current as int, 1) == block_end(
                    self.chars@,
                    self.current as int,
                    depth as nat,
                ),
            decreases self.chars@.len() - self.current,
        {
            if self.is_at_end() {
                self.report(String::from_str("unterminated block comment"));
                return;
            }
            if self.peek() == '/' && self.peek_next() == '*' {
                self.advance();
                self.advance();
                depth = depth + 1;
            } else if self.peek() == '*' && self.peek_next() == '/' {
                self.advance();
                self.advance();
                depth = depth - 1;
            } else {
                self.advance();
            }
        }
    }

    fn make_token(&self, kind: TokenKind) -> (t: Spanned<Token>)
        requires
            self.wf(),
        ensures
            t.node.kind == kind,
            t.node.lexeme@ == self.chars@.subrange(self.start as int, self.current as int),
            t.span.0 == byte_offset(self.chars@, self.start as int),
            t.span.1 == byte_offset(self.chars@, self.current as int),
    {
        let lexeme = string_of(&self.chars, self.start, self.current);
        Spanned::new(Token::new(kind, lexeme), Span::new(self.start_byte, self.current_byte))
    }
}

/// Exec counterpart of [`radix_digit`].
fn is_radix_digit(radix: u32, c: char) -> (b: bool)
    ensures
        b == radix_digit(radix, c),
{
    if radix == 16 {
        is_hexdigit(c)
    } else if radix == 8 {
        '0' <= c && c <= '7'
    } else if radix == 2 {
        c == '0' || c == '1'
    } else {
        is_digit(c)
    }
}


pub proof fn lemma_run_end_all(s: Seq<char>, i: int, p: spec_fn(char) -> bool, k: int)
    requires
        0 <= i <= k < run_end(s, i, p),
    ensures
        k < s.len(),
        p(s[k]),
    decreases s.len() - i,
{
    if i < k {
        lemma_run_end_all(s, i + 1, p, k);
    }
}

/// One step of [`strip_sep`] over a growing prefix.
pub proof fn lemma_strip_sep_step(s: Seq<char>, lo: int, k: int)
    requires
        0 <= lo <= k < s.len(),
    ensures
        strip_sep(s.subrange(lo, k + 1)) == if s[k] == '_' {
            strip_sep(s.subrange(lo, k))
        } else {
            strip_sep(s.subrange(lo, k)).push(s[k])
        },
{
    assert(s.subrange(lo, k + 1).drop_last() =~= s.subrange(lo, k));
}

pub proof fn lemma_digits_value_nonneg(d: Seq<char>, radix: int)
    requires
        radix >= 1,
        forall|k: int| 0 <= k < d.len() ==> 0 <= #[trigger] digit_value(d[k]),
    ensures
        digits_value(d, radix) >= 0,
    decreases d.len(),
{
    if d.len() > 0 {
        let p = d.drop_last();
        assert forall|k: int| 0 <= k < p.len() implies 0 <= #[trigger] digit_value(p[k]) by {
            assert(p[k] == d[k]);
        }
        lemma_digits_value_nonneg(p, radix);
        let v = digits_value(p, radix);
        assert(v * radix >= 0) by (nonlinear_arith)
            requires
                v >= 0,
                radix >= 1,
        ;
    }
}

/// Exec counterpart of [`digit_value`] on hexadecimal digits.
fn digit_val(c: char) -> (v: i64)
    requires
        is_ascii_hexdigit(c),
    ensures
        v == digit_value(c),
        0 <= v < 16,
{
    if '0' <= c && c <= '9' {
        (c as u32 - '0' as u32) as i64
    } else if 'a' <= c && c <= 'f' {
        (c as u32 - 'a' as u32 + 10) as i64
    } else {
        (c as u32 - 'A' as u32 + 10) as i64
    }
}

impl Lexer {
    /// The source text from `lo` to `hi` without its `_` separators.
    fn cleaned(&self, lo: usize, hi: usize) -> (res: String)
        requires
            lo <= hi <= self.chars@.len(),
        ensures
            res@ == strip_sep(self.chars@.subrange(lo as int, hi as int)),
    {
        let mut out = String::new();
        let mut k = lo;
        proof {
            assert(self.chars@.subrange(lo as int, lo as int) =~= Seq::<char>::empty());
        }
        while k < hi
            invariant
                lo <= k <= hi <= self.chars@.len(),
                out@ == strip_sep(self.chars@.subrange(lo as int, k as int)),
            decreases hi - k,
        {
            let c = self.chars[k];
            proof {
                lemma_strip_sep_step(self.chars@, lo as int, k as int);
            }
            if c != '_' {
                string_push(&mut out, c);
            }
            k = k + 1;
        }
        out
    }

    /// Parse the digits (and separators) from `lo` to `hi` in base `radix`.
    fn parse_range(&self, lo: usize, hi: usize, radix: u32) -> (res: Option<i64>)
        requires
            lo <= hi <= self.chars@.len(),
            radix == 2 || radix == 8 || radix == 10 || radix == 16,
            forall|k: int| lo <= k < hi ==> (#[trigger] digit_or_sep(radix)(self.chars@[k])),
        ensures
            res == parse_digits(strip_sep(self.chars@.subrange(lo as int, hi as int)), radix as int),
    {
        let ghost s = self.chars@;
        let mut val: i64 = 0;
        let mut overflow = false;
        let mut any = false;
        let mut k = lo;
        proof {
            assert(s.subrange(lo as int, lo as int) =~= Seq::<char>::empty());
        }
        while k < hi
            invariant
                lo <= k <= hi <= s.len(),
                s == self.chars@,
                radix == 2 || radix == 8 || radix == 10 || radix == 16,
                forall|q: int| lo <= q < hi ==> (#[trigger] digit_or_sep(radix)(s[q])),
                ({
                    let d = strip_sep(s.subrange(lo as int, k as int));
                    &&& any == (d.len() > 0)
                    &&& forall|q: int| 0 <= q < d.len() ==> 0 <= #[trigger] digit_value(d[q])
                    &&& overflow ==> digits_value(d, radix as int) > i64::MAX
                    &&& !overflow ==> val == digits_value(d, radix as int) && 0 <= val
                }),
            decreases hi - k,
        {
            let c = self.chars[k];
            let ghost d = strip_sep(s.subrange(lo as int, k as int));
            proof {
                lemma_strip_sep_step(s, lo as int, k as int);
                assert(digit_or_sep(radix)(s[k as int]));
            }
            if c != '_' {
                let dv = digit_val(c);
                let ghost d2 = d.push(c);
                proof {
                    assert(d2.drop_last() =~= d);
                    assert forall|q: int| 0 <= q < d2.len() implies 0 <= #[trigger] digit_value(d2[q]) by {
                        if q < d.len() {
                            assert(d2[q] == d[q]);
                        }
                    }
                }
                if overflow {
                    proof {
                        lemma_digits_value_nonneg(d, radix as int);
                        let x = digits_value(d, radix as int);
                        let r = radix as int;
                        assert(x * r + dv > i64::MAX) by (nonlinear_arith)
                            requires
                                x > i64::MAX,
                                r >= 2,
                                dv >= 0,
                        ;
                    }
                } else {
                    match val.checked_mul(radix as i64) {
                        Some(m) => match m.checked_add(dv) {
                            Some(v2) => {
                                val = v2;
                            },
                            None => {
                                overflow = true;
                            },
                        },
                        None => {
                            overflow = true;
                            proof {
                                let x = val as int;
                                let r = radix as int;
                                assert(x * r + dv > i64::MAX) by (nonlinear_arith)
                                    requires
                                        x * r > i64::MAX,
                                        dv >= 0,
                                ;
                            }
                        },
                    }
                }
                any = true;
            }
            k = k + 1;
        }
        if !any || overflow {
            None
        } else {
            Some(val)
        }
    }

    /// Append the source text from `lo` to `hi` to `msg`, between quotes, after `prefix`.
    fn quoted_message(&self, prefix: &str, lo: usize, hi: usize) -> (msg: String)
        requires
            lo <= hi <= self.chars@.len(),
        ensures
            msg@ == prefix@.push('\'') + self.chars@.subrange(lo as int, hi as int).push('\''),
    {
        let mut msg = String::new();
        push_str_chars(&mut msg, prefix);
        string_push(&mut msg, '\'');
        push_chars(&mut msg, &self.chars, lo, hi);
        string_push(&mut msg, '\'');
        proof {
            assert(msg@ =~= prefix@.push('\'') + self.chars@.subrange(lo as int, hi as int).push('\''));
        }
        msg
    }

    fn identifier(&mut self) -> (t: Spanned<Token>)
        requires
            old(self).wf(),
            old(self).current == old(self).start + 1,
        ensures
            final(self).wf(),
            final(self).chars == old(self).chars,
            final(self).start == old(self).start,
            final(self).errors == old(self).errors,
            ({
                let s = old(self).chars@;
                let e = run_end(s, old(self).current as int, ident_continue());
                let w = s.subrange(old(self).start as int, e);
                &&& final(self).current == e
                &&& t.node.kind@ == match keyword_of(w) {
                    Some(k) => k,
                    None => TokenKindView::Ident(w),
                }
                &&& t.node.lexeme@ == w
                &&& t.span.0 == byte_offset(s, old(self).start as int)
                &&& t.span.1 == byte_offset(s, e)
            }),
    {
        self.skip_ident();
        let mut word: Vec<char> = Vec::new();
        let mut k = self.start;
        while k < self.current
            invariant
                self.wf(),
                self.start <= k <= self.current,
                word@ == self.chars@.subrange(self.start as int, k as int),
            decreases self.current - k,
        {
            word.push(self.chars[k]);
            k = k + 1;
            proof {
                assert(word@ =~= self.chars@.subrange(self.start as int, k as int));
            }
        }
        let kind = match match_keyword(&word) {
            Some(k) => k,
            None => TokenKind::Ident(string_of(&self.chars, self.start, self.current)),
        };
        self.make_token(kind)
    }

    /// An integer literal with a radix prefix; the `0` has been read and the
    /// prefix letter is next.
    fn radix_number(&mut self, radix: u32) -> (t: Spanned<Token>)
        requires
            old(self).wf(),
            old(self).current < old(self).chars@.len(),
            radix == 2 || radix == 8 || radix == 16,
        ensures
            final(self).wf(),
            final(self).chars == old(self).chars,
            final(self).start == old(self).start,
            ({
                let s = old(self).chars@;
                let sc = scan_radix(s, old(self).current + 1, radix);
                &&& final(self).current == sc.end
                &&& t.node.kind@ == sc.kind
                &&& final(self).errors@.len() == old(self).errors@.len() + sc.errs
                &&& t.node.lexeme@ == s.subrange(old(self).start as int, sc.end)
                &&& t.span.0 == byte_offset(s, old(self).start as int)
                &&& t.span.1 == byte_offset(s, sc.end)
            }),
    {
        self.advance();
        let digits_start = self.current;
        self.skip_digits(radix);
        proof {
            lemma_run_end_bounds(self.chars@, digits_start as int, digit_or_sep(radix));
            assert forall|k: int| digits_start <= k < self.current implies (#[trigger] digit_or_sep(radix)(self.chars@[k])) by {
                lemma_run_end_all(self.chars@, digits_start as int, digit_or_sep(radix), k);
            }
        }
        let (none_msg, bad_msg) = if radix == 16 {
            ("invalid hex literal: no hexadecimal digits", "invalid hex literal ")
        } else if radix == 8 {
            ("invalid octal literal: no octal digits", "invalid octal literal ")
        } else {
            ("invalid binary literal: no binary digits", "invalid binary literal ")
        };
        if self.current == digits_start {
            self.report(String::from_str(none_msg));
        }
        let kind = match self.parse_range(digits_start, self.current, radix) {
            Some(v) => TokenKind::Int(v),
            None => {
                let msg = self.quoted_message(bad_msg, digits_start, self.current);
                self.report(msg);
                TokenKind::Int(0)
            },
        };
        self.make_token(kind)
    }

    fn number(&mut self) -> (t: Spanned<Token>)
        requires
            old(self).wf(),
            old(self).current == old(self).start + 1,
            is_ascii_digit(old(self).chars@[old(self).start as int]),
        ensures
            final(self).wf(),
            final(self).chars == old(self).chars,
            final(self).start == old(self).start,
            ({
                let s = old(self).chars@;
                let sc = scan_number(s, old(self).start as int);
                &&& final(self).current == sc.end
                &&& t.node.kind@ == sc.kind
                &&& final(self).errors@.len() == old(self).errors@.len() + sc.errs
                &&& t.node.lexeme@ == s.subrange(old(self).start as int, sc.end)
                &&& t.span.0 == byte_offset(s, old(self).start as int)
                &&& t.span.1 == byte_offset(s, sc.end)
            }),
    {
        if self.chars[self.start] == '0' {
            let next = self.peek();
            if next == 'x' || next == 'X' {
                return self.radix_number(16);
            }
            if next == 'o' || next == 'O' {
                return self.radix_number(8);
            }
            if next == 'b' || next == 'B' {
                return self.radix_number(2);
            }
        }
        self.skip_digits(10);
        let is_float = if self.peek() == '.' && is_digit(self.peek_next()) {
            self.advance();
            self.skip_digits(10);
            true
        } else {
            false
        };
        proof {
            lemma_run_end_bounds(self.chars@, self.start + 1, digit_or_sep(10));
        }
        if is_float {
            let text = self.cleaned(self.start, self.current);
            self.make_token(TokenKind::Float(text))
        } else {
            proof {
                assert forall|k: int| self.start <= k < self.current implies (#[trigger] digit_or_sep(10)(self.chars@[k])) by {
                    if k > self.start {
                        lemma_run_end_all(self.chars@, self.start + 1, digit_or_sep(10), k);
                    }
                }
            }
            let kind = match self.parse_range(self.start, self.current, 10) {
                Some(v) => TokenKind::Int(v),
                None => {
                    let msg = self.quoted_message("invalid integer literal ", self.start, self.current);
                    self.report(msg);
                    TokenKind::Int(0)
                },
            };
            self.make_token(kind)
        }
    }
}

impl Lexer {
    /// Punctuation and operators starting with `c` (already read).
    fn operator(&mut self, c: char) -> (res: Option<TokenKind>)
        requires
            old(self).wf(),
        ensures
            final(self).wf(),
            final(self).chars == old(self).chars,
            final(self).start == old(self).start,
            final(self).errors == old(self).errors,
            match scan_operator(old(self).chars@, c, old(self).current as int) {
                Some(sc) => res matches Some(k) && k@ == sc.kind && final(self).current == sc.end
                    && sc.errs == 0,
                None => res is None && final(self).current == old(self).current,
            },
    {
        if c == '(' {
            Some(TokenKind::OpenParen)
        } else if c == ')' {
            Some(TokenKind::CloseParen)
        } else if c == '{' {
            Some(TokenKind::OpenBrace)
        } else if c == '}' {
            Some(TokenKind::CloseBrace)
        } else if c == '[' {
            Some(TokenKind::OpenBracket)
        } else if c == ']' {
            Some(TokenKind::CloseBracket)
        } else if c == ',' {
            Some(TokenKind::Comma)
        } else if c == ';' {
            Some(TokenKind::Semi)
        } else if c == ':' {
            if self.eat(':') {
                Some(TokenKind::ColonColon)
            } else {
                Some(TokenKind::Colon)
            }
        } else if c == '#' {
            Some(TokenKind::Hash)
        } else if c == '@' {
            Some(TokenKind::At)
        } else if c == '?' {
            Some(TokenKind::Question)
        } else if c == '%' {
            if self.eat('=') {
                Some(TokenKind::PercentEq)
            } else {
                Some(TokenKind::Percent)
            }
        } else if c == '+' {
            if self.eat('=') {
                Some(TokenKind::PlusEq)
            } else {
                Some(TokenKind::Plus)
            }
        } else if c == '-' {
            if self.eat('>') {
                Some(TokenKind::Arrow)
            } else if self.eat('=') {
                Some(TokenKind::MinusEq)
            } else {
                Some(TokenKind::Minus)
            }
        } else if c == '*' {
            if self.eat('=') {
                Some(TokenKind::StarEq)
            } else {
                Some(TokenKind::Star)
            }
        } else if c == '!' {
            if self.eat('=') {
                Some(TokenKind::Ne)
            } else {
                Some(TokenKind::Bang)
            }
        } else if c == '=' {
            if self.eat('=') {
                Some(TokenKind::EqEq)
            } else if self.eat('>') {
                Some(TokenKind::FatArrow)
            } else {
                Some(TokenKind::Eq)
            }
        } else if c == '<' {
            if self.eat('<') {
                if self.eat('=') {
                    Some(TokenKind::ShlEq)
                } else {
                    Some(TokenKind::Shl)
                }
            } else if self.eat('=') {
                Some(TokenKind::Le)
            } else {
                Some(TokenKind::Lt)
            }
        } else if c == '>' {
            if self.eat('>') {
                if self.eat('=') {
                    Some(TokenKind::ShrEq)
                } else {
                    Some(TokenKind::Shr)
                }
            } else if self.eat('=') {
                Some(TokenKind::Ge)
            } else {
                Some(TokenKind::Gt)
            }
        } else if c == '&' {
            if self.eat('=') {
                Some(TokenKind::AndEq)
            } else if self.eat('&') {
                Some(TokenKind::AndAnd)
            } else {
                Some(TokenKind::And)
            }
        } else if c == '|' {
            if self.eat('=') {
                Some(TokenKind::OrEq)
            } else if self.eat('|') {
                Some(TokenKind::OrOr)
            } else {
                Some(TokenKind::Or)
            }
        } else if c == '^' {
            if self.eat('=') {
                Some(TokenKind::CaretEq)
            } else {
                Some(TokenKind::Caret)
            }
        } else if c == '~' {
            Some(TokenKind::Tilde)
        } else if c == '.' {
            if self.eat('.') {
                if self.eat('=') {
                    Some(TokenKind::DotDotEq)
                } else {
                    Some(TokenKind::DotDot)
                }
            } else {
                Some(TokenKind::Dot)
            }
        } else {
            None
        }
    }

    fn string(&mut self) -> (t: Spanned<Token>)
        requires
            old(self).wf(),
            old(self).current == old(self).start + 1,
            string_body(old(self).chars@, old(self).current as int, Seq::empty(), 0).1
                <= old(self).chars@.len(),
        ensures
            final(self).wf(),
            final(self).chars == old(self).chars,
            final(self).start == old(self).start,
            ({
                let s = old(self).chars@;
                let b = string_body(s, old(self).current as int, Seq::empty(), 0);
                &&& final(self).current == b.1
                &&& t.node.kind@ == TokenKindView::Str(b.0)
                &&& final(self).errors@.len() == old(self).errors@.len() + b.2
                &&& t.node.lexeme@ == s.subrange(old(self).start as int, b.1)
                &&& t.span.0 == byte_offset(s, old(self).start as int)
                &&& t.span.1 == byte_offset(s, b.1)
            }),
    {
        let ghost s = self.chars@;
        let ghost b0 = string_body(s, self.current as int, Seq::empty(), 0);
        let ghost base = self.errors@.len();
        let mut val = String::new();
        loop
            invariant
                self.wf(),
                self.chars@ == s,
                self.chars == old(self).chars,
                self.start == old(self).start,
                base <= self.errors@.len(),
                b0 == string_body(s, self.current as int, val@, (self.errors@.len() - base) as nat),
                b0.1 <= s.len(),
                base == old(self).errors@.len(),
                b0 == string_body(old(self).chars@, old(self).current as int, Seq::empty(), 0),
            decreases s.len() - self.current,
        {
            if self.is_at_end() {
                self.report(String::from_str("unterminated string literal"));
                return self.make_token(TokenKind::Str(val));
            }
            let c = self.advance();
            if c == '"' {
                return self.make_token(TokenKind::Str(val));
            } else if c == '\\' {
                let esc = self.advance();
                if esc == '"' {
                    string_push(&mut val, '"');
                } else if esc == '\\' {
                    string_push(&mut val, '\\');
                } else if esc == '{' {
                    string_push(&mut val, '{');
                } else if esc == '}' {
                    string_push(&mut val, '}');
                } else if esc == 'n' {
                    string_push(&mut val, '\n');
                } else if esc == 'r' {
                    string_push(&mut val, '\r');
                } else if esc == 't' {
                    string_push(&mut val, '\t');
                } else if esc == '0' {
                    string_push(&mut val, '\0');
                } else {
                    let mut msg = String::from_str("invalid escape sequence '\\");
                    string_push(&mut msg, esc);
                    string_push(&mut msg, '\'');
                    self.report(msg);
                    string_push(&mut val, esc);
                }
            } else {
                string_push(&mut val, c);
            }
        }
    }

    /// Read one token.
    fn next_token(&mut self) -> (t: Spanned<Token>)
        requires
            old(self).wf(),
            lexable_from(old(self).chars@, old(self).current as int),
        ensures
            final(self).wf(),
            final(self).chars == old(self).chars,
            ({
                let s = old(self).chars@;
                let j = run_end(s, old(self).current as int, blank_class());
                &&& j >= s.len() ==> token_matches(
                    t,
                    SpecToken { kind: TokenKindView::Eof, start: j, end: j, errs: 0 },
                    s,
                ) && final(self).current == j && final(self).errors@.len() == old(self).errors@.len()
                &&& j < s.len() ==> {
                    let sc = scan(s, j);
                    &&& token_matches(t, SpecToken { kind: sc.kind, start: j, end: sc.end, errs: sc.errs }, s)
                    &&& final(self).current == sc.end
                    &&& final(self).errors@.len() == old(self).errors@.len() + sc.errs
                }
            }),
            forall|i: int| 0 <= i < final(self).errors@.len() ==> lex_error(#[trigger] final(self).errors@[i]),
    {
        let ghost s = self.chars@;
        self.skip_whitespace();
        self.start = self.current;
        self.start_byte = self.current_byte;
        let ghost j = self.current as int;
        proof {
            lemma_run_end_bounds(s, old(self).current as int, blank_class());
        }
        if self.is_at_end() {
            return self.make_token(TokenKind::Eof);
        }
        proof {
            lemma_scan_progress(s, j);
        }
        let c = self.advance();
        if c == '/' {
            if self.eat('=') {
                self.make_token(TokenKind::SlashEq)
            } else if self.eat('/') {
                self.skip_to_eol();
                proof {
                    lemma_run_end_bounds(s, j + 2, not_newline());
                }
                self.make_token(TokenKind::Comment)
            } else if self.eat('*') {
                self.skip_to_block_end();
                self.make_token(TokenKind::Comment)
            } else {
                self.make_token(TokenKind::Slash)
            }
        } else {
            match self.operator(c) {
                Some(k) => self.make_token(k),
                None => {
                    if c == '"' {
                        self.string()
                    } else if c == '_' || char_is_alphabetic(c) {
                        self.identifier()
                    } else if is_digit(c) {
                        self.number()
                    } else {
                        let mut msg = String::from_str("unexpected character '");
                        string_push(&mut msg, c);
                        string_push(&mut msg, '\'');
                        self.report(msg);
                        self.make_token(TokenKind::Eof)
                    }
                },
            }
        }
    }
}


/// A copy of a located token, with the same kind, text and span.
pub fn copy_token(t: &Spanned<Token>) -> (r: Spanned<Token>)
    ensures
        r.node.kind@ == t.node.kind@,
        r.node.lexeme@ == t.node.lexeme@,
        r.span == t.span,
{
    Spanned::new(Token::new(t.node.kind.duplicate(), t.node.lexeme.clone()), t.span)
}

pub proof fn lemma_error_count_push(ts: Seq<SpecToken>, t: SpecToken)
    ensures
        error_count(ts.push(t)) == error_count(ts) + t.errs,
{
    assert(ts.push(t).drop_last() =~= ts);
}

impl Lexer {
    /// Read tokens up to and including the end-of-input token.
    fn next_token_loop(&mut self) -> (toks: Vec<Spanned<Token>>)
        requires
            old(self).wf(),
            lexable_from(old(self).chars@, old(self).current as int),
        ensures
            final(self).wf(),
            final(self).chars == old(self).chars,
            tokens_match(toks@, lex_from(old(self).chars@, old(self).current as int), old(self).chars@),
            final(self).errors@.len() == old(self).errors@.len() + error_count(
                lex_from(old(self).chars@, old(self).current as int),
            ),
    {
        let ghost s = self.chars@;
        let ghost all = lex_from(s, self.current as int);
        let ghost mut done: Seq<SpecToken> = Seq::empty();
        let mut tokens: Vec<Spanned<Token>> = Vec::new();
        proof {
            assert(all =~= done + lex_from(s, self.current as int));
        }
        loop
            invariant
                self.wf(),
                self.chars == old(self).chars,
                s == self.chars@,
                all == lex_from(s, old(self).current as int),
                all == done + lex_from(s, self.current as int),
                lexable_from(s, self.current as int),
                tokens_match(tokens@, done, s),
                self.errors@.len() == old(self).errors@.len() + error_count(done),
            decreases s.len() - self.current,
        {
            let ghost cur = self.current as int;
            proof {
                lemma_lex_from_unfold(s, cur);
            }
            let t = self.next_token();
            let is_eof = match t.node.kind {
                TokenKind::Eof => true,
                _ => false,
            };
            let ghost st = lex_from(s, cur)[0];
            proof {
                lemma_error_count_push(done, st);
            }
            let ghost prev = tokens@;
            tokens.push(t);
            proof {
                done = done.push(st);
                if is_eof {
                    assert(all =~= done);
                } else {
                    assert(all =~= done + lex_from(s, self.current as int));
                }
                assert(tokens_match(tokens@, done, s)) by {
                    assert forall|k: int| 0 <= k < tokens@.len() implies token_matches(#[trigger] tokens@[k], done[k], s) by {
                        if k < tokens@.len() - 1 {
                            assert(tokens@[k] == prev[k]);
                        }
                    }
                }
            }
            if is_eof {
                proof {
                    assert(done =~= all);
                }
                return tokens;
            }
        }
    }

    /// Read the whole source, comments included. Fails with every error found
    /// when there is any.
    pub fn tokenize_with_comments(self) -> (res: Result<Vec<Spanned<Token>>, Error>)
        requires
            self.wf(),
            self.position() == 0,
            self.reported() == 0,
            lexable_from(self.source(), 0),
        ensures
            ({
                let all = lex_from(self.source(), 0);
                match res {
                    Ok(ts) => error_count(all) == 0 && tokens_match(ts@, all, self.source()),
                    Err(e) => error_count(all) > 0 && (e matches Error::ParseMultiple { errors }
                        && errors@.len() == error_count(all)
                        && forall|i: int| 0 <= i < errors@.len() ==> lex_error(#[trigger] errors@[i])),
                }
            }),
    {
        let mut lex = self;
        let tokens = lex.next_token_loop();
        if lex.errors.len() == 0 {
            Ok(tokens)
        } else {
            Err(Error::ParseMultiple { errors: lex.errors })
        }
    }

    /// Read the whole source and drop the comments. Fails with every error
    /// found when there is any.
    pub fn tokenize(self) -> (res: Result<Vec<Spanned<Token>>, Error>)
        requires
            self.wf(),
            self.position() == 0,
            self.reported() == 0,
            lexable_from(self.source(), 0),
        ensures
            ({
                let all = lex_from(self.source(), 0);
                match res {
                    Ok(ts) => error_count(all) == 0 && tokens_match(
                        ts@,
                        without_comments(all),
                        self.source(),
                    ),
                    Err(e) => error_count(all) > 0 && (e matches Error::ParseMultiple { errors }
                        && errors@.len() == error_count(all)
                        && forall|i: int| 0 <= i < errors@.len() ==> lex_error(#[trigger] errors@[i])),
                }
            }),
    {
        let ghost src = self.source();
        match self.tokenize_with_comments() {
            Err(e) => Err(e),
            Ok(tokens) => {
                let ghost all = lex_from(src, 0);
                let mut out: Vec<Spanned<Token>> = Vec::new();
                let mut k: usize = 0;
                proof {
                    assert(all.take(0) =~= Seq::<SpecToken>::empty());
                }
                while k < tokens.len()
                    invariant
                        k <= tokens@.len(),
                        tokens_match(tokens@, all, src),
                        tokens_match(out@, without_comments(all.take(k as int)), src),
                    decreases tokens@.len() - k,
                {
                    proof {
                        assert(all.take(k + 1).drop_last() =~= all.take(k as int));
                        assert(token_matches(tokens@[k as int], all[k as int], src));
                    }
                    let is_comment = match tokens[k].node.kind {
                        TokenKind::Comment => true,
                        _ => false,
                    };
                    if !is_comment {
                        let t = copy_token(&tokens[k]);
                        let ghost prev = out@;
                        out.push(t);
                        proof {
                            let w = without_comments(all.take(k + 1));
                            assert forall|q: int| 0 <= q < out@.len() implies token_matches(#[trigger] out@[q], w[q], src) by {
                                if q < out@.len() - 1 {
                                    assert(out@[q] == prev[q]);
                                }
                            }
                        }
                    }
                    k = k + 1;
                }
                proof {
                    assert(all.take(tokens@.len() as int) =~= all);
                }
                Ok(out)
            },
        }
    }
}

} // verus!
