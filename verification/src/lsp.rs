//! Editor positions: conversions between byte offsets into a source text and
//! (line, column) positions counted in characters.
use vstd::prelude::*;
use vstd::utf8::encode_utf8;
use crate::span::Span;
use crate::ast::Type;
use crate::lexer::{Lexer, token_matches, tokens_match};
use crate::lexer_spec::{lex_from, lexable_from, without_comments, SpecToken, lemma_lex_from_ordered,
    lemma_without_comments_ordered};
use crate::symbol::{SymKind, SymbolTable, FnSignature};
use crate::token::{Token, TokenKind, TokenKindView};
use crate::text::{push_str_chars, string_push, push_chars, char_is_whitespace};
use crate::formatter_spec::{trimmed, skip_ws_fwd, skip_ws_bwd};
use crate::text::{byte_offset, chars_of, text_fits, utf8_width, lemma_byte_offset_step,
    lemma_byte_offset_full, lemma_byte_offset_mono};

verus! {

/// A zero-based (line, column) position; the column counts characters.
#[derive(Debug, Clone, Copy, PartialEq, Eq, Structural)]
pub struct Position {
    pub line: u32,
    pub character: u32,
}

/// A range of positions.
#[derive(Debug, Clone, Copy, PartialEq, Eq, Structural)]
pub struct Range {
    pub start: Position,
    pub end: Position,
}

/// The (line, column) reached after the first `k` characters of `s`.
pub open spec fn pos_at(s: Seq<char>, k: int) -> (nat, nat)
    decreases k,
{
    if k <= 0 {
        (0, 0)
    } else {
        let (l, c) = pos_at(s, k - 1);
        if s[k - 1] == '\n' { (l + 1, 0) } else { (l, c + 1) }
    }
}

/// How many characters of `s` start before byte offset `offset`.
pub open spec fn chars_before(s: Seq<char>, offset: int) -> int
    decreases s.len(),
{
    if s.len() == 0 {
        0
    } else if byte_offset(s, s.len() - 1) < offset {
        s.len() as int
    } else {
        chars_before(s.drop_last(), offset)
    }
}

proof fn lemma_pos_bounds(s: Seq<char>, k: int)
    requires
        0 <= k <= s.len(),
    ensures
        pos_at(s, k).0 <= k,
        pos_at(s, k).1 <= k,
    decreases k,
{
    if k > 0 {
        lemma_pos_bounds(s, k - 1);
    }
}

proof fn lemma_byte_offset_drop_last(s: Seq<char>, i: int)
    requires
        0 <= i < s.len(),
    ensures
        byte_offset(s.drop_last(), i) == byte_offset(s, i),
{
    assert(s.drop_last().take(i) =~= s.take(i));
}

proof fn lemma_chars_before(s: Seq<char>, offset: int, m: int)
    requires
        0 <= m <= s.len(),
        forall|i: int| 0 <= i < m ==> byte_offset(s, i) < offset,
        m < s.len() ==> byte_offset(s, m) >= offset,
        text_fits(s),
    ensures
        chars_before(s, offset) == m,
    decreases s.len(),
{
    if s.len() > 0 {
        if m < s.len() {
            lemma_byte_offset_mono(s, m, s.len() - 1);
            let d = s.drop_last();
            assert forall|i: int| 0 <= i < m implies byte_offset(d, i) < offset by {
                lemma_byte_offset_drop_last(s, i);
            }
            if m < d.len() {
                lemma_byte_offset_drop_last(s, m);
            }
            lemma_byte_offset_full(s);
            assert(d.len() < s.len());
            lemma_chars_before_fits(s);
            lemma_chars_before(d, offset, m);
        }
    }
}

proof fn lemma_chars_before_fits(s: Seq<char>)
    requires
        text_fits(s),
        s.len() > 0,
    ensures
        text_fits(s.drop_last()),
{
    lemma_byte_offset_mono(s, s.len() - 1, s.len() as int);
    lemma_byte_offset_full(s);
    lemma_byte_offset_full(s.drop_last());
    assert(s.drop_last() =~= s.take(s.len() - 1));
    assert(s.drop_last().take(s.len() - 1) =~= s.take(s.len() - 1));
}

/// The position of byte offset `offset`: the (line, column) reached after the
/// characters that start before it.
pub fn offset_to_position(source: &str, offset: usize) -> (p: Position)
    requires
        text_fits(source@),
        source@.len() <= u32::MAX,
    ensures
        (p.line as nat, p.character as nat) == pos_at(source@, chars_before(source@, offset as int)),
{
    let chars = chars_of(source);
    let ghost s = source@;
    let mut line: u32 = 0;
    let mut col: u32 = 0;
    let mut pos: usize = 0;
    let mut k: usize = 0;
    proof {
        lemma_byte_offset_full(s);
    }
    while k < chars.len() && pos < offset
        invariant
            chars@ == s,
            text_fits(s),
            s.len() <= u32::MAX,
            k <= s.len(),
            pos == byte_offset(s, k as int),
            forall|i: int| 0 <= i < k ==> byte_offset(s, i) < offset,
            (line as nat, col as nat) == pos_at(s, k as int),
        decreases s.len() - k,
    {
        let c = chars[k];
        proof {
            lemma_byte_offset_step(s, k as int);
            lemma_byte_offset_mono(s, k as int + 1, s.len() as int);
            lemma_byte_offset_full(s);
            lemma_pos_bounds(s, k as int);
            assert forall|i: int| 0 <= i < k + 1 implies byte_offset(s, i) < offset by {
                if i < k {
                }
            }
        }
        if c == '\n' {
            line = line + 1;
            col = 0;
        } else {
            col = col + 1;
        }
        pos = pos + utf8_width(c);
        k = k + 1;
    }
    proof {
        lemma_chars_before(s, offset as int, k as int);
    }
    Position { line, character: col }
}

/// Lexicographic order of positions.
pub open spec fn pos_lt(a: (nat, nat), b: (nat, nat)) -> bool {
    a.0 < b.0 || (a.0 == b.0 && a.1 < b.1)
}

proof fn lemma_pos_increasing(s: Seq<char>, j: int, k: int)
    requires
        0 <= j < k <= s.len(),
    ensures
        pos_lt(pos_at(s, j), pos_at(s, k)),
    decreases k - j,
{
    if j < k - 1 {
        lemma_pos_increasing(s, j, k - 1);
    }
}

/// The byte offset of the first character boundary (the end of the text
/// included) whose position is `pos`; `None` when no boundary has it.
pub fn position_to_offset(source: &str, pos: Position) -> (r: Option<usize>)
    requires
        text_fits(source@),
        source@.len() <= u32::MAX,
    ensures
        offset_answer(source@, (pos.line as nat, pos.character as nat), r),
{
    let chars = chars_of(source);
    let ghost s = source@;
    let ghost target = (pos.line as nat, pos.character as nat);
    let mut line: u32 = 0;
    let mut col: u32 = 0;
    let mut at: usize = 0;
    let mut k: usize = 0;
    proof {
        lemma_byte_offset_full(s);
    }
    while k < chars.len()
        invariant
            chars@ == s,
            text_fits(s),
            s.len() <= u32::MAX,
            k <= s.len(),
            at == byte_offset(s, k as int),
            s == source@,
            target == (pos.line as nat, pos.character as nat),
            forall|i: int| 0 <= i < k ==> pos_at(s, i) != target,
            (line as nat, col as nat) == pos_at(s, k as int),
        decreases s.len() - k,
    {
        if line == pos.line && col == pos.character {
            proof {
                assert(pos_at(s, k as int) == target);
            }
            return Some(at);
        }
        let c = chars[k];
        proof {
            lemma_byte_offset_step(s, k as int);
            lemma_byte_offset_mono(s, k as int + 1, s.len() as int);
            lemma_byte_offset_full(s);
            lemma_pos_bounds(s, k as int);
        }
        if c == '\n' {
            line = line + 1;
            col = 0;
        } else {
            col = col + 1;
        }
        at = at + utf8_width(c);
        k = k + 1;
    }
    if line == pos.line && col == pos.character {
        proof {
            assert(pos_at(s, k as int) == target);
        }
        return Some(at);
    }
    None
}

/// The character index of the first character boundary of `chars` whose
/// position is `pos`; `None` when no boundary has it.
fn position_index(chars: &Vec<char>, pos: Position) -> (r: Option<usize>)
    requires
        chars@.len() <= u32::MAX,
    ensures
        match r {
            Some(k) => k <= chars@.len() && pos_at(chars@, k as int) == (pos.line as nat, pos.character as nat),
            None => forall|k: int| 0 <= k <= chars@.len() ==> pos_at(chars@, k) != (pos.line as nat, pos.character as nat),
        },
{
    let ghost s = chars@;
    let ghost target = (pos.line as nat, pos.character as nat);
    let mut line: u32 = 0;
    let mut col: u32 = 0;
    let mut k: usize = 0;
    while k < chars.len()
        invariant
            chars@ == s,
            s.len() <= u32::MAX,
            k <= s.len(),
            target == (pos.line as nat, pos.character as nat),
            forall|i: int| 0 <= i < k ==> pos_at(s, i) != target,
            (line as nat, col as nat) == pos_at(s, k as int),
        decreases s.len() - k,
    {
        if line == pos.line && col == pos.character {
            return Some(k);
        }
        proof {
            lemma_pos_bounds(s, k as int);
        }
        if chars[k] == '\n' {
            line = line + 1;
            col = 0;
        } else {
            col = col + 1;
        }
        k = k + 1;
    }
    if line == pos.line && col == pos.character {
        return Some(k);
    }
    None
}

/// The text with the characters from position `start` up to position `end`
/// replaced by `text`: `None` when either position is at no character
/// boundary, or `end` comes before `start`.
pub fn apply_change(source: &str, start: Position, end: Position, text: &str) -> (r: Option<String>)
    requires
        source@.len() <= u32::MAX,
    ensures
        match r {
            Some(t) => exists|a: int, b: int| 0 <= a <= b <= source@.len()
                && pos_at(source@, a) == (start.line as nat, start.character as nat)
                && pos_at(source@, b) == (end.line as nat, end.character as nat)
                && t@ == source@.subrange(0, a) + text@ + source@.subrange(b, source@.len() as int),
            None => {
                ||| forall|k: int| 0 <= k <= source@.len() ==> pos_at(source@, k) != (start.line as nat, start.character as nat)
                ||| forall|k: int| 0 <= k <= source@.len() ==> pos_at(source@, k) != (end.line as nat, end.character as nat)
                ||| exists|a: int, b: int| 0 <= b < a <= source@.len()
                    && pos_at(source@, a) == (start.line as nat, start.character as nat)
                    && pos_at(source@, b) == (end.line as nat, end.character as nat)
            },
        },
{
    let chars = chars_of(source);
    let a = match position_index(&chars, start) {
        Some(a) => a,
        None => return None,
    };
    let b = match position_index(&chars, end) {
        Some(b) => b,
        None => return None,
    };
    if b < a {
        return None;
    }
    let mut out = String::new();
    push_chars(&mut out, &chars, 0, a);
    push_str_chars(&mut out, text);
    push_chars(&mut out, &chars, b, chars.len());
    Some(out)
}

/// The positions of a span's two ends.
pub fn span_to_range(source: &str, span: Span) -> (r: Range)
    requires
        text_fits(source@),
        source@.len() <= u32::MAX,
    ensures
        (r.start.line as nat, r.start.character as nat) == pos_at(source@, chars_before(source@, span.0 as int)),
        (r.end.line as nat, r.end.character as nat) == pos_at(source@, chars_before(source@, span.1 as int)),
{
    Range { start: offset_to_position(source, span.start()), end: offset_to_position(source, span.end()) }
}

/// Each character boundary has a position of its own, and converting its byte
/// offset to a position and back gives the same offset.
pub proof fn lemma_position_roundtrip(s: Seq<char>, k: int, j: int)
    requires
        text_fits(s),
        0 <= k <= s.len(),
        0 <= j <= s.len(),
    ensures
        chars_before(s, byte_offset(s, k) as int) == k,
        j != k ==> pos_at(s, j) != pos_at(s, k),
{
    assert forall|i: int| 0 <= i < k implies byte_offset(s, i) < byte_offset(s, k) by {
        lemma_byte_offset_mono(s, i + 1, k);
        lemma_byte_offset_step(s, i);
        vstd::utf8::char_is_scalar(s[i]);
    }
    if k < s.len() {
    }
    lemma_chars_before(s, byte_offset(s, k) as int, k);
    if j < k {
        lemma_pos_increasing(s, j, k);
    } else if k < j {
        lemma_pos_increasing(s, k, j);
    }
}

/// Every line start of `s` up to character `n` is the byte offset of a
/// character boundary.
#[verifier::spinoff_prover]
proof fn lemma_newline_ends_boundaries(s: Seq<char>, n: int)
    requires
        0 <= n <= s.len(),
    ensures
        forall|i: int| 0 <= i < crate::compiler::newline_ends(s, n).len() ==> exists|j: int|
            0 <= j <= n && #[trigger] crate::compiler::newline_ends(s, n)[i] == byte_offset(s, j) as usize,
    decreases n,
{
    if n <= 0 {
        assert(crate::compiler::newline_ends(s, n).len() == 0);
    } else {
        lemma_newline_ends_boundaries(s, n - 1);
        let a = crate::compiler::newline_ends(s, n - 1);
        let b = crate::compiler::newline_ends(s, n);
        assert forall|i: int| 0 <= i < b.len() implies exists|j: int| 0 <= j <= n && #[trigger] b[i] == byte_offset(s, j) as usize by {
            if i < a.len() {
                assert(b[i] == a[i]);
                let j = choose|j: int| 0 <= j <= n - 1 && a[i] == byte_offset(s, j) as usize;
                assert(b[i] == byte_offset(s, j) as usize);
            } else {
                assert(b[i] == byte_offset(s, n) as usize);
            }
        }
    }
}

/// No entry of `offsets` lies in `(y, x]`: as many entries are at or before
/// `x` as at or before `y`.
proof fn lemma_count_same(offsets: Seq<usize>, y: usize, x: usize)
    requires
        y <= x,
        forall|i: int| 0 <= i < offsets.len() ==> !(y < #[trigger] offsets[i] && offsets[i] <= x),
    ensures
        crate::compiler::count_at_or_before(offsets, x) == crate::compiler::count_at_or_before(offsets, y),
    decreases offsets.len(),
{
    if offsets.len() > 0 {
        let d = offsets.drop_last();
        assert forall|i: int| 0 <= i < d.len() implies !(y < #[trigger] d[i] && d[i] <= x) by {
            assert(d[i] == offsets[i]);
        }
        assert(!(y < offsets[offsets.len() - 1] && offsets[offsets.len() - 1] <= x));
        lemma_count_same(d, y, x);
    }
}

/// A byte offset inside the text lies between two neighbouring character
/// boundaries, from the boundary `j` on.
proof fn lemma_bracket(s: Seq<char>, x: int, j: int) -> (k: int)
    requires
        0 <= j < s.len(),
        byte_offset(s, j) <= x < byte_offset(s, s.len() as int),
    ensures
        j <= k < s.len(),
        byte_offset(s, k) <= x < byte_offset(s, k + 1),
    decreases s.len() - j,
{
    if x < byte_offset(s, j + 1) {
        j
    } else {
        lemma_bracket(s, x, j + 1)
    }
}

/// The number of line feed bytes (`0x0A`) in `b`.
pub open spec fn newline_bytes(b: Seq<u8>) -> nat
    decreases b.len(),
{
    if b.len() == 0 {
        0
    } else {
        newline_bytes(b.drop_last()) + if b.last() == 10u8 { 1nat } else { 0nat }
    }
}

proof fn lemma_newline_bytes_concat(a: Seq<u8>, b: Seq<u8>)
    ensures
        newline_bytes(a + b) == newline_bytes(a) + newline_bytes(b),
    decreases b.len(),
{
    if b.len() > 0 {
        lemma_newline_bytes_concat(a, b.drop_last());
        assert((a + b).drop_last() =~= a + b.drop_last());
    } else {
        assert(a + b =~= a);
    }
}

/// A byte sequence with no line feed counts none.
proof fn lemma_newline_bytes_none(b: Seq<u8>)
    requires
        forall|i: int| 0 <= i < b.len() ==> b[i] != 10u8,
    ensures
        newline_bytes(b) == 0,
    decreases b.len(),
{
    if b.len() > 0 {
        lemma_newline_bytes_none(b.drop_last());
    }
}

/// The UTF-8 encoding of a character holds a line feed byte only when the
/// character is a line feed, which is that one byte.
proof fn lemma_scalar_newline(c: char)
    ensures
        c == '\n' ==> vstd::utf8::encode_scalar(c as u32) == seq![10u8],
        c != '\n' ==> forall|i: int| 0 <= i < vstd::utf8::encode_scalar(c as u32).len()
            ==> #[trigger] vstd::utf8::encode_scalar(c as u32)[i] != 10u8,
{
    let v = c as u32;
    if vstd::utf8::has_width_1_encoding(v) {
        assert((v & 0x7F) as u8 == 10u8 <==> v == 10u32) by (bit_vector)
            requires
                v <= 0x7F;
        if c == '\n' {
            assert(vstd::utf8::encode_scalar(v) =~= seq![10u8]);
        }
    } else {
        assert forall|x: u32| #[trigger] ((0xC0u8 | (x & 0x1F) as u8)) != 10u8 by {
            assert((0xC0u8 | (x & 0x1F) as u8) != 10u8) by (bit_vector);
        }
        assert forall|x: u32| #[trigger] ((0xE0u8 | (x & 0x0F) as u8)) != 10u8 by {
            assert((0xE0u8 | (x & 0x0F) as u8) != 10u8) by (bit_vector);
        }
        assert forall|x: u32| #[trigger] ((0xF0u8 | (x & 0x7) as u8)) != 10u8 by {
            assert((0xF0u8 | (x & 0x7) as u8) != 10u8) by (bit_vector);
        }
        assert forall|x: u32| #[trigger] ((0x80u8 | (x & 0x3F) as u8)) != 10u8 by {
            assert((0x80u8 | (x & 0x3F) as u8) != 10u8) by (bit_vector);
        }
        assert(c != '\n') by {
            assert(v != 10u32);
        }
    }
}

/// The line feed bytes of the encoding of the first `k` characters are the
/// line feeds among them.
proof fn lemma_newline_bytes_prefix(s: Seq<char>, k: int)
    requires
        0 <= k <= s.len(),
    ensures
        newline_bytes(encode_utf8(s.take(k))) == crate::compiler::newlines_before(s, k),
    decreases k,
{
    if k > 0 {
        lemma_newline_bytes_prefix(s, k - 1);
        assert(s.take(k) =~= s.take(k - 1) + seq![s[k - 1]]);
        crate::text::lemma_encode_utf8_concat(s.take(k - 1), seq![s[k - 1]]);
        let one = seq![s[k - 1]];
        assert(one.drop_first() =~= Seq::<char>::empty());
        assert(encode_utf8(one.drop_first()) =~= Seq::<u8>::empty());
        assert(one[0] == s[k - 1]);
        assert(encode_utf8(one) =~= vstd::utf8::encode_scalar(s[k - 1] as u32) + Seq::<u8>::empty());
        lemma_newline_bytes_concat(encode_utf8(s.take(k - 1)), encode_utf8(one));
        lemma_scalar_newline(s[k - 1]);
        if s[k - 1] == '\n' {
            assert(encode_utf8(one) =~= seq![10u8]);
            assert(seq![10u8].drop_last() =~= Seq::<u8>::empty());
            assert(newline_bytes(Seq::<u8>::empty()) == 0);
            assert(newline_bytes(seq![10u8]) == 1);
        } else {
            lemma_newline_bytes_none(encode_utf8(one));
        }
        assert(encode_utf8(s.take(k)) == encode_utf8(s.take(k - 1)) + encode_utf8(one));
        assert(crate::compiler::newlines_before(s, k) == crate::compiler::newlines_before(s, k - 1)
            + if s[k - 1] == '\n' { 1nat } else { 0nat });
    } else {
        assert(s.take(0) =~= Seq::<char>::empty());
        assert(encode_utf8(s.take(0)) =~= Seq::<u8>::empty());
    }
}

/// The number of line feed bytes before byte offset `x` of the text's
/// encoding (the whole text when `x` is past its end) is the number of line
/// feeds among the characters that start before `x`.
pub proof fn lemma_newline_bytes_before(s: Seq<char>, x: usize)
    requires
        text_fits(s),
    ensures
        newline_bytes(encode_utf8(s).take(
            if (x as int) < encode_utf8(s).len() { x as int } else { encode_utf8(s).len() as int },
        )) == crate::compiler::newlines_before(s, chars_before(s, x as int)),
{
    let n = s.len() as int;
    let e = encode_utf8(s);
    lemma_byte_offset_full(s);
    assert(s.take(n) =~= s);
    if x as int >= byte_offset(s, n) {
        assert forall|i: int| 0 <= i < n implies byte_offset(s, i) < x by {
            lemma_byte_offset_mono(s, i, n);
            lemma_byte_offset_step(s, i);
            vstd::utf8::char_is_scalar(s[i]);
            lemma_byte_offset_mono(s, i + 1, n);
        }
        lemma_chars_before(s, x as int, n);
        assert(e.take(e.len() as int) =~= e);
        lemma_newline_bytes_prefix(s, n);
    } else {
        let k = lemma_bracket(s, x as int, 0);
        assert forall|i: int| 0 <= i < k implies byte_offset(s, i) < byte_offset(s, k) by {
            lemma_byte_offset_mono(s, i, k);
        }
        crate::text::lemma_encode_utf8_concat(s.take(k), s.skip(k));
        assert(s.take(k) + s.skip(k) =~= s);
        let pre = encode_utf8(s.take(k));
        if x as int == byte_offset(s, k) {
            lemma_chars_before(s, x as int, k);
            assert(e.take(x as int) =~= pre);
            lemma_newline_bytes_prefix(s, k);
        } else {
            assert forall|i: int| 0 <= i < k + 1 implies byte_offset(s, i) < x by {
                lemma_byte_offset_mono(s, i, k);
            }
            lemma_byte_offset_mono(s, k + 1, n);
            lemma_chars_before(s, x as int, k + 1);
            let rest = s.skip(k);
            assert(rest[0] == s[k]);
            assert(encode_utf8(rest) =~= vstd::utf8::encode_scalar(s[k] as u32) + encode_utf8(rest.drop_first()));
            let sc = vstd::utf8::encode_scalar(s[k] as u32);
            lemma_byte_offset_step(s, k);
            let part = sc.take(x as int - pre.len());
            assert(e.take(x as int) =~= pre + part);
            lemma_newline_bytes_concat(pre, part);
            lemma_scalar_newline(s[k]);
            assert(s[k] != '\n') by {
                if s[k] == '\n' {
                    assert(sc.len() == 1);
                }
            }
            lemma_newline_bytes_none(part);
            lemma_newline_bytes_prefix(s, k);
            assert(crate::compiler::newlines_before(s, k + 1) == crate::compiler::newlines_before(s, k));
        }
    }
}

/// The line that `offset_to_line` gives for byte offset `x`, on the table
/// of line starts that `build_line_offsets` builds, is the number of line
/// feed bytes before `x` (in the whole text when `x` is past its end).
pub proof fn lemma_offset_to_line_counts_newlines(s: Seq<char>, table: Seq<usize>, x: usize, line: usize)
    requires
        text_fits(s),
        table == crate::compiler::line_starts(s),
        crate::compiler::strictly_increasing(table) ==> line == crate::compiler::line_index(table, x),
    ensures
        line == newline_bytes(encode_utf8(s).take(
            if (x as int) < encode_utf8(s).len() { x as int } else { encode_utf8(s).len() as int },
        )),
{
    crate::compiler::lemma_line_of_char(s, 0);
    lemma_line_of_offset(s, x);
    lemma_newline_bytes_before(s, x);
}

/// The line of any byte offset, by the table of line starts, is the number
/// of line feeds among the characters that start before it.
pub proof fn lemma_line_of_offset(s: Seq<char>, x: usize)
    requires
        text_fits(s),
    ensures
        crate::compiler::line_index(crate::compiler::line_starts(s), x) == crate::compiler::newlines_before(s, chars_before(s, x as int)),
{
    let n = s.len() as int;
    let ls = crate::compiler::line_starts(s);
    let ne = crate::compiler::newline_ends(s, n);
    lemma_byte_offset_full(s);
    lemma_newline_ends_boundaries(s, n);
    // every line start is a character boundary
    assert forall|i: int| 0 <= i < ls.len() implies exists|j: int| 0 <= j <= n && #[trigger] ls[i] == byte_offset(s, j) as usize by {
        if i == 0 {
            assert(ls[0] == byte_offset(s, 0) as usize);
        } else {
            assert(ls[i] == ne[i - 1]);
        }
    }
    if x as int >= byte_offset(s, n) {
        // past the last character: every boundary is before it
        crate::compiler::lemma_line_of_char(s, n);
        let y = byte_offset(s, n) as usize;
        assert forall|i: int| 0 <= i < ls.len() implies !(y < #[trigger] ls[i] && ls[i] <= x) by {
            let j = choose|j: int| 0 <= j <= n && ls[i] == byte_offset(s, j) as usize;
            lemma_byte_offset_mono(s, j, n);
        }
        lemma_count_same(ls, y, x);
        assert forall|i: int| 0 <= i < n implies byte_offset(s, i) < x by {
            lemma_byte_offset_mono(s, i, n);
        }
        lemma_chars_before(s, x as int, n);
    } else {
        let k = lemma_bracket(s, x as int, 0);
        crate::compiler::lemma_line_of_char(s, k);
        assert forall|i: int| 0 <= i < k implies byte_offset(s, i) < byte_offset(s, k) by {
            lemma_byte_offset_mono(s, i, k);
        }
        if x as int == byte_offset(s, k) {
            lemma_chars_before(s, x as int, k);
        } else {
            let y = byte_offset(s, k) as usize;
            lemma_byte_offset_step(s, k);
            lemma_byte_offset_mono(s, k + 1, n);
            assert forall|i: int| 0 <= i < ls.len() implies !(y < #[trigger] ls[i] && ls[i] <= x) by {
                let j = choose|j: int| 0 <= j <= n && ls[i] == byte_offset(s, j) as usize;
                lemma_byte_offset_mono(s, j, n);
                if j <= k {
                    lemma_byte_offset_mono(s, j, k);
                } else {
                    lemma_byte_offset_mono(s, k + 1, j);
                }
            }
            lemma_count_same(ls, y, x);
            assert forall|i: int| 0 <= i < k + 1 implies byte_offset(s, i) < x by {
                lemma_byte_offset_mono(s, i, k);
            }
            lemma_chars_before(s, x as int, k + 1);
            assert(s[k] != '\n');
            assert(crate::compiler::newlines_before(s, k + 1) == crate::compiler::newlines_before(s, k));
        }
    }
}

/// What `position_to_offset` answers for position `p` of text `s`: the byte
/// offset of a boundary with that position, or `None` when none has it.
pub open spec fn offset_answer(s: Seq<char>, p: (nat, nat), r: Option<usize>) -> bool {
    match r {
        Some(b) => exists|k: int| 0 <= k <= s.len() && pos_at(s, k) == p && b == byte_offset(s, k),
        None => forall|k: int| 0 <= k <= s.len() ==> pos_at(s, k) != p,
    }
}

/// Converting the byte offset of a character boundary to a position and
/// that position back to an offset gives the offset again; and an offset
/// found for a position converts back to that position.
pub proof fn lemma_offset_position_roundtrip(s: Seq<char>, k: int, p: (nat, nat), r: Option<usize>)
    requires
        text_fits(s),
        0 <= k <= s.len(),
        p == pos_at(s, chars_before(s, byte_offset(s, k) as int)),
        offset_answer(s, p, r),
    ensures
        r == Some(byte_offset(s, k) as usize),
        pos_at(s, chars_before(s, r->0 as int)) == p,
{
    lemma_position_roundtrip(s, k, k);
    assert(p == pos_at(s, k));
    lemma_byte_offset_mono(s, k, s.len() as int);
    lemma_byte_offset_full(s);
    match r {
        Some(b) => {
            let k2 = choose|k2: int| 0 <= k2 <= s.len() && pos_at(s, k2) == p && b == byte_offset(s, k2);
            lemma_position_roundtrip(s, k, k2);
        },
        None => {
            assert(pos_at(s, k) != p);
        },
    }
}

/// How a type is shown to the user.
pub open spec fn type_text(t: Type) -> Seq<char>
    decreases t,
{
    match t {
        Type::I64 => "int"@,
        Type::F32 => "f32"@,
        Type::F64 => "float"@,
        Type::Bool => "bool"@,
        Type::Str => "str"@,
        Type::Unit => "()"@,
        Type::Any => "any"@,
        Type::Named(n) => n@,
        Type::Generic(n) => n@,
        Type::Array(inner) => "["@ + type_text(*inner) + "]"@,
        Type::Fn { params, ret } => "fn("@ + types_text(params@) + ") -> "@ + type_text(*ret),
        Type::Option(inner) => "Option<"@ + type_text(*inner) + ">"@,
        Type::Result(ok, err) => "Result<"@ + type_text(*ok) + ", "@ + type_text(*err) + ">"@,
    }
}

/// Types shown one after another, separated by `, `.
pub open spec fn types_text(ts: Seq<Type>) -> Seq<char>
    decreases ts,
{
    if ts.len() == 0 {
        seq![]
    } else if ts.len() == 1 {
        type_text(ts[0])
    } else {
        type_text(ts[0]) + ", "@ + types_text(ts.drop_first())
    }
}

/// Append how `ty` is shown.
pub fn push_type(out: &mut String, ty: &Type)
    ensures
        final(out)@ == old(out)@ + type_text(*ty),
    decreases ty,
{
    match ty {
        Type::I64 => push_str_chars(out, "int"),
        Type::F32 => push_str_chars(out, "f32"),
        Type::F64 => push_str_chars(out, "float"),
        Type::Bool => push_str_chars(out, "bool"),
        Type::Str => push_str_chars(out, "str"),
        Type::Unit => push_str_chars(out, "()"),
        Type::Any => push_str_chars(out, "any"),
        Type::Named(n) => push_str_chars(out, n.as_str()),
        Type::Generic(n) => push_str_chars(out, n.as_str()),
        Type::Array(inner) => {
            push_str_chars(out, "[");
            push_type(out, inner);
            push_str_chars(out, "]");
        },
        Type::Fn { params, ret } => {
            push_str_chars(out, "fn(");
            push_types(out, params);
            push_str_chars(out, ") -> ");
            push_type(out, ret);
        },
        Type::Option(inner) => {
            push_str_chars(out, "Option<");
            push_type(out, inner);
            push_str_chars(out, ">");
        },
        Type::Result(ok, err) => {
            push_str_chars(out, "Result<");
            push_type(out, ok);
            push_str_chars(out, ", ");
            push_type(out, err);
            push_str_chars(out, ">");
        },
    }
    proof {
        assert(final(out)@ =~= old(out)@ + type_text(*ty));
    }
}

proof fn lemma_types_text_step(ts: Seq<Type>, k: int)
    requires
        0 <= k < ts.len(),
    ensures
        types_text(ts.take(k + 1)) == if k == 0 { type_text(ts[0]) } else { types_text(ts.take(k)) + ", "@ + type_text(ts[k]) },
    decreases k,
{
    if k > 0 {
        let a = ts.take(k + 1);
        assert(a.drop_first() =~= ts.drop_first().take(k));
        lemma_types_text_step(ts.drop_first(), k - 1);
        if k > 1 {
            assert(ts.take(k).drop_first() =~= ts.drop_first().take(k - 1));
        } else {
            assert(ts.take(1).len() == 1);
            assert(ts.drop_first().take(1) =~= seq![ts[1]]);
        }
        assert(ts.drop_first()[k - 1] == ts[k]);
        assert(ts.take(k)[0] == ts[0]);
    }
}

/// Append the types of `v`, separated by `, `.
pub fn push_types(out: &mut String, v: &Vec<Type>)
    ensures
        final(out)@ == old(out)@ + types_text(v@),
    decreases v,
{
    let mut i: usize = 0;
    while i < v.len()
        invariant
            i <= v@.len(),
            out@ == old(out)@ + types_text(v@.take(i as int)),
        decreases v@.len() - i,
    {
        proof {
            assert(decreases_to!(v => v@[i as int]));
            lemma_types_text_step(v@, i as int);
        }
        let ghost before = out@;
        if i > 0 {
            push_str_chars(out, ", ");
        }
        push_type(out, &v[i]);
        proof {
            if i == 0 {
                assert(v@.take(0) =~= Seq::<Type>::empty());
                assert(out@ =~= old(out)@ + types_text(v@.take(1)));
            } else {
                assert(out@ =~= old(out)@ + types_text(v@.take(i + 1)));
            }
        }
        i = i + 1;
    }
    proof {
        assert(v@.take(v@.len() as int) =~= v@);
        if v@.len() == 0 {
            assert(v@.take(0) =~= Seq::<Type>::empty());
        }
    }
}

/// How a type is shown to the user.
pub fn type_display(ty: &Type) -> (s: String)
    ensures
        s@ == type_text(*ty),
{
    let mut out = String::new();
    push_type(&mut out, ty);
    out
}

/// The kinds of highlighted tokens an editor is told about.
#[derive(Debug, Clone, Copy, PartialEq, Eq, Structural)]
pub enum SemanticKind {
    Keyword,
    Str,
    Number,
    Variable,
    Function,
    Type,
    Operator,
}

/// The position of a kind in the legend sent to the editor.
pub open spec fn kind_index(k: SemanticKind) -> u32 {
    match k {
        SemanticKind::Keyword => 0,
        SemanticKind::Str => 1,
        SemanticKind::Number => 2,
        SemanticKind::Variable => 3,
        SemanticKind::Function => 4,
        SemanticKind::Type => 5,
        SemanticKind::Operator => 6,
    }
}

pub fn token_type_index(ty: SemanticKind) -> (i: u32)
    ensures
        i == kind_index(ty),
{
    match ty {
        SemanticKind::Keyword => 0,
        SemanticKind::Str => 1,
        SemanticKind::Number => 2,
        SemanticKind::Variable => 3,
        SemanticKind::Function => 4,
        SemanticKind::Type => 5,
        SemanticKind::Operator => 6,
    }
}

/// How a token of kind `k` and text `lexeme` is highlighted; an identifier by
/// what it resolves to in `symbols` (a variable when it resolves to nothing);
/// `None` for tokens left plain.
pub open spec fn classify(k: TokenKindView, lexeme: Seq<char>, symbols: SymbolTable) -> Option<SemanticKind> {
    match k {
        TokenKindView::Fn | TokenKindView::Let | TokenKindView::Mut | TokenKindView::If | TokenKindView::Else
        | TokenKindView::While | TokenKindView::For | TokenKindView::Loop | TokenKindView::Break
        | TokenKindView::Continue | TokenKindView::Return | TokenKindView::Match | TokenKindView::In
        | TokenKindView::Struct | TokenKindView::Enum | TokenKindView::Impl | TokenKindView::Trait
        | TokenKindView::Self_ | TokenKindView::Pub | TokenKindView::Use | TokenKindView::Mod
        | TokenKindView::Const | TokenKindView::Type | TokenKindView::Underscore => Some(SemanticKind::Keyword),
        TokenKindView::Str(_) => Some(SemanticKind::Str),
        TokenKindView::Int(_) | TokenKindView::Float(_) => Some(SemanticKind::Number),
        TokenKindView::Bool(_) => Some(SemanticKind::Keyword),
        TokenKindView::Ident(_) => match symbols.resolves(lexeme) {
            Some(e) => match e.kind {
                SymKind::Function(_) => Some(SemanticKind::Function),
                SymKind::Variable(_) => Some(SemanticKind::Variable),
                _ => Some(SemanticKind::Type),
            },
            None => Some(SemanticKind::Variable),
        },
        TokenKindView::Plus | TokenKindView::Minus | TokenKindView::Star | TokenKindView::Slash
        | TokenKindView::Percent | TokenKindView::Eq | TokenKindView::EqEq | TokenKindView::Ne | TokenKindView::Lt
        | TokenKindView::Gt | TokenKindView::Le | TokenKindView::Ge | TokenKindView::And | TokenKindView::AndAnd
        | TokenKindView::Or | TokenKindView::OrOr | TokenKindView::Bang | TokenKindView::Dot
        | TokenKindView::DotDot | TokenKindView::DotDotEq | TokenKindView::Comma | TokenKindView::Semi
        | TokenKindView::Colon | TokenKindView::ColonColon | TokenKindView::Arrow | TokenKindView::FatArrow => {
            Some(SemanticKind::Operator)
        },
        _ => None,
    }
}

/// How a token is highlighted.
pub fn semantic_kind(tok: &Token, symbols: &SymbolTable) -> (r: Option<SemanticKind>)
    requires
        symbols.wf(),
    ensures
        r == classify(tok.kind@, tok.lexeme@, *symbols),
{
    match &tok.kind {
        TokenKind::Fn | TokenKind::Let | TokenKind::Mut | TokenKind::If | TokenKind::Else | TokenKind::While
        | TokenKind::For | TokenKind::Loop | TokenKind::Break | TokenKind::Continue | TokenKind::Return
        | TokenKind::Match | TokenKind::In | TokenKind::Struct | TokenKind::Enum | TokenKind::Impl
        | TokenKind::Trait | TokenKind::Self_ | TokenKind::Pub | TokenKind::Use | TokenKind::Mod
        | TokenKind::Const | TokenKind::Type | TokenKind::Underscore => Some(SemanticKind::Keyword),
        TokenKind::Str(_) => Some(SemanticKind::Str),
        TokenKind::Int(_) | TokenKind::Float(_) => Some(SemanticKind::Number),
        TokenKind::Bool(_) => Some(SemanticKind::Keyword),
        TokenKind::Ident(_) => match symbols.lookup(tok.lexeme.as_str()) {
            Some(entry) => match &entry.kind {
                SymKind::Function(_) => Some(SemanticKind::Function),
                SymKind::Variable(_) => Some(SemanticKind::Variable),
                _ => Some(SemanticKind::Type),
            },
            None => Some(SemanticKind::Variable),
        },
        TokenKind::Plus | TokenKind::Minus | TokenKind::Star | TokenKind::Slash | TokenKind::Percent
        | TokenKind::Eq | TokenKind::EqEq | TokenKind::Ne | TokenKind::Lt | TokenKind::Gt | TokenKind::Le
        | TokenKind::Ge | TokenKind::And | TokenKind::AndAnd | TokenKind::Or | TokenKind::OrOr | TokenKind::Bang
        | TokenKind::Dot | TokenKind::DotDot | TokenKind::DotDotEq | TokenKind::Comma | TokenKind::Semi
        | TokenKind::Colon | TokenKind::ColonColon | TokenKind::Arrow | TokenKind::FatArrow => {
            Some(SemanticKind::Operator)
        },
        _ => None,
    }
}

/// A highlighted token as an editor receives it: its start relative to the
/// previous highlighted token (the line difference, and the column difference
/// on the same line or the column on a new line), its length in bytes, and its
/// kind's index.
#[derive(Debug, Clone, Copy, PartialEq, Eq, Structural)]
pub struct SemanticToken {
    pub delta_line: u32,
    pub delta_start: u32,
    pub length: u32,
    pub token_type: u32,
    pub token_modifiers_bitset: u32,
}

/// The highlighted tokens among `ts` (tokens read from `s`), each placed
/// relative to the one before, the first relative to `prev`.
pub open spec fn encode_tokens(ts: Seq<SpecToken>, s: Seq<char>, symbols: SymbolTable, prev: (nat, nat)) -> Seq<SemanticToken>
    decreases ts.len(),
{
    if ts.len() == 0 {
        seq![]
    } else {
        let t = ts[0];
        let len = (byte_offset(s, t.end) - byte_offset(s, t.start)) as u32;
        let pos = pos_at(s, t.start);
        match classify(t.kind, s.subrange(t.start, t.end), symbols) {
            Some(k) => if len == 0 {
                encode_tokens(ts.drop_first(), s, symbols, prev)
            } else {
                seq![SemanticToken {
                    delta_line: if pos.0 == prev.0 { 0 } else { (pos.0 - prev.0) as u32 },
                    delta_start: if pos.0 == prev.0 { (pos.1 - prev.1) as u32 } else { pos.1 as u32 },
                    length: len,
                    token_type: kind_index(k),
                    token_modifiers_bitset: 0,
                }] + encode_tokens(ts.drop_first(), s, symbols, pos)
            },
            None => encode_tokens(ts.drop_first(), s, symbols, prev),
        }
    }
}

/// The highlighting of `source`: its tokens other than comments, classified
/// and placed relative to each other; `None` when the text does not lex.
pub fn semantic_tokens(source: &str, symbols: &SymbolTable) -> (r: Option<Vec<SemanticToken>>)
    requires
        text_fits(source@),
        source@.len() <= u32::MAX,
        lexable_from(source@, 0),
        symbols.wf(),
    ensures
        ({
            let all = lex_from(source@, 0);
            match r {
                Some(v) => error_count_zero(all) && v@ == encode_tokens(without_comments(all), source@, *symbols, (0, 0)),
                None => !error_count_zero(all),
            }
        }),
{
    let lexed = Lexer::new(source).tokenize();
    let ts = match lexed {
        Ok(ts) => ts,
        Err(_) => return None,
    };
    let ghost s = source@;
    let ghost sts = without_comments(lex_from(s, 0));
    proof {
        lemma_lex_from_ordered(s, 0);
        lemma_without_comments_ordered(lex_from(s, 0));
    }
    let mut out: Vec<SemanticToken> = Vec::new();
    let mut prev_line: u32 = 0;
    let mut prev_col: u32 = 0;
    let ghost mut prev_idx: int = 0;
    let mut k: usize = 0;
    proof {
        assert(sts.skip(0) =~= sts);
        assert(out@ + encode_tokens(sts, s, *symbols, (0, 0)) =~= encode_tokens(sts, s, *symbols, (0, 0)));
    }
    while k < ts.len()
        invariant
            s == source@,
            text_fits(s),
            s.len() <= u32::MAX,
            symbols.wf(),
            sts == without_comments(lex_from(s, 0)),
            tokens_match(ts@, sts, s),
            k <= ts@.len(),
            forall|a: int, b: int| 0 <= a < b < sts.len() ==> sts[a].start < sts[b].start,
            0 <= prev_idx <= s.len(),
            k < sts.len() ==> prev_idx <= sts[k as int].start,
            (prev_line as nat, prev_col as nat) == pos_at(s, prev_idx),
            out@ + encode_tokens(sts.skip(k as int), s, *symbols, (prev_line as nat, prev_col as nat))
                == encode_tokens(sts, s, *symbols, (0, 0)),
        decreases ts@.len() - k,
    {
        let t = &ts[k];
        let ghost st = sts[k as int];
        proof {
            assert(token_matches(ts@[k as int], st, s));
            lemma_position_roundtrip(s, st.start, st.start);
            crate::text::lemma_byte_offset_mono(s, st.start, st.end);
            assert(sts.skip(k as int)[0] == st);
            assert(sts.skip(k as int).drop_first() =~= sts.skip(k + 1));
            if k + 1 < sts.len() {
                assert(st.start < sts[k + 1].start);
            }
            if prev_idx < st.start {
                lemma_pos_increasing(s, prev_idx, st.start);
            }
            lemma_pos_bounds(s, st.start);
        }
        let pos = offset_to_position(source, t.span.0);
        #[verifier::truncate]
        let len = (t.span.1 - t.span.0) as u32;
        let kind = semantic_kind(&t.node, symbols);
        match kind {
            Some(kd) => {
                if len != 0 {
                    let delta_line = if pos.line == prev_line { 0 } else { pos.line - prev_line };
                    let delta_col = if pos.line == prev_line { pos.character - prev_col } else { pos.character };
                    out.push(SemanticToken {
                        delta_line,
                        delta_start: delta_col,
                        length: len,
                        token_type: token_type_index(kd),
                        token_modifiers_bitset: 0,
                    });
                    prev_line = pos.line;
                    prev_col = pos.character;
                    proof {
                        prev_idx = st.start;
                    }
                }
            },
            None => {},
        }
        proof {
            assert(out@ + encode_tokens(sts.skip(k + 1), s, *symbols, (prev_line as nat, prev_col as nat))
                =~= encode_tokens(sts, s, *symbols, (0, 0)));
        }
        k = k + 1;
    }
    proof {
        assert(sts.skip(ts@.len() as int) =~= Seq::<SpecToken>::empty());
        assert(out@ + Seq::<SemanticToken>::empty() =~= out@);
    }
    Some(out)
}

/// No errors were reported while reading `ts`.
pub open spec fn error_count_zero(ts: Seq<SpecToken>) -> bool {
    crate::lexer_spec::error_count(ts) == 0
}

/// Where the line holding position `hi - 1` starts (0, or just after a line feed).
pub open spec fn line_start(t: Seq<char>, hi: int) -> int
    decreases hi,
{
    if hi <= 0 {
        0
    } else if t[hi - 1] == '\n' {
        hi
    } else {
        line_start(t, hi - 1)
    }
}

/// A trimmed line that starts a comment.
pub open spec fn is_comment_line(tr: Seq<char>) -> bool {
    tr.len() >= 2 && tr[0] == '/' && (tr[1] == '/' || tr[1] == '*')
}

/// The trimmed comment lines right before position `hi` of `t`, in order:
/// walking back from the line that ends at `hi`, blank lines are passed over
/// and the walk stops at the first line that is neither blank nor a comment.
pub open spec fn comments_back(t: Seq<char>, hi: int) -> Seq<Seq<char>>
    decreases hi,
{
    let lo = line_start(t, hi);
    let tr = trimmed(t, lo, hi);
    let rest = if 0 < lo <= hi { comments_back(t, lo - 1) } else { Seq::empty() };
    if is_comment_line(tr) {
        rest.push(tr)
    } else if tr.len() == 0 {
        rest
    } else {
        Seq::empty()
    }
}

/// Lines joined by line feeds.
pub open spec fn join_lines(ls: Seq<Seq<char>>) -> Seq<char>
    decreases ls.len(),
{
    if ls.len() == 0 {
        seq![]
    } else if ls.len() == 1 {
        ls[0]
    } else {
        join_lines(ls.drop_last()) + seq!['\n'] + ls.last()
    }
}

proof fn lemma_line_start_bounds(t: Seq<char>, hi: int)
    requires
        0 <= hi <= t.len(),
    ensures
        0 <= line_start(t, hi) <= hi,
        line_start(t, hi) > 0 ==> t[line_start(t, hi) - 1] == '\n',
        forall|j: int| line_start(t, hi) <= j < hi ==> t[j] != '\n',
    decreases hi,
{
    if hi > 0 && t[hi - 1] != '\n' {
        lemma_line_start_bounds(t, hi - 1);
    }
}

/// The comment lines written just before byte offset `offset` of `source`,
/// joined by line feeds; `None` when there are none.
pub fn comment_before(source: &str, offset: usize) -> (r: Option<String>)
    requires
        text_fits(source@),
        exists|m: int| 0 <= m <= source@.len() && byte_offset(source@, m) == offset,
    ensures
        ({
            let m = chars_before(source@, offset as int);
            let cs = comments_back(source@, m);
            match r {
                Some(c) => cs.len() > 0 && c@ == join_lines(cs),
                None => cs.len() == 0,
            }
        }),
{
    let chars = chars_of(source);
    let ghost s = source@;
    // the character position of `offset`
    let mut m: usize = 0;
    let mut pos: usize = 0;
    proof {
        crate::text::lemma_byte_offset_full(s);
    }
    while m < chars.len() && pos < offset
        invariant
            chars@ == s,
            text_fits(s),
            m <= s.len(),
            pos == byte_offset(s, m as int),
            forall|i: int| 0 <= i < m ==> byte_offset(s, i) < offset,
            exists|q: int| m <= q <= s.len() && byte_offset(s, q) == offset,
        decreases s.len() - m,
    {
        proof {
            crate::text::lemma_byte_offset_step(s, m as int);
            crate::text::lemma_byte_offset_mono(s, m as int + 1, s.len() as int);
            crate::text::lemma_byte_offset_full(s);
            let q = choose|q: int| m <= q <= s.len() && byte_offset(s, q) == offset;
            if q == m {
                assert(false);
            }
            assert(q >= m + 1);
        }
        pos = pos + crate::text::utf8_width(chars[m]);
        m = m + 1;
    }
    proof {
        let q = choose|q: int| m <= q <= s.len() && byte_offset(s, q) == offset;
        if m < q {
            crate::text::lemma_byte_offset_mono(s, m as int + 1, q);
            crate::text::lemma_byte_offset_step(s, m as int);
            vstd::utf8::char_is_scalar(s[m as int]);
        }
        lemma_chars_before(s, offset as int, m as int);
    }
    // walk back over the lines ending at `m`
    let mut found: Vec<(usize, usize)> = Vec::new();
    let mut hi: usize = m;
    let mut done = false;
    let ghost mut acc: Seq<Seq<char>> = Seq::empty();
    while !done
        invariant
            chars@ == s,
            hi <= m <= s.len(),
            comments_back(s, m as int) == (if done { Seq::empty() } else { comments_back(s, hi as int) }) + acc,
            found@.len() == acc.len(),
            forall|k: int| 0 <= k < found@.len() ==> {
                &&& (#[trigger] found@[k]).0 <= found@[k].1 <= s.len()
                &&& s.subrange(found@[k].0 as int, found@[k].1 as int) == acc[acc.len() - 1 - k]
            },
        decreases hi, if done { 0int } else { 1int },
    {
        let mut lo = hi;
        while lo > 0 && chars[lo - 1] != '\n'
            invariant
                lo <= hi <= s.len(),
                chars@ == s,
                line_start(s, hi as int) == line_start(s, lo as int),
            decreases lo,
        {
            lo = lo - 1;
        }
        proof {
            lemma_line_start_bounds(s, hi as int);
            assert(line_start(s, lo as int) == lo);
        }
        let mut a = lo;
        while a < hi && char_is_whitespace(chars[a])
            invariant
                lo <= a <= hi <= s.len(),
                chars@ == s,
                skip_ws_fwd(s, lo as int, hi as int) == skip_ws_fwd(s, a as int, hi as int),
            decreases hi - a,
        {
            a = a + 1;
        }
        let mut b = hi;
        while b > a && char_is_whitespace(chars[b - 1])
            invariant
                a <= b <= hi <= s.len(),
                chars@ == s,
                skip_ws_bwd(s, a as int, hi as int) == skip_ws_bwd(s, a as int, b as int),
            decreases b - a,
        {
            b = b - 1;
        }
        let ghost tr = s.subrange(a as int, b as int);
        proof {
            assert(trimmed(s, lo as int, hi as int) == tr);
        }
        let is_comment = b - a >= 2 && chars[a] == '/' && (chars[a + 1] == '/' || chars[a + 1] == '*');
        proof {
            assert(is_comment == is_comment_line(tr));
        }
        let ghost before_acc = acc;
        if is_comment {
            found.push((a, b));
            proof {
                acc = seq![tr] + acc;
                assert forall|k: int| 0 <= k < found@.len() implies {
                    &&& (#[trigger] found@[k]).0 <= found@[k].1 <= s.len()
                    &&& s.subrange(found@[k].0 as int, found@[k].1 as int) == acc[acc.len() - 1 - k]
                } by {
                    if k < found@.len() - 1 {
                        assert(acc[acc.len() - 1 - k] == before_acc[before_acc.len() - 1 - k]);
                    }
                }
            }
            if lo == 0 {
                done = true;
                proof {
                    assert(comments_back(s, hi as int) =~= Seq::<Seq<char>>::empty().push(tr));
                    assert(comments_back(s, m as int) =~= Seq::<Seq<char>>::empty() + acc);
                }
            } else {
                proof {
                    assert(comments_back(s, hi as int) == comments_back(s, lo - 1).push(tr));
                    assert(comments_back(s, m as int) =~= comments_back(s, lo - 1) + acc);
                }
                hi = lo - 1;
            }
        } else if a == b {
            if lo == 0 {
                done = true;
                proof {
                    assert(comments_back(s, hi as int) =~= Seq::<Seq<char>>::empty());
                    assert(comments_back(s, m as int) =~= Seq::<Seq<char>>::empty() + acc);
                }
            } else {
                proof {
                    assert(comments_back(s, hi as int) == comments_back(s, lo - 1));
                }
                hi = lo - 1;
            }
        } else {
            done = true;
            proof {
                assert(comments_back(s, hi as int) =~= Seq::<Seq<char>>::empty());
                assert(comments_back(s, m as int) =~= Seq::<Seq<char>>::empty() + acc);
            }
        }
    }
    proof {
        assert(comments_back(s, m as int) =~= acc);
    }
    if found.len() == 0 {
        return None;
    }
    // join in text order: the last found first
    let mut out = String::new();
    let n = found.len();
    let mut k: usize = 0;
    while k < n
        invariant
            n == found@.len() == acc.len(),
            n > 0,
            k <= n,
            chars@ == s,
            forall|j: int| 0 <= j < found@.len() ==> {
                &&& (#[trigger] found@[j]).0 <= found@[j].1 <= s.len()
                &&& s.subrange(found@[j].0 as int, found@[j].1 as int) == acc[acc.len() - 1 - j]
            },
            k == 0 ==> out@.len() == 0,
            k > 0 ==> out@ == join_lines(acc.take(k as int)),
        decreases n - k,
    {
        let (a, b) = found[n - 1 - k];
        let ghost before = out@;
        if k > 0 {
            string_push(&mut out, '\n');
        }
        push_chars(&mut out, &chars, a, b);
        proof {
            assert(found@[n - 1 - k] == (a, b));
            assert(s.subrange(a as int, b as int) == acc[k as int]);
            let t = acc.take(k + 1);
            assert(t.drop_last() =~= acc.take(k as int));
            assert(t.last() == acc[k as int]);
            if k == 0 {
                assert(out@ =~= join_lines(t));
            } else {
                assert(out@ =~= join_lines(t));
            }
        }
        k = k + 1;
    }
    proof {
        assert(acc.take(n as int) =~= acc);
    }
    Some(out)
}

/// Pieces of text separated by `sep`.
pub open spec fn joined(items: Seq<Seq<char>>, sep: Seq<char>) -> Seq<char>
    decreases items.len(),
{
    if items.len() == 0 {
        seq![]
    } else if items.len() == 1 {
        items[0]
    } else {
        joined(items.drop_last(), sep) + sep + items.last()
    }
}

pub proof fn lemma_joined_step(items: Seq<Seq<char>>, sep: Seq<char>, k: int)
    requires
        0 <= k < items.len(),
    ensures
        joined(items.take(k + 1), sep) == if k == 0 { items[0] } else { joined(items.take(k), sep) + sep + items[k] },
{
    let t = items.take(k + 1);
    assert(t.drop_last() =~= items.take(k));
    assert(t.last() == items[k]);
}

/// A parameter or field shown as `name: type`.
pub open spec fn typed_name(n: Seq<char>, t: Type) -> Seq<char> {
    n + ": "@ + type_text(t)
}

/// How a symbol's meaning is shown when hovering over its name.
pub open spec fn symkind_text(kind: SymKind) -> Seq<char> {
    match kind {
        SymKind::Variable(ty) => type_text(ty),
        SymKind::Function(sig) => "fn("@ + joined(sig.params@.map_values(|p: (String, Type)| typed_name(p.0@, p.1)), ", "@)
            + ") -> "@ + match sig.return_type {
            Some(t) => type_text(t),
            None => "?"@,
        },
        SymKind::Struct(def) => "struct { "@ + joined(
            def.fields@.map_values(|f: crate::ast::StructField| typed_name(f.name@, f.type_ann)),
            ", "@,
        ) + " }"@,
        SymKind::Enum(def) => "enum { "@ + joined(def.variants@.map_values(|v: (String, Vec<Type>)| v.0@), ", "@) + " }"@,
        SymKind::Module(_) => "module"@,
        SymKind::Trait(def) => "trait { "@ + joined(def.method_sigs@.map_values(|m: FnSignature| m.name@), ", "@) + " }"@,
        SymKind::EnumConstructor { enum_name, variant_name, tag: _, fields } => variant_name@ + (if fields@.len() == 0 {
            Seq::<char>::empty()
        } else {
            "("@ + types_text(fields@) + ")"@
        }) + " (enum "@ + enum_name@ + ")"@,
        SymKind::TypeParam(name) => "type param '"@ + name@ + "'"@,
    }
}

/// Append `items` separated by `, `, each item `name: type` from a pair.
fn push_typed_names(out: &mut String, items: &Vec<(String, Type)>)
    ensures
        final(out)@ == old(out)@ + joined(items@.map_values(|p: (String, Type)| typed_name(p.0@, p.1)), ", "@),
{
    let ghost v = items@.map_values(|p: (String, Type)| typed_name(p.0@, p.1));
    let mut i: usize = 0;
    while i < items.len()
        invariant
            i <= items@.len(),
            v == items@.map_values(|p: (String, Type)| typed_name(p.0@, p.1)),
            out@ == old(out)@ + joined(v.take(i as int), ", "@),
        decreases items@.len() - i,
    {
        proof {
            lemma_joined_step(v, ", "@, i as int);
        }
        if i > 0 {
            push_str_chars(out, ", ");
        }
        push_str_chars(out, items[i].0.as_str());
        push_str_chars(out, ": ");
        push_type(out, &items[i].1);
        proof {
            assert(v[i as int] == typed_name(items@[i as int].0@, items@[i as int].1));
            if i == 0 {
                assert(v.take(0) =~= Seq::<Seq<char>>::empty());
            }
            assert(out@ =~= old(out)@ + joined(v.take(i + 1), ", "@));
        }
        i = i + 1;
    }
    proof {
        assert(v.take(items@.len() as int) =~= v);
        if items@.len() == 0 {
            assert(v.take(0) =~= Seq::<Seq<char>>::empty());
        }
    }
}

/// Append the fields of a struct separated by `, `, each `name: type`.
fn push_fields(out: &mut String, items: &Vec<crate::ast::StructField>)
    ensures
        final(out)@ == old(out)@ + joined(items@.map_values(|f: crate::ast::StructField| typed_name(f.name@, f.type_ann)), ", "@),
{
    let ghost v = items@.map_values(|f: crate::ast::StructField| typed_name(f.name@, f.type_ann));
    let mut i: usize = 0;
    while i < items.len()
        invariant
            i <= items@.len(),
            v == items@.map_values(|f: crate::ast::StructField| typed_name(f.name@, f.type_ann)),
            out@ == old(out)@ + joined(v.take(i as int), ", "@),
        decreases items@.len() - i,
    {
        proof {
            lemma_joined_step(v, ", "@, i as int);
        }
        if i > 0 {
            push_str_chars(out, ", ");
        }
        push_str_chars(out, items[i].name.as_str());
        push_str_chars(out, ": ");
        push_type(out, &items[i].type_ann);
        proof {
            assert(v[i as int] == typed_name(items@[i as int].name@, items@[i as int].type_ann));
            if i == 0 {
                assert(v.take(0) =~= Seq::<Seq<char>>::empty());
            }
            assert(out@ =~= old(out)@ + joined(v.take(i + 1), ", "@));
        }
        i = i + 1;
    }
    proof {
        assert(v.take(items@.len() as int) =~= v);
        if items@.len() == 0 {
            assert(v.take(0) =~= Seq::<Seq<char>>::empty());
        }
    }
}

/// Append names separated by `, `.
fn push_names(out: &mut String, names: &Vec<String>)
    ensures
        final(out)@ == old(out)@ + joined(names@.map_values(|n: String| n@), ", "@),
{
    let ghost v = names@.map_values(|n: String| n@);
    let mut i: usize = 0;
    while i < names.len()
        invariant
            i <= names@.len(),
            v == names@.map_values(|n: String| n@),
            out@ == old(out)@ + joined(v.take(i as int), ", "@),
        decreases names@.len() - i,
    {
        proof {
            lemma_joined_step(v, ", "@, i as int);
        }
        if i > 0 {
            push_str_chars(out, ", ");
        }
        push_str_chars(out, names[i].as_str());
        proof {
            if i == 0 {
                assert(v.take(0) =~= Seq::<Seq<char>>::empty());
            }
            assert(out@ =~= old(out)@ + joined(v.take(i + 1), ", "@));
        }
        i = i + 1;
    }
    proof {
        assert(v.take(names@.len() as int) =~= v);
        if names@.len() == 0 {
            assert(v.take(0) =~= Seq::<Seq<char>>::empty());
        }
    }
}

/// How a symbol's meaning is shown when hovering over its name.
pub fn symkind_display(kind: &SymKind) -> (s: String)
    ensures
        s@ == symkind_text(*kind),
{
    let mut out = String::new();
    match kind {
        SymKind::Variable(ty) => {
            push_type(&mut out, ty);
        },
        SymKind::Function(sig) => {
            push_str_chars(&mut out, "fn(");
            push_typed_names(&mut out, &sig.params);
            push_str_chars(&mut out, ") -> ");
            match &sig.return_type {
                Some(t) => push_type(&mut out, t),
                None => push_str_chars(&mut out, "?"),
            }
        },
        SymKind::Struct(def) => {
            push_str_chars(&mut out, "struct { ");
            push_fields(&mut out, &def.fields);
            push_str_chars(&mut out, " }");
        },
        SymKind::Enum(def) => {
            let mut names: Vec<String> = Vec::new();
            let mut i: usize = 0;
            while i < def.variants.len()
                invariant
                    i <= def.variants@.len(),
                    names@.len() == i,
                    forall|j: int| 0 <= j < i ==> #[trigger] names@[j]@ == def.variants@[j].0@,
                decreases def.variants@.len() - i,
            {
                names.push(def.variants[i].0.clone());
                i = i + 1;
            }
            proof {
                assert(names@.map_values(|n: String| n@) =~= def.variants@.map_values(|v: (String, Vec<Type>)| v.0@));
            }
            push_str_chars(&mut out, "enum { ");
            push_names(&mut out, &names);
            push_str_chars(&mut out, " }");
        },
        SymKind::Module(_) => {
            push_str_chars(&mut out, "module");
        },
        SymKind::Trait(def) => {
            let mut names: Vec<String> = Vec::new();
            let mut i: usize = 0;
            while i < def.method_sigs.len()
                invariant
                    i <= def.method_sigs@.len(),
                    names@.len() == i,
                    forall|j: int| 0 <= j < i ==> #[trigger] names@[j]@ == def.method_sigs@[j].name@,
                decreases def.method_sigs@.len() - i,
            {
                names.push(def.method_sigs[i].name.clone());
                i = i + 1;
            }
            proof {
                assert(names@.map_values(|n: String| n@) =~= def.method_sigs@.map_values(|m: FnSignature| m.name@));
            }
            push_str_chars(&mut out, "trait { ");
            push_names(&mut out, &names);
            push_str_chars(&mut out, " }");
        },
        SymKind::EnumConstructor { enum_name, variant_name, tag: _, fields } => {
            push_str_chars(&mut out, variant_name.as_str());
            if fields.len() > 0 {
                push_str_chars(&mut out, "(");
                push_types(&mut out, fields);
                push_str_chars(&mut out, ")");
            }
            push_str_chars(&mut out, " (enum ");
            push_str_chars(&mut out, enum_name.as_str());
            push_str_chars(&mut out, ")");
        },
        SymKind::TypeParam(name) => {
            push_str_chars(&mut out, "type param '");
            push_str_chars(&mut out, name.as_str());
            push_str_chars(&mut out, "'");
        },
    }
    proof {
        assert(out@ =~= symkind_text(*kind));
    }
    out
}

/// The kinds of completion entries offered to the editor.
#[derive(Debug, Clone, Copy, PartialEq, Eq, Structural)]
pub enum CompletionKind {
    Keyword,
    Variable,
    Function,
    Struct,
    Enum,
    TypeParameter,
    Interface,
    Module,
}

/// One completion entry: its label, its kind, and a detail line.
#[derive(Debug, Clone, PartialEq, Eq)]
pub struct CompletionEntry {
    pub label: String,
    pub kind: CompletionKind,
    pub detail: Option<String>,
}

/// The keywords always offered, in order.
pub open spec fn completion_keywords() -> Seq<Seq<char>> {
    seq![
        "fn"@, "let"@, "mut"@, "if"@, "else"@, "while"@, "for"@, "loop"@, "break"@, "continue"@, "return"@,
        "match"@, "in"@, "struct"@, "enum"@, "impl"@, "trait"@, "true"@, "false"@,
    ]
}

/// The completion kind of a symbol.
pub open spec fn completion_kind_of(kind: SymKind) -> CompletionKind {
    match kind {
        SymKind::Variable(_) => CompletionKind::Variable,
        SymKind::Function(_) => CompletionKind::Function,
        SymKind::Struct(_) => CompletionKind::Struct,
        SymKind::Enum(_) => CompletionKind::Enum,
        SymKind::EnumConstructor { .. } => CompletionKind::Enum,
        SymKind::TypeParam(_) => CompletionKind::TypeParameter,
        SymKind::Trait(_) => CompletionKind::Interface,
        SymKind::Module(_) => CompletionKind::Module,
    }
}

/// The completions offered: every keyword, then every symbol ever defined
/// with its kind and how it is shown.
pub fn completion(symbols: &SymbolTable) -> (items: Vec<CompletionEntry>)
    ensures
        items@.len() == completion_keywords().len() + symbols.symbols@.len(),
        forall|i: int| 0 <= i < completion_keywords().len() ==> {
            &&& (#[trigger] items@[i]).label@ == completion_keywords()[i]
            &&& items@[i].kind == CompletionKind::Keyword
            &&& items@[i].detail is None
        },
        forall|j: int| 0 <= j < symbols.symbols@.len() ==> {
            let it = #[trigger] items@[completion_keywords().len() + j];
            &&& it.label@ == symbols.symbols@[j].0@
            &&& it.kind == completion_kind_of(symbols.symbols@[j].1)
            &&& it.detail matches Some(d) && d@ == symkind_text(symbols.symbols@[j].1)
        },
{
    let keywords = [
        "fn", "let", "mut", "if", "else", "while", "for", "loop", "break", "continue", "return", "match", "in",
        "struct", "enum", "impl", "trait", "true", "false",
    ];
    let mut items: Vec<CompletionEntry> = Vec::new();
    let mut k: usize = 0;
    proof {
        reveal_strlit("fn");
        reveal_strlit("let");
    }
    while k < 19
        invariant
            k <= 19,
            keywords@ == seq!["fn", "let", "mut", "if", "else", "while", "for", "loop", "break", "continue", "return",
                "match", "in", "struct", "enum", "impl", "trait", "true", "false"],
            items@.len() == k,
            forall|i: int| 0 <= i < k ==> {
                &&& (#[trigger] items@[i]).label@ == completion_keywords()[i]
                &&& items@[i].kind == CompletionKind::Keyword
                &&& items@[i].detail is None
            },
        decreases 19 - k,
    {
        let label = keywords[k].to_string();
        items.push(CompletionEntry { label, kind: CompletionKind::Keyword, detail: None });
        k = k + 1;
    }
    let n = symbols.symbols.len();
    let mut j: usize = 0;
    while j < n
        invariant
            n == symbols.symbols@.len(),
            j <= n,
            items@.len() == 19 + j,
            completion_keywords().len() == 19,
            forall|i: int| 0 <= i < 19 ==> {
                &&& (#[trigger] items@[i]).label@ == completion_keywords()[i]
                &&& items@[i].kind == CompletionKind::Keyword
                &&& items@[i].detail is None
            },
            forall|q: int| 0 <= q < j ==> {
                let it = #[trigger] items@[19 + q];
                &&& it.label@ == symbols.symbols@[q].0@
                &&& it.kind == completion_kind_of(symbols.symbols@[q].1)
                &&& it.detail matches Some(d) && d@ == symkind_text(symbols.symbols@[q].1)
            },
        decreases n - j,
    {
        let entry = &symbols.symbols[j];
        let kind = match &entry.1 {
            SymKind::Variable(_) => CompletionKind::Variable,
            SymKind::Function(_) => CompletionKind::Function,
            SymKind::Struct(_) => CompletionKind::Struct,
            SymKind::Enum(_) => CompletionKind::Enum,
            SymKind::EnumConstructor { .. } => CompletionKind::Enum,
            SymKind::TypeParam(_) => CompletionKind::TypeParameter,
            SymKind::Trait(_) => CompletionKind::Interface,
            SymKind::Module(_) => CompletionKind::Module,
        };
        let detail = symkind_display(&entry.1);
        items.push(CompletionEntry { label: entry.0.clone(), kind, detail: Some(detail) });
        proof {
            assert(items@[19 + j as int] == items@.last());
        }
        j = j + 1;
    }
    items
}

/// A byte that belongs to an identifier: an ASCII letter or digit, or `_`.
pub open spec fn word_byte(b: u8) -> bool {
    (48 <= b <= 57) || (65 <= b <= 90) || (97 <= b <= 122) || b == 95
}

/// Where the run of identifier bytes that ends at `i` starts.
pub open spec fn word_start(b: Seq<u8>, i: int) -> int
    decreases i,
{
    if i > 0 && word_byte(b[i - 1]) { word_start(b, i - 1) } else { i }
}

/// Where the run of identifier bytes that starts at `i` ends.
pub open spec fn word_end(b: Seq<u8>, i: int) -> int
    decreases b.len() - i,
{
    if 0 <= i < b.len() && word_byte(b[i]) { word_end(b, i + 1) } else { i }
}

fn is_word_byte(b: u8) -> (r: bool)
    ensures
        r == word_byte(b),
{
    (48 <= b && b <= 57) || (65 <= b && b <= 90) || (97 <= b && b <= 122) || b == 95
}

/// The identifier under byte offset `offset`: the byte range of the run of
/// identifier bytes around it; `None` when the byte there is not one.
pub fn word_at(source: &str, offset: usize) -> (r: Option<(usize, usize)>)
    ensures
        ({
            let b = encode_utf8(source@);
            if 0 <= offset < b.len() && word_byte(b[offset as int]) {
                r == Some((word_start(b, offset as int) as usize, word_end(b, offset + 1) as usize))
            } else {
                r is None
            }
        }),
{
    let bytes = source.as_bytes();
    if offset >= bytes.len() {
        return None;
    }
    if !is_word_byte(bytes[offset]) {
        return None;
    }
    let mut start = offset;
    while start > 0 && is_word_byte(bytes[start - 1])
        invariant
            start <= offset < bytes@.len(),
            word_start(bytes@, offset as int) == word_start(bytes@, start as int),
        decreases start,
    {
        start = start - 1;
    }
    let mut end = offset + 1;
    while end < bytes.len() && is_word_byte(bytes[end])
        invariant
            offset < end <= bytes@.len(),
            word_end(bytes@, offset + 1) == word_end(bytes@, end as int),
        decreases bytes@.len() - end,
    {
        end = end + 1;
    }
    Some((start, end))
}

/// The meaning of the most recent symbol named `name`.
pub open spec fn last_symbol(syms: Seq<(String, SymKind)>, name: Seq<char>) -> Option<SymKind>
    decreases syms.len(),
{
    if syms.len() == 0 {
        None
    } else if syms.last().0@ == name {
        Some(syms.last().1)
    } else {
        last_symbol(syms.drop_last(), name)
    }
}

/// Look up the most recent symbol named `name` among all symbols defined.
pub fn find_symbol<'a>(symbols: &'a SymbolTable, name: &str) -> (r: Option<&'a SymKind>)
    ensures
        match r {
            Some(k) => last_symbol(symbols.symbols@, name@) == Some(*k),
            None => last_symbol(symbols.symbols@, name@) is None,
        },
{
    let key = name.to_string();
    let mut k = symbols.symbols.len();
    proof {
        assert(symbols.symbols@.take(k as int) =~= symbols.symbols@);
    }
    while k > 0
        invariant
            k <= symbols.symbols@.len(),
            key@ == name@,
            last_symbol(symbols.symbols@, name@) == last_symbol(symbols.symbols@.take(k as int), name@),
        decreases k,
    {
        let ghost pre = symbols.symbols@.take(k as int);
        proof {
            assert(pre.drop_last() =~= symbols.symbols@.take(k - 1));
            assert(pre.last() == symbols.symbols@[k - 1]);
        }
        if symbols.symbols[k - 1].0 == key {
            return Some(&symbols.symbols[k - 1].1);
        }
        k = k - 1;
    }
    None
}

/// The hover text for a name: the comment above its definition, if any, then
/// `` `name`: `` and how its meaning is shown.
pub fn hover_text(name: &str, kind: &SymKind, comment: Option<String>) -> (t: String)
    ensures
        t@ == (match comment {
            Some(c) => c@ + "\n\n"@,
            None => Seq::<char>::empty(),
        }) + "`"@ + name@ + "`: "@ + symkind_text(*kind),
{
    let mut text = String::new();
    match &comment {
        Some(c) => {
            push_str_chars(&mut text, c.as_str());
            push_str_chars(&mut text, "\n\n");
        },
        None => {},
    }
    push_str_chars(&mut text, "`");
    push_str_chars(&mut text, name);
    push_str_chars(&mut text, "`: ");
    let shown = symkind_display(kind);
    push_str_chars(&mut text, shown.as_str());
    proof {
        assert(text@ =~= (match comment {
            Some(c) => c@ + "\n\n"@,
            None => Seq::<char>::empty(),
        }) + "`"@ + name@ + "`: "@ + symkind_text(*kind));
    }
    text
}

} // verus!
