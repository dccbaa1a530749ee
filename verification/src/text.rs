//! Character classes, UTF-8 widths and small string builders shared by the
//! lexer, the formatter and the position conversions.
use vstd::prelude::*;
use vstd::utf8::*;

verus! {

/// Whether `c` has the Unicode `Alphabetic` property (what `char::is_alphabetic` reports).
pub uninterp spec fn alphabetic(c: char) -> bool;

/// Whether `c` is alphabetic or numeric in the Unicode sense (what `char::is_alphanumeric` reports).
pub uninterp spec fn alphanumeric(c: char) -> bool;

/// Whether `c` has the Unicode `White_Space` property (what `char::is_whitespace` reports).
pub uninterp spec fn whitespace(c: char) -> bool;

/// Whether `c` has the Unicode `Uppercase` property (what `char::is_uppercase` reports).
pub uninterp spec fn uppercase(c: char) -> bool;

pub open spec fn is_ascii_letter(c: char) -> bool {
    ('a' <= c && c <= 'z') || ('A' <= c && c <= 'Z')
}

pub open spec fn is_ascii_digit(c: char) -> bool {
    '0' <= c && c <= '9'
}

pub open spec fn is_ascii_hexdigit(c: char) -> bool {
    is_ascii_digit(c) || ('a' <= c && c <= 'f') || ('A' <= c && c <= 'F')
}

pub open spec fn is_ascii_whitespace_char(c: char) -> bool {
    c == ' ' || c == '\t' || c == '\n' || c == '\r' || c == '\x0B' || c == '\x0C'
}

/// `char::is_alphabetic`. For ASCII characters the Alphabetic property holds of
/// exactly the letters `a-z` and `A-Z`; the result is otherwise left to the name
/// [`alphabetic`].
#[verifier::external_body]
pub fn char_is_alphabetic(c: char) -> (b: bool)
    ensures
        b == alphabetic(c),
        (c as u32) < 128 ==> (b <==> is_ascii_letter(c)),
{
    c.is_alphabetic()
}

/// `char::is_alphanumeric`. For ASCII characters it holds of exactly the letters
/// and the digits `0-9`; the result is otherwise left to the name [`alphanumeric`].
#[verifier::external_body]
pub fn char_is_alphanumeric(c: char) -> (b: bool)
    ensures
        b == alphanumeric(c),
        (c as u32) < 128 ==> (b <==> (is_ascii_letter(c) || is_ascii_digit(c))),
{
    c.is_alphanumeric()
}

/// `char::is_whitespace`. For ASCII characters the White_Space property holds of
/// exactly space, tab, line feed, vertical tab, form feed and carriage return;
/// the result is otherwise left to the name [`whitespace`].
#[verifier::external_body]
pub fn char_is_whitespace(c: char) -> (b: bool)
    ensures
        b == whitespace(c),
        (c as u32) < 128 ==> (b <==> is_ascii_whitespace_char(c)),
{
    c.is_whitespace()
}

/// `char::is_uppercase`. For ASCII characters the Uppercase property holds of
/// exactly the letters `A-Z`; the result is otherwise left to the name
/// [`uppercase`].
#[verifier::external_body]
pub fn char_is_uppercase(c: char) -> (b: bool)
    ensures
        b == uppercase(c),
        (c as u32) < 128 ==> (b <==> ('A' <= c && c <= 'Z')),
{
    c.is_uppercase()
}

/// `String::push`: appends one character.
#[verifier::external_body]
pub fn string_push(s: &mut String, c: char)
    ensures
        final(s)@ == old(s)@.push(c),
{
    s.push(c);
}

pub fn is_digit(c: char) -> (b: bool)
    ensures
        b == is_ascii_digit(c),
{
    '0' <= c && c <= '9'
}

pub fn is_hexdigit(c: char) -> (b: bool)
    ensures
        b == is_ascii_hexdigit(c),
{
    ('0' <= c && c <= '9') || ('a' <= c && c <= 'f') || ('A' <= c && c <= 'F')
}

/// Number of bytes in the UTF-8 encoding of `c`.
pub open spec fn width(c: char) -> nat {
    encode_scalar(c as u32).len()
}

/// Byte offset of character position `i` in a text whose characters are `s`.
pub open spec fn byte_offset(s: Seq<char>, i: int) -> nat {
    encode_utf8(s.take(i)).len()
}

/// A text whose UTF-8 encoding is shorter than the largest `usize`: every byte
/// offset into it, and one past its end, can be held in a `usize`.
pub open spec fn text_fits(s: Seq<char>) -> bool {
    encode_utf8(s).len() < usize::MAX
}

/// `char::len_utf8`.
pub fn utf8_width(c: char) -> (w: usize)
    ensures
        w as nat == width(c),
        1 <= w <= 4,
{
    proof {
        char_is_scalar(c);
    }
    let v = c as u32;
    if v < 0x80 {
        1
    } else if v < 0x800 {
        2
    } else if v < 0x10000 {
        3
    } else {
        4
    }
}

pub proof fn lemma_encode_utf8_concat(a: Seq<char>, b: Seq<char>)
    ensures
        encode_utf8(a + b) == encode_utf8(a) + encode_utf8(b),
    decreases a.len(),
{
    if a.len() == 0 {
        assert(a + b =~= b);
        assert(encode_utf8(a) =~= Seq::<u8>::empty());
        assert(encode_utf8(a) + encode_utf8(b) =~= encode_utf8(b));
    } else {
        lemma_encode_utf8_concat(a.drop_first(), b);
        assert((a + b).drop_first() =~= a.drop_first() + b);
        assert((a + b)[0] == a[0]);
        assert(encode_utf8(a + b) =~= encode_scalar(a[0] as u32) + encode_utf8(a.drop_first() + b));
        assert(encode_utf8(a) + encode_utf8(b) =~= encode_scalar(a[0] as u32) + (encode_utf8(
            a.drop_first(),
        ) + encode_utf8(b)));
    }
}

pub proof fn lemma_encode_single(c: char)
    ensures
        encode_utf8(seq![c]).len() == width(c),
{
    let s = seq![c];
    assert(s.drop_first() =~= Seq::<char>::empty());
    assert(encode_utf8(s.drop_first()) =~= Seq::<u8>::empty());
    assert(encode_utf8(s) =~= encode_scalar(c as u32) + Seq::<u8>::empty());
}

/// Advancing over one character moves the byte offset by that character's width.
pub proof fn lemma_byte_offset_step(s: Seq<char>, i: int)
    requires
        0 <= i < s.len(),
    ensures
        byte_offset(s, i + 1) == byte_offset(s, i) + width(s[i]),
{
    assert(s.take(i + 1) =~= s.take(i) + seq![s[i]]);
    lemma_encode_utf8_concat(s.take(i), seq![s[i]]);
    lemma_encode_single(s[i]);
}

pub proof fn lemma_byte_offset_mono(s: Seq<char>, i: int, j: int)
    requires
        0 <= i <= j <= s.len(),
    ensures
        byte_offset(s, i) <= byte_offset(s, j),
        j - i <= byte_offset(s, j) - byte_offset(s, i),
    decreases j - i,
{
    if i < j {
        lemma_byte_offset_mono(s, i, j - 1);
        lemma_byte_offset_step(s, j - 1);
        char_is_scalar(s[j - 1]);
    }
}

pub proof fn lemma_byte_offset_full(s: Seq<char>)
    ensures
        byte_offset(s, s.len() as int) == encode_utf8(s).len(),
        byte_offset(s, 0) == 0,
{
    assert(s.take(s.len() as int) =~= s);
    assert(s.take(0) =~= Seq::<char>::empty());
    assert(encode_utf8(Seq::<char>::empty()) =~= Seq::<u8>::empty());
}

/// A character takes at most four bytes.
pub proof fn lemma_width_le4(c: char)
    ensures
        1 <= width(c) <= 4,
{
    char_is_scalar(c);
}

/// A text of `n` characters takes at most `4 n` bytes; so a text of at most a
/// quarter of `usize::MAX` characters fits.
pub proof fn lemma_text_fits_short(s: Seq<char>)
    requires
        s.len() <= usize::MAX / 4,
    ensures
        encode_utf8(s).len() <= 4 * s.len(),
        text_fits(s),
{
    lemma_byte_offset_upper(s, s.len() as int);
    lemma_byte_offset_full(s);
}

proof fn lemma_byte_offset_upper(s: Seq<char>, i: int)
    requires
        0 <= i <= s.len(),
    ensures
        byte_offset(s, i) <= 4 * i,
    decreases i,
{
    if i > 0 {
        lemma_byte_offset_upper(s, i - 1);
        lemma_byte_offset_step(s, i - 1);
        lemma_width_le4(s[i - 1]);
    } else {
        lemma_byte_offset_full(s);
    }
}

/// The characters of a string slice, in order.
pub fn chars_of(s: &str) -> (v: Vec<char>)
    ensures
        v@ == s@,
{
    let mut v: Vec<char> = Vec::new();
    for c in it: s.chars()
        invariant
            v@ == it.seq().take(it.index() as int),
    {
        v.push(c);
    }
    v
}

/// `n` copies of `c`.
pub open spec fn repeat_char(c: char, n: nat) -> Seq<char> {
    Seq::new(n, |_i: int| c)
}

/// Append `n` spaces to `out`.
pub fn push_spaces(out: &mut String, n: usize)
    ensures
        final(out)@ == old(out)@ + repeat_char(' ', n as nat),
{
    let mut k: usize = 0;
    while k < n
        invariant
            k <= n,
            out@ == old(out)@ + repeat_char(' ', k as nat),
        decreases n - k,
    {
        string_push(out, ' ');
        k = k + 1;
        assert(out@ =~= old(out)@ + repeat_char(' ', k as nat));
    }
}

/// Append the characters of `src` from position `lo` up to `hi` to `out`.
pub fn push_chars(out: &mut String, src: &Vec<char>, lo: usize, hi: usize)
    requires
        lo <= hi <= src@.len(),
    ensures
        final(out)@ == old(out)@ + src@.subrange(lo as int, hi as int),
{
    let mut k = lo;
    while k < hi
        invariant
            lo <= k <= hi <= src@.len(),
            out@ == old(out)@ + src@.subrange(lo as int, k as int),
        decreases hi - k,
    {
        string_push(out, src[k]);
        k = k + 1;
        assert(out@ =~= old(out)@ + src@.subrange(lo as int, k as int));
    }
}

/// A new string holding the characters of `src` from `lo` up to `hi`.
pub fn string_of(src: &Vec<char>, lo: usize, hi: usize) -> (res: String)
    requires
        lo <= hi <= src@.len(),
    ensures
        res@ == src@.subrange(lo as int, hi as int),
{
    let mut s = String::new();
    push_chars(&mut s, src, lo, hi);
    assert(s@ =~= src@.subrange(lo as int, hi as int));
    s
}

/// Append the characters of `t` to `out`.
pub fn push_str_chars(out: &mut String, t: &str)
    ensures
        final(out)@ == old(out)@ + t@,
{
    let v = chars_of(t);
    push_chars(out, &v, 0, v.len());
    assert(v@.subrange(0, v@.len() as int) =~= t@);
}

/// `String::from_utf8`: the bytes as text when they are valid UTF-8, and
/// `None` when they are not.
#[verifier::external_body]
pub fn string_from_utf8(bytes: Vec<u8>) -> (r: Option<String>)
    ensures
        r is Some <==> valid_utf8(bytes@),
        r matches Some(s) ==> s@ == decode_utf8(bytes@),
{
    String::from_utf8(bytes).ok()
}

/// The lowercase hexadecimal digit for `d` (below 16).
pub open spec fn hex_digit(d: nat) -> char {
    if d < 10 { (48 + d) as char } else { (97 + d - 10) as char }
}

/// The last `n` hexadecimal digits of `v`, most significant first, padded with
/// zeros: what `format!("{:0n$x}", v)` prints when `v` has at most `n` digits.
pub open spec fn hex_fixed(v: nat, n: nat) -> Seq<char>
    decreases n,
{
    if n == 0 {
        seq![]
    } else {
        hex_fixed(v / 16, (n - 1) as nat).push(hex_digit(v % 16))
    }
}

/// Append the last `n` hexadecimal digits of `v` to `out`.
pub fn push_hex_fixed(out: &mut String, v: u64, n: usize)
    ensures
        final(out)@ == old(out)@ + hex_fixed(v as nat, n as nat),
{
    let mut rev: Vec<char> = Vec::new();
    let mut cur: u64 = v;
    let mut j: usize = 0;
    while j < n
        invariant
            j <= n,
            rev.len() == j,
            hex_fixed(v as nat, n as nat) == hex_fixed(cur as nat, (n - j) as nat) + rev@.reverse(),
        decreases n - j,
    {
        let d = cur % 16;
        let c: char = if d < 10 { ((48 + d) as u8) as char } else { ((97 + d - 10) as u8) as char };
        proof {
            let m = (n - j) as nat;
            assert(hex_fixed(cur as nat, m) == hex_fixed((cur / 16) as nat, (m - 1) as nat).push(hex_digit((cur % 16) as nat)));
            assert(rev@.push(c).reverse() =~= seq![c] + rev@.reverse());
            assert(hex_fixed((cur / 16) as nat, (m - 1) as nat).push(c) + rev@.reverse()
                =~= hex_fixed((cur / 16) as nat, (m - 1) as nat) + rev@.push(c).reverse());
        }
        rev.push(c);
        cur = cur / 16;
        j = j + 1;
    }
    proof {
        assert(hex_fixed(cur as nat, 0) =~= Seq::<char>::empty());
        assert(hex_fixed(v as nat, n as nat) =~= rev@.reverse());
    }
    let mut k: usize = rev.len();
    while k > 0
        invariant
            k <= rev.len(),
            out@ == old(out)@ + rev@.reverse().take((rev.len() - k) as int),
        decreases k,
    {
        k = k - 1;
        string_push(out, rev[k]);
        proof {
            let r = rev@.reverse();
            assert(r[(rev.len() - k - 1) as int] == rev@[k as int]);
            assert(r.take((rev.len() - k) as int) =~= r.take((rev.len() - k - 1) as int).push(rev@[k as int]));
        }
    }
    proof {
        assert(rev@.reverse().take(rev.len() as int) =~= rev@.reverse());
    }
}

/// What `str::to_lowercase` gives for a text: the Unicode lowercase mapping.
pub uninterp spec fn lowercase(s: Seq<char>) -> Seq<char>;

/// The ASCII lowercase mapping: `A`-`Z` to `a`-`z`, every other character kept.
pub open spec fn ascii_lower(s: Seq<char>) -> Seq<char> {
    s.map_values(|c: char| if 'A' <= c <= 'Z' { ((c as u32) + 32) as char } else { c })
}

/// `str::to_lowercase`. On ASCII text it lowercases the letters `A`-`Z` and
/// keeps every other character; on other text the result is left to the name
/// [`lowercase`].
#[verifier::external_body]
pub fn to_lowercase(s: &str) -> (r: String)
    ensures
        r@ == lowercase(s@),
        is_ascii_chars(s@) ==> r@ == ascii_lower(s@),
{
    s.to_lowercase()
}

} // verus!
