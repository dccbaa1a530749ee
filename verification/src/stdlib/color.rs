//! Colours: packing RGBA components, HSL conversion, hex parsing and blending.
use vstd::prelude::*;
use crate::ast::Type;
use vstd::utf8::{encode_utf8, is_char_boundary};
use crate::symbol::{FnSignature, SigSpec, sigs_match, sig_is, param_views, lemma_sigs_match_push, param, sig};

verus! {

/// `x` clamped to `0..=255`.
pub open spec fn clamp_byte(x: i64) -> int {
    if x < 0 { 0 } else if x > 255 { 255 } else { x as int }
}

/// The colour `0xAARRGGBB` with the given components (each below 256).
pub open spec fn pack(a: int, r: int, g: int, b: int) -> int {
    a * 0x1000000 + r * 0x10000 + g * 0x100 + b
}

fn clamp_component(x: i64) -> (c: u32)
    ensures
        c == clamp_byte(x),
{
    if x < 0 {
        0
    } else if x > 255 {
        255
    } else {
        x as u32
    }
}

/// `rgba(r, g, b, a)`: a colour from components, each clamped to `0..=255`; a
/// missing component is 0, a missing alpha 255.
pub fn rgba(r: Option<i64>, g: Option<i64>, b: Option<i64>, a: Option<i64>) -> (c: i64)
    ensures
        c == pack(
            clamp_byte(a.unwrap_or(255)),
            clamp_byte(r.unwrap_or(0)),
            clamp_byte(g.unwrap_or(0)),
            clamp_byte(b.unwrap_or(0)),
        ),
{
    let r = clamp_component(r.unwrap_or(0));
    let g = clamp_component(g.unwrap_or(0));
    let b = clamp_component(b.unwrap_or(0));
    let a = clamp_component(a.unwrap_or(255));
    (a as i64) * 0x1000000 + (r as i64) * 0x10000 + (g as i64) * 0x100 + (b as i64)
}

/// The 8-bit component of a colour that starts at bit `shift`; the colour is
/// read as its low 32 bits, a missing colour as 0.
pub open spec fn component(c: Option<i64>, shift: int) -> int {
    ((c.unwrap_or(0) as u32) as int / pow2_spec(shift)) % 256
}

pub open spec fn pow2_spec(shift: int) -> int {
    if shift == 24 { 0x1000000 } else if shift == 16 { 0x10000 } else if shift == 8 { 0x100 } else { 1 }
}

fn component_at(c: Option<i64>, shift: u32) -> (v: i64)
    requires
        shift == 0 || shift == 8 || shift == 16 || shift == 24,
    ensures
        v == component(c, shift as int),
{
    let w: u32 = c.unwrap_or(0) as u32;
    let v = (w >> shift) & 0xFF;
    assert(((w >> shift) & 0xFF) == (w / pow2_spec(shift as int) as u32) % 256) by {
        if shift == 24 {
            assert(((w >> 24u32) & 0xFF) == (w / 0x1000000) % 256) by (bit_vector);
        } else if shift == 16 {
            assert(((w >> 16u32) & 0xFF) == (w / 0x10000) % 256) by (bit_vector);
        } else if shift == 8 {
            assert(((w >> 8u32) & 0xFF) == (w / 0x100) % 256) by (bit_vector);
        } else {
            assert(((w >> 0u32) & 0xFF) == (w / 1) % 256) by (bit_vector);
        }
    }
    v as i64
}

/// `color_r(c)`: the red component.
pub fn color_r(c: Option<i64>) -> (v: i64)
    ensures
        v == component(c, 16),
{
    component_at(c, 16)
}

/// `color_g(c)`: the green component.
pub fn color_g(c: Option<i64>) -> (v: i64)
    ensures
        v == component(c, 8),
{
    component_at(c, 8)
}

/// `color_b(c)`: the blue component.
pub fn color_b(c: Option<i64>) -> (v: i64)
    ensures
        v == component(c, 0),
{
    component_at(c, 0)
}

/// `color_a(c)`: the alpha component.
pub fn color_a(c: Option<i64>) -> (v: i64)
    ensures
        v == component(c, 24),
{
    component_at(c, 24)
}

/// The value of an ASCII hexadecimal digit byte.
pub open spec fn hex_value(b: u8) -> Option<u32> {
    if 48 <= b <= 57 {
        Some((b - 48) as u32)
    } else if 97 <= b <= 102 {
        Some((b - 97 + 10) as u32)
    } else if 65 <= b <= 70 {
        Some((b - 65 + 10) as u32)
    } else {
        None
    }
}

/// What `u32::from_str_radix(text, 16)` gives for a two-byte text: two hex
/// digits, or a `+` sign and one digit.
pub open spec fn parse_pair(b0: u8, b1: u8) -> Option<u32> {
    match (hex_value(b0), hex_value(b1)) {
        (Some(h), Some(l)) => Some((h * 16 + l) as u32),
        (None, Some(l)) => if b0 == 43 { Some(l) } else { None },
        _ => None,
    }
}

/// Number of leading `#` bytes.
pub open spec fn leading_hashes(b: Seq<u8>) -> nat
    decreases b.len(),
{
    if b.len() > 0 && b[0] == 35 { 1 + leading_hashes(b.drop_first()) } else { 0 }
}

/// The bytes of a colour text after its leading `#`s.
pub open spec fn hex_body(s: Seq<char>) -> Seq<u8> {
    encode_utf8(s).skip(leading_hashes(encode_utf8(s)) as int)
}

/// The two-byte pieces of a six- or eight-byte body start at character boundaries.
pub open spec fn pieces_on_boundaries(body: Seq<u8>) -> bool {
    &&& body.len() == 6 ==> is_char_boundary(body, 2) && is_char_boundary(body, 4)
    &&& body.len() == 8 ==> is_char_boundary(body, 2) && is_char_boundary(body, 4) && is_char_boundary(body, 6)
}

/// The colour a text `#RRGGBB` or `#AARRGGBB` (any number of leading `#`)
/// denotes, alpha 255 for the short form; `None` for any other text.
pub open spec fn hex_color_spec(body: Seq<u8>) -> Option<int> {
    if body.len() == 6 {
        match (parse_pair(body[0], body[1]), parse_pair(body[2], body[3]), parse_pair(body[4], body[5])) {
            (Some(r), Some(g), Some(b)) => Some(pack(255, r as int, g as int, b as int)),
            _ => None,
        }
    } else if body.len() == 8 {
        match (
            parse_pair(body[0], body[1]),
            parse_pair(body[2], body[3]),
            parse_pair(body[4], body[5]),
            parse_pair(body[6], body[7]),
        ) {
            (Some(a), Some(r), Some(g), Some(b)) => Some(pack(a as int, r as int, g as int, b as int)),
            _ => None,
        }
    } else {
        None
    }
}

fn hex_val(b: u8) -> (v: Option<u32>)
    ensures
        v == hex_value(b),
{
    if 48 <= b && b <= 57 {
        Some((b - 48) as u32)
    } else if 97 <= b && b <= 102 {
        Some((b - 97 + 10) as u32)
    } else if 65 <= b && b <= 70 {
        Some((b - 65 + 10) as u32)
    } else {
        None
    }
}

fn pair(b0: u8, b1: u8) -> (v: Option<u32>)
    ensures
        v == parse_pair(b0, b1),
{
    match (hex_val(b0), hex_val(b1)) {
        (Some(h), Some(l)) => Some(h * 16 + l),
        (None, Some(l)) => if b0 == 43 {
            Some(l)
        } else {
            None
        },
        _ => None,
    }
}

/// `hex_color(text)`: parse `#RRGGBB` or `#AARRGGBB`.
pub fn hex_color(s: &str) -> (c: Option<i64>)
    requires
        pieces_on_boundaries(hex_body(s@)),
    ensures
        c matches Some(v) ==> hex_color_spec(hex_body(s@)) == Some(v as int),
        c is None ==> hex_color_spec(hex_body(s@)) is None,
{
    let bytes = s.as_bytes();
    let n = bytes.len();
    let mut start: usize = 0;
    proof {
        assert(bytes@.skip(0) =~= bytes@);
    }
    while start < n && bytes[start] == 35
        invariant
            start <= n == bytes@.len(),
            leading_hashes(bytes@) == start + leading_hashes(bytes@.skip(start as int)),
        decreases n - start,
    {
        proof {
            assert(bytes@.skip(start as int).drop_first() =~= bytes@.skip(start + 1));
        }
        start = start + 1;
    }
    proof {
        assert(leading_hashes(bytes@.skip(start as int)) == 0);
    }
    let len = n - start;
    let ghost body = bytes@.skip(start as int);
    assert(body == hex_body(s@));
    if len == 6 {
        let r = match pair(bytes[start], bytes[start + 1]) {
            Some(v) => v,
            None => return None,
        };
        let g = match pair(bytes[start + 2], bytes[start + 3]) {
            Some(v) => v,
            None => return None,
        };
        let b = match pair(bytes[start + 4], bytes[start + 5]) {
            Some(v) => v,
            None => return None,
        };
        Some(255i64 * 0x1000000 + (r as i64) * 0x10000 + (g as i64) * 0x100 + (b as i64))
    } else if len == 8 {
        let a = match pair(bytes[start], bytes[start + 1]) {
            Some(v) => v,
            None => return None,
        };
        let r = match pair(bytes[start + 2], bytes[start + 3]) {
            Some(v) => v,
            None => return None,
        };
        let g = match pair(bytes[start + 4], bytes[start + 5]) {
            Some(v) => v,
            None => return None,
        };
        let b = match pair(bytes[start + 6], bytes[start + 7]) {
            Some(v) => v,
            None => return None,
        };
        Some((a as i64) * 0x1000000 + (r as i64) * 0x10000 + (g as i64) * 0x100 + (b as i64))
    } else {
        None
    }
}


/// The declared signatures of the colour functions, in order.
pub open spec fn signature_table() -> Seq<SigSpec> {
    seq![
        ("rgba"@, seq![("r"@, Type::I64), ("g"@, Type::I64), ("b"@, Type::I64), ("a"@, Type::I64)], Some(Type::I64)),
        ("hsla"@, seq![("h"@, Type::F64), ("s"@, Type::F64), ("l"@, Type::F64), ("a"@, Type::I64)], Some(Type::I64)),
        ("hex_color"@, seq![("hex"@, Type::Str)], Some(Type::Any)),
        ("lerp_color"@, seq![("a"@, Type::I64), ("b"@, Type::I64), ("t"@, Type::F64)], Some(Type::I64)),
        ("color_r"@, seq![("color"@, Type::I64)], Some(Type::I64)),
        ("color_g"@, seq![("color"@, Type::I64)], Some(Type::I64)),
        ("color_b"@, seq![("color"@, Type::I64)], Some(Type::I64)),
        ("color_a"@, seq![("color"@, Type::I64)], Some(Type::I64)),
    ]
}

/// The signatures of the colour functions, for name resolution and typing.
pub fn signatures() -> (sigs: Vec<FnSignature>)
    ensures
        sigs_match(sigs@, signature_table()),
{
    let mut sigs: Vec<FnSignature> = Vec::new();
    let ghost mut table: Seq<SigSpec> = Seq::empty();
    let s = sig("rgba", vec![param("r", Type::I64), param("g", Type::I64), param("b", Type::I64), param("a", Type::I64)], Some(Type::I64));
    proof {
        assert(param_views(s.params@) =~= ("rgba"@, seq![("r"@, Type::I64), ("g"@, Type::I64), ("b"@, Type::I64), ("a"@, Type::I64)], Some(Type::I64)).1);
        lemma_sigs_match_push(sigs@, table, s, ("rgba"@, seq![("r"@, Type::I64), ("g"@, Type::I64), ("b"@, Type::I64), ("a"@, Type::I64)], Some(Type::I64)));
        table = table.push(("rgba"@, seq![("r"@, Type::I64), ("g"@, Type::I64), ("b"@, Type::I64), ("a"@, Type::I64)], Some(Type::I64)));
    }
    sigs.push(s);
    let s = sig("hsla", vec![param("h", Type::F64), param("s", Type::F64), param("l", Type::F64), param("a", Type::I64)], Some(Type::I64));
    proof {
        assert(param_views(s.params@) =~= ("hsla"@, seq![("h"@, Type::F64), ("s"@, Type::F64), ("l"@, Type::F64), ("a"@, Type::I64)], Some(Type::I64)).1);
        lemma_sigs_match_push(sigs@, table, s, ("hsla"@, seq![("h"@, Type::F64), ("s"@, Type::F64), ("l"@, Type::F64), ("a"@, Type::I64)], Some(Type::I64)));
        table = table.push(("hsla"@, seq![("h"@, Type::F64), ("s"@, Type::F64), ("l"@, Type::F64), ("a"@, Type::I64)], Some(Type::I64)));
    }
    sigs.push(s);
    let s = sig("hex_color", vec![param("hex", Type::Str)], Some(Type::Any));
    proof {
        assert(param_views(s.params@) =~= ("hex_color"@, seq![("hex"@, Type::Str)], Some(Type::Any)).1);
        lemma_sigs_match_push(sigs@, table, s, ("hex_color"@, seq![("hex"@, Type::Str)], Some(Type::Any)));
        table = table.push(("hex_color"@, seq![("hex"@, Type::Str)], Some(Type::Any)));
    }
    sigs.push(s);
    let s = sig("lerp_color", vec![param("a", Type::I64), param("b", Type::I64), param("t", Type::F64)], Some(Type::I64));
    proof {
        assert(param_views(s.params@) =~= ("lerp_color"@, seq![("a"@, Type::I64), ("b"@, Type::I64), ("t"@, Type::F64)], Some(Type::I64)).1);
        lemma_sigs_match_push(sigs@, table, s, ("lerp_color"@, seq![("a"@, Type::I64), ("b"@, Type::I64), ("t"@, Type::F64)], Some(Type::I64)));
        table = table.push(("lerp_color"@, seq![("a"@, Type::I64), ("b"@, Type::I64), ("t"@, Type::F64)], Some(Type::I64)));
    }
    sigs.push(s);
    let s = sig("color_r", vec![param("color", Type::I64)], Some(Type::I64));
    proof {
        assert(param_views(s.params@) =~= ("color_r"@, seq![("color"@, Type::I64)], Some(Type::I64)).1);
        lemma_sigs_match_push(sigs@, table, s, ("color_r"@, seq![("color"@, Type::I64)], Some(Type::I64)));
        table = table.push(("color_r"@, seq![("color"@, Type::I64)], Some(Type::I64)));
    }
    sigs.push(s);
    let s = sig("color_g", vec![param("color", Type::I64)], Some(Type::I64));
    proof {
        assert(param_views(s.params@) =~= ("color_g"@, seq![("color"@, Type::I64)], Some(Type::I64)).1);
        lemma_sigs_match_push(sigs@, table, s, ("color_g"@, seq![("color"@, Type::I64)], Some(Type::I64)));
        table = table.push(("color_g"@, seq![("color"@, Type::I64)], Some(Type::I64)));
    }
    sigs.push(s);
    let s = sig("color_b", vec![param("color", Type::I64)], Some(Type::I64));
    proof {
        assert(param_views(s.params@) =~= ("color_b"@, seq![("color"@, Type::I64)], Some(Type::I64)).1);
        lemma_sigs_match_push(sigs@, table, s, ("color_b"@, seq![("color"@, Type::I64)], Some(Type::I64)));
        table = table.push(("color_b"@, seq![("color"@, Type::I64)], Some(Type::I64)));
    }
    sigs.push(s);
    let s = sig("color_a", vec![param("color", Type::I64)], Some(Type::I64));
    proof {
        assert(param_views(s.params@) =~= ("color_a"@, seq![("color"@, Type::I64)], Some(Type::I64)).1);
        lemma_sigs_match_push(sigs@, table, s, ("color_a"@, seq![("color"@, Type::I64)], Some(Type::I64)));
        table = table.push(("color_a"@, seq![("color"@, Type::I64)], Some(Type::I64)));
    }
    sigs.push(s);
    assert(table =~= signature_table());
    sigs
}

} // verus!
