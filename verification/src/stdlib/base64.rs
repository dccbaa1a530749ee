//! Base64 encoding and decoding with the standard alphabet and `=` padding.
use vstd::prelude::*;
use crate::ast::Type;
use vstd::utf8::{valid_utf8, decode_utf8, encode_utf8, is_ascii_chars, is_ascii_chars_encode_utf8};
use crate::text::{string_push, string_from_utf8};
use crate::symbol::{FnSignature, SigSpec, sigs_match, sig_is, param_views, lemma_sigs_match_push, param, sig};

verus! {

/// The character of the standard Base64 alphabet for a six-bit value.
pub open spec fn alphabet_byte(v: int) -> u8 {
    if v < 26 {
        (65 + v) as u8
    } else if v < 52 {
        (97 + v - 26) as u8
    } else if v < 62 {
        (48 + v - 52) as u8
    } else if v == 62 {
        43u8
    } else {
        47u8
    }
}

/// The six-bit value a byte of the alphabet stands for; `None` for any other byte.
pub open spec fn alphabet_value(b: u8) -> Option<u8> {
    if 65 <= b <= 90 {
        Some((b - 65) as u8)
    } else if 97 <= b <= 122 {
        Some((b - 97 + 26) as u8)
    } else if 48 <= b <= 57 {
        Some((b - 48 + 52) as u8)
    } else if b == 43 {
        Some(62u8)
    } else if b == 47 {
        Some(63u8)
    } else {
        None
    }
}

/// The four characters that encode a group of one to three bytes; a short
/// group is padded with `=`.
pub open spec fn encode_group(g: Seq<u8>) -> Seq<char> {
    let b0 = g[0];
    let b1: u8 = if g.len() > 1 { g[1] } else { 0 };
    let b2: u8 = if g.len() > 2 { g[2] } else { 0 };
    seq![
        alphabet_byte((b0 / 4) as int) as char,
        alphabet_byte((b0 % 4) * 16 + b1 / 16) as char,
        if g.len() > 1 { alphabet_byte((b1 % 16) * 4 + b2 / 64) as char } else { '=' },
        if g.len() > 2 { alphabet_byte((b2 % 64) as int) as char } else { '=' },
    ]
}

/// Size of the next group: three bytes, or what is left.
pub open spec fn group_len(n: nat) -> int {
    if n < 3 { n as int } else { 3 }
}

/// The Base64 encoding (RFC 4648, standard alphabet, `=` padding) of `b`.
pub open spec fn encode_spec(b: Seq<u8>) -> Seq<char>
    decreases b.len(),
{
    if b.len() == 0 {
        seq![]
    } else {
        encode_group(b.take(group_len(b.len()))) + encode_spec(b.skip(group_len(b.len())))
    }
}

/// The six-bit values of the alphabet bytes of `b` before its first `=`;
/// other bytes are skipped.
pub open spec fn sextets(b: Seq<u8>) -> Seq<u8>
    decreases b.len(),
{
    if b.len() == 0 || b[0] == 61 {
        seq![]
    } else {
        match alphabet_value(b[0]) {
            Some(v) => seq![v] + sextets(b.drop_first()),
            None => sextets(b.drop_first()),
        }
    }
}

/// The three bytes that four six-bit values encode.
pub open spec fn decode_group(v: Seq<u8>) -> Seq<u8> {
    seq![
        (v[0] * 4 + v[1] / 16) as u8,
        ((v[1] % 16) * 16 + v[2] / 4) as u8,
        ((v[2] % 4) * 64 + v[3]) as u8,
    ]
}

/// The bytes a final group of fewer than four values encodes: one byte for
/// two values, two bytes for three, nothing for fewer.
pub open spec fn decode_partial(v: Seq<u8>) -> Seq<u8> {
    if v.len() == 2 {
        seq![(v[0] * 4 + v[1] / 16) as u8]
    } else if v.len() == 3 {
        seq![(v[0] * 4 + v[1] / 16) as u8, ((v[1] % 16) * 16 + v[2] / 4) as u8]
    } else {
        seq![]
    }
}

/// The bytes that the groups of four values encode, then those of a final
/// shorter group.
pub open spec fn decode_groups(v: Seq<u8>) -> Seq<u8>
    decreases v.len(),
{
    if v.len() < 4 {
        decode_partial(v)
    } else {
        decode_group(v.take(4)) + decode_groups(v.skip(4))
    }
}

/// What decoding yields before the bytes are read as text.
pub open spec fn decode_bytes_spec(b: Seq<u8>) -> Seq<u8> {
    decode_groups(sextets(b))
}

fn alphabet(v: u8) -> (c: char)
    requires
        v < 64,
    ensures
        c == alphabet_byte(v as int) as char,
{
    let b: u8 = if v < 26 {
        65 + v
    } else if v < 52 {
        97 + v - 26
    } else if v < 62 {
        48 + v - 52
    } else if v == 62 {
        43
    } else {
        47
    };
    b as char
}

/// Encode `input` as Base64 with the standard alphabet and `=` padding.
pub fn encode(input: &[u8]) -> (out: String)
    ensures
        out@ == encode_spec(input@),
{
    let n = input.len();
    let mut out = String::new();
    let mut i: usize = 0;
    proof {
        assert(input@.skip(0) =~= input@);
    }
    while i < n
        invariant
            n == input@.len(),
            i <= n,
            out@ + encode_spec(input@.skip(i as int)) == encode_spec(input@),
        decreases n - i,
    {
        let rest = n - i;
        let b0 = input[i];
        let b1: u8 = if rest > 1 { input[i + 1] } else { 0 };
        let b2: u8 = if rest > 2 { input[i + 2] } else { 0 };
        let ghost g = input@.skip(i as int);
        let ghost old_out = out@;
        string_push(&mut out, alphabet(b0 / 4));
        string_push(&mut out, alphabet((b0 % 4) * 16 + b1 / 16));
        if rest > 1 {
            string_push(&mut out, alphabet((b1 % 16) * 4 + b2 / 64));
        } else {
            string_push(&mut out, '=');
        }
        if rest > 2 {
            string_push(&mut out, alphabet(b2 % 64));
        } else {
            string_push(&mut out, '=');
        }
        let step: usize = if rest < 3 { rest } else { 3 };
        proof {
            let k = group_len(g.len());
            assert(k == step);
            assert(g.take(k)[0] == b0);
            assert(k > 1 ==> g.take(k)[1] == b1);
            assert(k > 2 ==> g.take(k)[2] == b2);
            assert(out@ =~= old_out + encode_group(g.take(k)));
            assert(g.skip(k) =~= input@.skip(i + step));
        }
        i = i + step;
    }
    proof {
        assert(input@.skip(n as int) =~= Seq::<u8>::empty());
        assert(out@ + Seq::<char>::empty() =~= out@);
    }
    out
}

proof fn lemma_decode_groups_concat(a: Seq<u8>, b: Seq<u8>)
    requires
        a.len() % 4 == 0,
    ensures
        decode_groups(a + b) == decode_groups(a) + decode_groups(b),
    decreases a.len(),
{
    if a.len() == 0 {
        assert(a + b =~= b);
        assert(decode_groups(a) + decode_groups(b) =~= decode_groups(b));
    } else {
        assert((a + b).take(4) =~= a.take(4));
        assert((a + b).skip(4) =~= a.skip(4) + b);
        lemma_decode_groups_concat(a.skip(4), b);
        assert(decode_groups(a + b) =~= decode_group(a.take(4)) + (decode_groups(a.skip(4)) + decode_groups(b)));
    }
}

/// Decode Base64 text given as bytes: alphabet bytes are read up to the first
/// `=`, other bytes are skipped, each group of four values gives three bytes,
/// and a final group of two or three values gives one or two.
pub fn decode_bytes(input: &[u8]) -> (out: Vec<u8>)
    ensures
        out@ == decode_bytes_spec(input@),
{
    let n = input.len();
    let mut out: Vec<u8> = Vec::new();
    let mut v0: u8 = 0;
    let mut v1: u8 = 0;
    let mut v2: u8 = 0;
    let mut idx: usize = 0;
    let mut k: usize = 0;
    let mut stop = false;
    let ghost mut done: Seq<u8> = seq![];
    let ghost mut pending: Seq<u8> = seq![];
    proof {
        assert(input@.skip(0) =~= input@);
        assert(done + pending + sextets(input@) =~= sextets(input@));
    }
    while k < n && !stop
        invariant
            n == input@.len(),
            k <= n,
            done.len() % 4 == 0,
            out@ == decode_groups(done),
            idx == pending.len(),
            idx < 4,
            idx > 0 ==> pending[0] == v0,
            idx > 1 ==> pending[1] == v1,
            idx > 2 ==> pending[2] == v2,
            forall|j: int| 0 <= j < pending.len() ==> pending[j] < 64,
            !stop ==> done + pending + sextets(input@.skip(k as int)) == sextets(input@),
            stop ==> done + pending == sextets(input@),
        decreases n - k + if stop { 0int } else { 1int },
    {
        let b = input[k];
        let ghost rest = input@.skip(k as int);
        proof {
            assert(rest[0] == b);
            assert(rest.drop_first() =~= input@.skip(k + 1));
        }
        if b == 61 {
            stop = true;
            proof {
                assert(sextets(rest) =~= Seq::<u8>::empty());
                assert(done + pending + Seq::<u8>::empty() =~= done + pending);
            }
        } else {
            let val: Option<u8> = if 65 <= b && b <= 90 {
                Some(b - 65)
            } else if 97 <= b && b <= 122 {
                Some(b - 97 + 26)
            } else if 48 <= b && b <= 57 {
                Some(b - 48 + 52)
            } else if b == 43 {
                Some(62)
            } else if b == 47 {
                Some(63)
            } else {
                None
            };
            assert(val == alphabet_value(b));
            match val {
                Some(v) => {
                    proof {
                        assert(sextets(rest) =~= seq![v] + sextets(input@.skip(k + 1)));
                        assert(done + pending + sextets(rest) =~= done + pending.push(v) + sextets(
                            input@.skip(k + 1),
                        ));
                    }
                    if idx == 3 {
                        let c0 = v0;
                        let c1 = v1;
                        let c2 = v2;
                        out.push(c0 * 4 + c1 / 16);
                        out.push((c1 % 16) * 16 + c2 / 4);
                        out.push((c2 % 4) * 64 + v);
                        proof {
                            let grp = pending.push(v);
                            assert(grp =~= seq![c0, c1, c2, v]);
                            assert(grp.take(4) =~= grp);
                            assert(grp.skip(4) =~= Seq::<u8>::empty());
                            assert(grp.len() == 4);
                            assert(decode_groups(grp.skip(4)) =~= Seq::<u8>::empty());
                            assert(decode_groups(grp) =~= decode_group(grp.take(4)) + decode_groups(grp.skip(4)));
                            assert(decode_groups(grp) =~= decode_group(grp));
                            lemma_decode_groups_concat(done, grp);
                            assert(out@ =~= decode_groups(done) + decode_group(grp));
                            done = done + grp;
                            pending = seq![];
                            assert(done + pending =~= done);
                        }
                        idx = 0;
                    } else {
                        if idx == 0 {
                            v0 = v;
                        } else if idx == 1 {
                            v1 = v;
                        } else {
                            v2 = v;
                        }
                        proof {
                            pending = pending.push(v);
                        }
                        idx = idx + 1;
                    }
                },
                None => {
                    proof {
                        assert(sextets(rest) == sextets(input@.skip(k + 1)));
                    }
                },
            }
            k = k + 1;
        }
    }
    let ghost before_tail = out@;
    if idx == 2 {
        out.push(v0 * 4 + v1 / 16);
    } else if idx == 3 {
        out.push(v0 * 4 + v1 / 16);
        out.push((v1 % 16) * 16 + v2 / 4);
    }
    proof {
        if !stop {
            assert(input@.skip(k as int) =~= Seq::<u8>::empty());
            assert(done + pending + Seq::<u8>::empty() =~= done + pending);
        }
        lemma_decode_groups_concat(done, pending);
        assert(decode_groups(pending) == decode_partial(pending));
        assert(out@ =~= before_tail + decode_partial(pending));
    }
    out
}


proof fn lemma_alphabet_roundtrip(v: int)
    requires
        0 <= v < 64,
    ensures
        alphabet_value(alphabet_byte(v)) == Some(v as u8),
        alphabet_byte(v) != 61,
        alphabet_byte(v) < 128,
{
}

proof fn lemma_group_roundtrip(b0: u8, b1: u8, b2: u8)
    ensures
        decode_group(seq![(b0 / 4) as u8, ((b0 % 4) * 16 + b1 / 16) as u8, ((b1 % 16) * 4 + b2 / 64) as u8, (b2 % 64) as u8])
            =~= seq![b0, b1, b2],
{
    assert(((b0 / 4) * 4 + ((b0 % 4) * 16 + b1 / 16) / 16) as u8 == b0) by (bit_vector);
    assert(((((b0 % 4) * 16 + b1 / 16) % 16) * 16 + ((b1 % 16) * 4 + b2 / 64) / 4) as u8 == b1) by (bit_vector);
    assert(((((b1 % 16) * 4 + b2 / 64) % 4) * 64 + b2 % 64) as u8 == b2) by (bit_vector);
}

proof fn lemma_sextets_prefix(x: Seq<u8>, v: u8, rest: Seq<u8>)
    requires
        alphabet_value(x[0]) == Some(v),
        x.len() >= 1,
        x[0] != 61,
        x.drop_first() == rest,
    ensures
        sextets(x) == seq![v] + sextets(rest),
{
}

/// The six-bit values of a group's characters.
pub open spec fn group_values(g: Seq<u8>) -> Seq<u8> {
    let b0 = g[0];
    let b1: u8 = if g.len() > 1 { g[1] } else { 0 };
    let b2: u8 = if g.len() > 2 { g[2] } else { 0 };
    seq![(b0 / 4) as u8, ((b0 % 4) * 16 + b1 / 16) as u8, ((b1 % 16) * 4 + b2 / 64) as u8, (b2 % 64) as u8]
}

#[verifier::rlimit(30)]
proof fn lemma_group_sextets(g: Seq<u8>, tail: Seq<u8>)
    requires
        1 <= g.len() <= 3,
    ensures
        g.len() == 3 ==> sextets(encode_utf8(encode_group(g)) + tail) == group_values(g) + sextets(tail),
        g.len() == 1 ==> sextets(encode_utf8(encode_group(g)) + tail) == group_values(g).take(2),
        g.len() == 2 ==> sextets(encode_utf8(encode_group(g)) + tail) == group_values(g).take(3),
{
    let e = encode_group(g);
    let vs = group_values(g);
    lemma_alphabet_roundtrip(vs[0] as int);
    lemma_alphabet_roundtrip(vs[1] as int);
    lemma_alphabet_roundtrip(vs[2] as int);
    lemma_alphabet_roundtrip(vs[3] as int);
    assert(is_ascii_chars(e));
    is_ascii_chars_encode_utf8(e);
    let eb = encode_utf8(e);
    let x0 = eb + tail;
    let x1 = x0.drop_first();
    let x2 = x1.drop_first();
    let x3 = x2.drop_first();
    let x4 = x3.drop_first();
    assert(x0[0] == eb[0] && x1[0] == eb[1] && x2[0] == eb[2] && x3[0] == eb[3]);
    assert(x4 =~= tail);
    lemma_sextets_prefix(x0, vs[0], x1);
    lemma_sextets_prefix(x1, vs[1], x2);
    if g.len() == 3 {
        lemma_sextets_prefix(x2, vs[2], x3);
        lemma_sextets_prefix(x3, vs[3], x4);
        assert(sextets(x0) =~= vs + sextets(tail));
    } else if g.len() == 1 {
        assert(x2[0] == 61);
        assert(sextets(x0) =~= seq![vs[0], vs[1]]);
    } else {
        lemma_sextets_prefix(x2, vs[2], x3);
        assert(x3[0] == 61);
        assert(sextets(x0) =~= seq![vs[0], vs[1], vs[2]]);
    }
}

/// Decoding what encoding produced gives back the encoded bytes.
pub proof fn lemma_decode_encode(b: Seq<u8>)
    ensures
        decode_bytes_spec(encode_utf8(encode_spec(b))) == b,
    decreases b.len(),
{
    if b.len() == 0 {
        assert(encode_spec(b) =~= Seq::<char>::empty());
        assert(encode_utf8(Seq::<char>::empty()) =~= Seq::<u8>::empty());
        assert(decode_bytes_spec(Seq::<u8>::empty()) =~= Seq::<u8>::empty());
    } else {
        let k = group_len(b.len());
        let g = b.take(k);
        let rest = b.skip(k);
        let tail = encode_utf8(encode_spec(rest));
        crate::text::lemma_encode_utf8_concat(encode_group(g), encode_spec(rest));
        assert(encode_utf8(encode_spec(b)) == encode_utf8(encode_group(g)) + tail);
        lemma_group_sextets(g, tail);
        if k == 3 {
            let vs = group_values(g);
            lemma_decode_groups_concat(vs, sextets(tail));
            assert(vs.take(4) =~= vs);
            assert(vs.skip(4) =~= Seq::<u8>::empty());
            assert(decode_groups(vs) =~= decode_group(vs) + decode_groups(vs.skip(4)));
            lemma_group_roundtrip(g[0], g[1], g[2]);
            assert(decode_group(vs) =~= g);
            lemma_decode_encode(rest);
            assert(b =~= g + rest);
        } else {
            let b0 = g[0];
            assert(rest.len() == 0);
            assert(encode_spec(rest) =~= Seq::<char>::empty());
            assert(tail =~= Seq::<u8>::empty());
            if k == 1 {
                assert(((b0 / 4) * 4 + ((b0 % 4) * 16 + 0u8 / 16) / 16) as u8 == b0) by (bit_vector);
                assert(decode_groups(group_values(g).take(2)) =~= seq![b0]);
                assert(b =~= seq![b0]);
            } else {
                let b1 = g[1];
                assert(((b0 / 4) * 4 + ((b0 % 4) * 16 + b1 / 16) / 16) as u8 == b0) by (bit_vector);
                assert(((((b0 % 4) * 16 + b1 / 16) % 16) * 16 + ((b1 % 16) * 4 + 0u8 / 64) / 4) as u8 == b1) by (bit_vector);
                assert(decode_groups(group_values(g).take(3)) =~= seq![b0, b1]);
                assert(b =~= seq![b0, b1]);
            }
        }
    }
}

/// Decode Base64 text: the decoded bytes as text, or `None` when they are not
/// valid UTF-8.
pub fn decode(input: &str) -> (out: Option<String>)
    ensures
        out is Some <==> valid_utf8(decode_bytes_spec(encode_utf8(input@))),
        out matches Some(s) ==> s@ == decode_utf8(decode_bytes_spec(encode_utf8(input@))),
{
    let bytes = decode_bytes(input.as_bytes());
    string_from_utf8(bytes)
}


/// The declared signatures of the Base64 functions, in order.
pub open spec fn signature_table() -> Seq<SigSpec> {
    seq![
        ("base64_encode"@, seq![("data"@, Type::Str)], Some(Type::Str)),
        ("base64_decode"@, seq![("encoded"@, Type::Str)], Some(Type::Any)),
    ]
}

/// The signatures of the Base64 functions, for name resolution and typing.
pub fn signatures() -> (sigs: Vec<FnSignature>)
    ensures
        sigs_match(sigs@, signature_table()),
{
    let mut sigs: Vec<FnSignature> = Vec::new();
    let ghost mut table: Seq<SigSpec> = Seq::empty();
    let s = sig("base64_encode", vec![param("data", Type::Str)], Some(Type::Str));
    proof {
        assert(param_views(s.params@) =~= ("base64_encode"@, seq![("data"@, Type::Str)], Some(Type::Str)).1);
        lemma_sigs_match_push(sigs@, table, s, ("base64_encode"@, seq![("data"@, Type::Str)], Some(Type::Str)));
        table = table.push(("base64_encode"@, seq![("data"@, Type::Str)], Some(Type::Str)));
    }
    sigs.push(s);
    let s = sig("base64_decode", vec![param("encoded", Type::Str)], Some(Type::Any));
    proof {
        assert(param_views(s.params@) =~= ("base64_decode"@, seq![("encoded"@, Type::Str)], Some(Type::Any)).1);
        lemma_sigs_match_push(sigs@, table, s, ("base64_decode"@, seq![("encoded"@, Type::Str)], Some(Type::Any)));
        table = table.push(("base64_decode"@, seq![("encoded"@, Type::Str)], Some(Type::Any)));
    }
    sigs.push(s);
    assert(table =~= signature_table());
    sigs
}

} // verus!
