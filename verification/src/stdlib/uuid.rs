//! Random version-4 UUIDs.
use vstd::prelude::*;
use crate::ast::Type;
use crate::text::{hex_fixed, push_hex_fixed, string_push};
use crate::symbol::{FnSignature, SigSpec, sigs_match, sig_is, param_views, lemma_sigs_match_push, param, sig};

verus! {

/// Byte `k` (from 0, least significant first) of `w`.
pub open spec fn le_byte(w: u64, k: int) -> u8 {
    ((w as int / pow256(k)) % 256) as u8
}

pub open spec fn pow256(k: int) -> int
    decreases k,
{
    if k <= 0 { 1 } else { 256 * pow256(k - 1) }
}

/// The sixteen bytes of a version-4 UUID made from two random words: the
/// words' little-endian bytes, with the version nibble of byte 6 set to 4 and
/// the variant bits of byte 8 set to `10`.
pub open spec fn uuid_bytes(b1: u64, b2: u64) -> Seq<u8> {
    let raw = Seq::new(16, |k: int| if k < 8 { le_byte(b1, k) } else { le_byte(b2, k - 8) });
    raw.update(6, ((raw[6] % 16) + 0x40) as u8).update(8, ((raw[8] % 64) + 0x80) as u8)
}

/// Two lowercase hex digits per byte, with a `-` before bytes 4, 6, 8 and 10.
pub open spec fn uuid_text(bytes: Seq<u8>) -> Seq<char>
    decreases bytes.len(),
{
    if bytes.len() == 0 {
        seq![]
    } else {
        let k = bytes.len() - 1;
        let prefix = uuid_text(bytes.drop_last());
        let dash = if k == 4 || k == 6 || k == 8 || k == 10 { seq!['-'] } else { seq![] };
        prefix + dash + hex_fixed(bytes.last() as nat, 2)
    }
}

proof fn lemma_le_byte_step(w: u64, k: int)
    requires
        0 <= k < 8,
    ensures
        le_byte(w, k) == ((w as int / pow256(k)) % 256) as u8,
        pow256(k + 1) == 256 * pow256(k),
        pow256(k) > 0,
    decreases k,
{
    if k > 0 {
        lemma_le_byte_step(w, k - 1);
    }
}

fn word_bytes(w: u64, out: &mut Vec<u8>)
    ensures
        final(out)@.len() == old(out)@.len() + 8,
        final(out)@.take(old(out)@.len() as int) == old(out)@,
        forall|k: int| 0 <= k < 8 ==> #[trigger] final(out)@[old(out)@.len() + k] == le_byte(w, k),
{
    let mut cur: u64 = w;
    let mut k: usize = 0;
    let ghost start = old(out)@;
    while k < 8
        invariant
            k <= 8,
            out@.len() == start.len() + k,
            out@.take(start.len() as int) == start,
            cur as int == w as int / pow256(k as int),
            forall|j: int| 0 <= j < k ==> #[trigger] out@[start.len() + j] == le_byte(w, j),
        decreases 8 - k,
    {
        proof {
            lemma_le_byte_step(w, k as int);
            vstd::arithmetic::div_mod::lemma_div_denominator(w as int, pow256(k as int), 256);
            assert(pow256(k as int) * 256 == 256 * pow256(k as int)) by (nonlinear_arith);
        }
        let ghost before = out@;
        out.push((cur % 256) as u8);
        cur = cur / 256;
        proof {
            assert(out@.take(start.len() as int) =~= before.take(start.len() as int));
        }
        k = k + 1;
    }
}

/// `uuid_v4()` from the two random words it draws.
pub fn uuid_from_words(b1: u64, b2: u64) -> (s: String)
    ensures
        s@ == uuid_text(uuid_bytes(b1, b2)),
{
    let mut bytes: Vec<u8> = Vec::new();
    word_bytes(b1, &mut bytes);
    let ghost s1 = bytes@;
    assert(forall|k: int| 0 <= k < 8 ==> s1[k] == le_byte(b1, k)) by {
        assert forall|k: int| 0 <= k < 8 implies s1[k] == le_byte(b1, k) by {
            assert(s1[0 + k] == le_byte(b1, k));
        }
    }
    word_bytes(b2, &mut bytes);
    let ghost raw = bytes@;
    proof {
        assert forall|k: int| 0 <= k < 16 implies raw[k] == (if k < 8 { le_byte(b1, k) } else { le_byte(b2, k - 8) }) by {
            if k < 8 {
                assert(raw.take(8)[k] == s1[k]);
            } else {
                assert(raw[8 + (k - 8)] == le_byte(b2, k - 8));
            }
        }
    }
    let b6 = (bytes[6] & 0x0F) | 0x40;
    let b8 = (bytes[8] & 0x3F) | 0x80;
    proof {
        let x = bytes@[6];
        let y = bytes@[8];
        assert((x & 0x0F) | 0x40 == ((x % 16) + 0x40) as u8) by (bit_vector);
        assert((y & 0x3F) | 0x80 == ((y % 64) + 0x80) as u8) by (bit_vector);
    }
    bytes.set(6, b6);
    bytes.set(8, b8);
    proof {
        let r = Seq::new(16, |k: int| if k < 8 { le_byte(b1, k) } else { le_byte(b2, k - 8) });
        assert(raw =~= r);
        assert(bytes@ =~= uuid_bytes(b1, b2));
    }
    let mut out = String::new();
    let mut k: usize = 0;
    while k < 16
        invariant
            k <= 16,
            bytes@ == uuid_bytes(b1, b2),
            out@ == uuid_text(bytes@.take(k as int)),
        decreases 16 - k,
    {
        if k == 4 || k == 6 || k == 8 || k == 10 {
            string_push(&mut out, '-');
        }
        push_hex_fixed(&mut out, bytes[k] as u64, 2);
        proof {
            assert(bytes@.take(k + 1).drop_last() =~= bytes@.take(k as int));
            let d = if k == 4 || k == 6 || k == 8 || k == 10 { seq!['-'] } else { Seq::<char>::empty() };
            assert(out@ =~= uuid_text(bytes@.take(k as int)) + d + hex_fixed(bytes@[k as int] as nat, 2));
        }
        k = k + 1;
    }
    proof {
        assert(bytes@.take(16) =~= bytes@);
    }
    out
}


/// The declared signatures of the UUID functions, in order.
pub open spec fn signature_table() -> Seq<SigSpec> {
    seq![
        ("uuid_v4"@, Seq::empty(), Some(Type::Str)),
    ]
}

/// The signatures of the UUID functions, for name resolution and typing.
pub fn signatures() -> (sigs: Vec<FnSignature>)
    ensures
        sigs_match(sigs@, signature_table()),
{
    let mut sigs: Vec<FnSignature> = Vec::new();
    let ghost mut table: Seq<SigSpec> = Seq::empty();
    let s = sig("uuid_v4", vec![], Some(Type::Str));
    proof {
        assert(param_views(s.params@) =~= ("uuid_v4"@, Seq::empty(), Some(Type::Str)).1);
        lemma_sigs_match_push(sigs@, table, s, ("uuid_v4"@, Seq::empty(), Some(Type::Str)));
        table = table.push(("uuid_v4"@, Seq::empty(), Some(Type::Str)));
    }
    sigs.push(s);
    assert(table =~= signature_table());
    sigs
}

} // verus!
