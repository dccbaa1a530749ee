//! Fast non-cryptographic hashes: FNV-1a, CRC-32, and the standard hasher.
use vstd::prelude::*;
use std::hash::{Hash, Hasher};
use crate::ast::Type;
use vstd::utf8::encode_utf8;
use crate::text::{hex_fixed, push_hex_fixed};
use crate::symbol::{FnSignature, SigSpec, sigs_match, sig_is, param_views, lemma_sigs_match_push, param, sig};

verus! {

/// The 64-bit FNV-1a hash of `data`: from the offset basis, each byte is
/// xored in and the product with the FNV prime taken modulo 2^64.
pub open spec fn fnv1a_spec(data: Seq<u8>) -> u64
    decreases data.len(),
{
    if data.len() == 0 {
        0xcbf29ce484222325u64
    } else {
        (((fnv1a_spec(data.drop_last()) ^ (data.last() as u64)) as nat * 0x100000001b3nat)
            % 0x1_0000_0000_0000_0000nat) as u64
    }
}

/// One step of the reflected CRC-32 register over a single bit.
pub open spec fn crc_bit(c: u32) -> u32 {
    if c & 1 != 0 { (c >> 1u32) ^ 0xedb88320u32 } else { c >> 1u32 }
}

/// The register after `k` single-bit steps.
pub open spec fn crc_bits(c: u32, k: nat) -> u32
    decreases k,
{
    if k == 0 { c } else { crc_bit(crc_bits(c, (k - 1) as nat)) }
}

/// The CRC-32 register after the bytes of `data`, from all ones.
pub open spec fn crc_register(data: Seq<u8>) -> u32
    decreases data.len(),
{
    if data.len() == 0 {
        0xffffffffu32
    } else {
        crc_bits(crc_register(data.drop_last()) ^ (data.last() as u32), 8)
    }
}

/// The CRC-32 checksum (IEEE polynomial, reflected) of `data`.
pub open spec fn crc32_spec(data: Seq<u8>) -> u32 {
    crc_register(data) ^ 0xffffffffu32
}

/// The 64-bit FNV-1a hash of `data`.
pub fn fnv1a_hash(data: &[u8]) -> (h: u64)
    ensures
        h == fnv1a_spec(data@),
{
    let mut hash: u64 = 0xcbf29ce484222325;
    let mut i: usize = 0;
    while i < data.len()
        invariant
            i <= data@.len(),
            hash == fnv1a_spec(data@.take(i as int)),
        decreases data@.len() - i,
    {
        proof {
            assert(data@.take(i + 1).drop_last() =~= data@.take(i as int));
        }
        hash = hash ^ (data[i] as u64);
        hash = hash.wrapping_mul(0x100000001b3);
        i = i + 1;
    }
    proof {
        assert(data@.take(data@.len() as int) =~= data@);
    }
    hash
}

/// The CRC-32 checksum of `data`.
pub fn crc32_checksum(data: &[u8]) -> (c: u32)
    ensures
        c == crc32_spec(data@),
{
    let mut crc: u32 = 0xffffffff;
    let mut i: usize = 0;
    while i < data.len()
        invariant
            i <= data@.len(),
            crc == crc_register(data@.take(i as int)),
        decreases data@.len() - i,
    {
        proof {
            assert(data@.take(i + 1).drop_last() =~= data@.take(i as int));
        }
        crc = crc ^ (data[i] as u32);
        let ghost start = crc;
        let mut k: usize = 0;
        while k < 8
            invariant
                k <= 8,
                crc == crc_bits(start, k as nat),
            decreases 8 - k,
        {
            if crc & 1 != 0 {
                crc = (crc >> 1) ^ 0xedb88320;
            } else {
                crc = crc >> 1;
            }
            k = k + 1;
        }
        i = i + 1;
    }
    proof {
        assert(data@.take(data@.len() as int) =~= data@);
    }
    crc ^ 0xffffffff
}

/// `fnv1a(data)`: the FNV-1a hash of the text's bytes as 16 lowercase hex digits.
pub fn fnv1a(data: &str) -> (r: String)
    ensures
        r@ == hex_fixed(fnv1a_spec(encode_utf8(data@)) as nat, 16),
{
    let h = fnv1a_hash(data.as_bytes());
    let mut out = String::new();
    push_hex_fixed(&mut out, h, 16);
    out
}

/// `crc32(data)`: the CRC-32 of the text's bytes as 8 lowercase hex digits.
pub fn crc32(data: &str) -> (r: String)
    ensures
        r@ == hex_fixed(crc32_spec(encode_utf8(data@)) as nat, 8),
{
    let c = crc32_checksum(data.as_bytes());
    let mut out = String::new();
    push_hex_fixed(&mut out, c as u64, 8);
    out
}

/// The hash the standard library's default hasher gives a text. Every
/// hasher made by `DefaultHasher::new` starts the same (fixed keys), so the
/// hash depends on the text alone; the algorithm is left unnamed.
pub uninterp spec fn default_hash(s: Seq<char>) -> u64;

/// The standard library's default hasher (`DefaultHasher::new`, then
/// `Hash::hash` and `Hasher::finish`) applied to `data`: claimed to be
/// `default_hash` of the text, since a new hasher always starts from the same
/// keys. Which number that is, is not said.
#[verifier::external_body]
fn default_hash_str(data: &str) -> (h: u64)
    ensures
        h == default_hash(data@),
{
    let mut hasher = std::collections::hash_map::DefaultHasher::new();
    data.hash(&mut hasher);
    hasher.finish()
}

/// The 16 lowercase hex digits of a 64-bit hash.
pub fn hash_hex(h: u64) -> (r: String)
    ensures
        r@ == hex_fixed(h as nat, 16),
{
    let mut out = String::new();
    push_hex_fixed(&mut out, h, 16);
    out
}

/// `hash_str(data)`: the standard hasher's hash of the text as 16 lowercase
/// hex digits.
pub fn hash_str(data: &str) -> (r: String)
    ensures
        r@ == hex_fixed(default_hash(data@) as nat, 16),
{
    let h = default_hash_str(data);
    hash_hex(h)
}


/// The declared signatures of the hashing functions, in order.
pub open spec fn signature_table() -> Seq<SigSpec> {
    seq![
        ("fnv1a"@, seq![("data"@, Type::Str)], Some(Type::Str)),
        ("crc32"@, seq![("data"@, Type::Str)], Some(Type::Str)),
        ("hash_str"@, seq![("data"@, Type::Str)], Some(Type::Str)),
    ]
}

/// The signatures of the hashing functions, for name resolution and typing.
pub fn signatures() -> (sigs: Vec<FnSignature>)
    ensures
        sigs_match(sigs@, signature_table()),
{
    let mut sigs: Vec<FnSignature> = Vec::new();
    let ghost mut table: Seq<SigSpec> = Seq::empty();
    let s = sig("fnv1a", vec![param("data", Type::Str)], Some(Type::Str));
    proof {
        assert(param_views(s.params@) =~= ("fnv1a"@, seq![("data"@, Type::Str)], Some(Type::Str)).1);
        lemma_sigs_match_push(sigs@, table, s, ("fnv1a"@, seq![("data"@, Type::Str)], Some(Type::Str)));
        table = table.push(("fnv1a"@, seq![("data"@, Type::Str)], Some(Type::Str)));
    }
    sigs.push(s);
    let s = sig("crc32", vec![param("data", Type::Str)], Some(Type::Str));
    proof {
        assert(param_views(s.params@) =~= ("crc32"@, seq![("data"@, Type::Str)], Some(Type::Str)).1);
        lemma_sigs_match_push(sigs@, table, s, ("crc32"@, seq![("data"@, Type::Str)], Some(Type::Str)));
        table = table.push(("crc32"@, seq![("data"@, Type::Str)], Some(Type::Str)));
    }
    sigs.push(s);
    let s = sig("hash_str", vec![param("data", Type::Str)], Some(Type::Str));
    proof {
        assert(param_views(s.params@) =~= ("hash_str"@, seq![("data"@, Type::Str)], Some(Type::Str)).1);
        lemma_sigs_match_push(sigs@, table, s, ("hash_str"@, seq![("data"@, Type::Str)], Some(Type::Str)));
        table = table.push(("hash_str"@, seq![("data"@, Type::Str)], Some(Type::Str)));
    }
    sigs.push(s);
    assert(table =~= signature_table());
    sigs
}

} // verus!
