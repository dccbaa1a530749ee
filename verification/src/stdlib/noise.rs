//! Value and fractal noise.
use vstd::prelude::*;
use crate::ast::Type;
use crate::symbol::{FnSignature, SigSpec, sigs_match, sig_is, param_views, lemma_sigs_match_push, param, sig};

verus! {

/// The declared signatures of the noise functions, in order.
pub open spec fn signature_table() -> Seq<SigSpec> {
    seq![
        ("perlin2d"@, seq![("x"@, Type::F64), ("y"@, Type::F64), ("seed"@, Type::I64)], Some(Type::F64)),
        ("simplex2d"@, seq![("x"@, Type::F64), ("y"@, Type::F64), ("seed"@, Type::I64)], Some(Type::F64)),
        ("fbm2d"@, seq![("x"@, Type::F64), ("y"@, Type::F64), ("octaves"@, Type::I64), ("seed"@, Type::I64)], Some(Type::F64)),
    ]
}

/// The signatures of the noise functions, for name resolution and typing.
pub fn signatures() -> (sigs: Vec<FnSignature>)
    ensures
        sigs_match(sigs@, signature_table()),
{
    let mut sigs: Vec<FnSignature> = Vec::new();
    let ghost mut table: Seq<SigSpec> = Seq::empty();
    let s = sig("perlin2d", vec![param("x", Type::F64), param("y", Type::F64), param("seed", Type::I64)], Some(Type::F64));
    proof {
        assert(param_views(s.params@) =~= ("perlin2d"@, seq![("x"@, Type::F64), ("y"@, Type::F64), ("seed"@, Type::I64)], Some(Type::F64)).1);
        lemma_sigs_match_push(sigs@, table, s, ("perlin2d"@, seq![("x"@, Type::F64), ("y"@, Type::F64), ("seed"@, Type::I64)], Some(Type::F64)));
        table = table.push(("perlin2d"@, seq![("x"@, Type::F64), ("y"@, Type::F64), ("seed"@, Type::I64)], Some(Type::F64)));
    }
    sigs.push(s);
    let s = sig("simplex2d", vec![param("x", Type::F64), param("y", Type::F64), param("seed", Type::I64)], Some(Type::F64));
    proof {
        assert(param_views(s.params@) =~= ("simplex2d"@, seq![("x"@, Type::F64), ("y"@, Type::F64), ("seed"@, Type::I64)], Some(Type::F64)).1);
        lemma_sigs_match_push(sigs@, table, s, ("simplex2d"@, seq![("x"@, Type::F64), ("y"@, Type::F64), ("seed"@, Type::I64)], Some(Type::F64)));
        table = table.push(("simplex2d"@, seq![("x"@, Type::F64), ("y"@, Type::F64), ("seed"@, Type::I64)], Some(Type::F64)));
    }
    sigs.push(s);
    let s = sig("fbm2d", vec![param("x", Type::F64), param("y", Type::F64), param("octaves", Type::I64), param("seed", Type::I64)], Some(Type::F64));
    proof {
        assert(param_views(s.params@) =~= ("fbm2d"@, seq![("x"@, Type::F64), ("y"@, Type::F64), ("octaves"@, Type::I64), ("seed"@, Type::I64)], Some(Type::F64)).1);
        lemma_sigs_match_push(sigs@, table, s, ("fbm2d"@, seq![("x"@, Type::F64), ("y"@, Type::F64), ("octaves"@, Type::I64), ("seed"@, Type::I64)], Some(Type::F64)));
        table = table.push(("fbm2d"@, seq![("x"@, Type::F64), ("y"@, Type::F64), ("octaves"@, Type::I64), ("seed"@, Type::I64)], Some(Type::F64)));
    }
    sigs.push(s);
    assert(table =~= signature_table());
    sigs
}

} // verus!
