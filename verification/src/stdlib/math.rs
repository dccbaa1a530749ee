//! Vector and scalar maths for games: interpolation, clamping, trigonometry, random numbers.
use vstd::prelude::*;
use crate::ast::Type;
use crate::symbol::{FnSignature, SigSpec, sigs_match, sig_is, param_views, lemma_sigs_match_push, param, sig};

verus! {

/// One step of the xorshift64 generator (shifts 13, 7, 17).
pub open spec fn xorshift_spec(x: u64) -> u64 {
    let a = x ^ (x << 13u64);
    let b = a ^ (a >> 7u64);
    b ^ (b << 17u64)
}

/// The generator's next state, which is also the number it draws.
pub fn xorshift_next(x: u64) -> (r: u64)
    ensures
        r == xorshift_spec(x),
{
    let mut x = x;
    x = x ^ (x << 13u64);
    x = x ^ (x >> 7u64);
    x = x ^ (x << 17u64);
    x
}

/// `rand_seed(seed)`: the generator state a seed gives; the state is never zero.
pub fn seed_state(seed: Option<i64>) -> (state: u64)
    ensures
        state == (seed.unwrap_or(0) as u64) | 1,
        state != 0,
{
    let s = seed.unwrap_or(0) as u64;
    assert((s | 1) != 0) by (bit_vector);
    s | 1
}

/// Why `rand_range` refused its bounds.
#[derive(Debug, Clone, Copy, PartialEq, Eq, Structural)]
pub enum RangeError {
    /// A bound is missing or is not an integer.
    NotIntegers,
    /// The high bound is not greater than the low bound.
    Empty,
}

/// `rand_range(lo, hi)` given the number `draw` the generator produced:
/// `lo + draw mod (hi - lo)`.
pub fn rand_range_value(lo: Option<i64>, hi: Option<i64>, draw: u64) -> (r: Result<i64, RangeError>)
    requires
        lo is Some && hi is Some && hi.unwrap() > lo.unwrap() ==> hi.unwrap() - lo.unwrap() <= i64::MAX,
    ensures
        match (lo, hi) {
            (Some(l), Some(h)) => if h <= l {
                r == Err::<i64, RangeError>(RangeError::Empty)
            } else {
                r == Ok::<i64, RangeError>((l + draw as int % (h - l)) as i64)
            },
            _ => r == Err::<i64, RangeError>(RangeError::NotIntegers),
        },
{
    let lo = match lo {
        Some(v) => v,
        None => return Err(RangeError::NotIntegers),
    };
    let hi = match hi {
        Some(v) => v,
        None => return Err(RangeError::NotIntegers),
    };
    if hi <= lo {
        return Err(RangeError::Empty);
    }
    let span = (hi - lo) as u64;
    let off = (draw % span) as i64;
    Ok(lo + off)
}


/// The declared signatures of the maths functions, in order.
pub open spec fn signature_table() -> Seq<SigSpec> {
    seq![
        ("sin"@, seq![("x"@, Type::F64)], Some(Type::F64)),
        ("cos"@, seq![("x"@, Type::F64)], Some(Type::F64)),
        ("tan"@, seq![("x"@, Type::F64)], Some(Type::F64)),
        ("atan2"@, seq![("y"@, Type::F64), ("x"@, Type::F64)], Some(Type::F64)),
        ("lerp"@, seq![("a"@, Type::F64), ("b"@, Type::F64), ("t"@, Type::F64)], Some(Type::F64)),
        ("clamp"@, seq![("x"@, Type::F64), ("lo"@, Type::F64), ("hi"@, Type::F64)], Some(Type::F64)),
        ("rand"@, Seq::empty(), Some(Type::F64)),
        ("rand_range"@, seq![("lo"@, Type::I64), ("hi"@, Type::I64)], Some(Type::I64)),
        ("rand_seed"@, seq![("seed"@, Type::I64)], Some(Type::Unit)),
        ("vec2"@, seq![("x"@, Type::F64), ("y"@, Type::F64)], Some(Type::Any)),
        ("vec3"@, seq![("x"@, Type::F64), ("y"@, Type::F64), ("z"@, Type::F64)], Some(Type::Any)),
        ("vec_add"@, seq![("a"@, Type::Any), ("b"@, Type::Any)], Some(Type::Any)),
        ("vec_sub"@, seq![("a"@, Type::Any), ("b"@, Type::Any)], Some(Type::Any)),
        ("vec_scale"@, seq![("a"@, Type::Any), ("s"@, Type::F64)], Some(Type::Any)),
        ("vec_dot"@, seq![("a"@, Type::Any), ("b"@, Type::Any)], Some(Type::F64)),
        ("vec_len"@, seq![("a"@, Type::Any)], Some(Type::F64)),
        ("vec_normalize"@, seq![("a"@, Type::Any)], Some(Type::Any)),
    ]
}

/// The signatures of the maths functions, for name resolution and typing.
pub fn signatures() -> (sigs: Vec<FnSignature>)
    ensures
        sigs_match(sigs@, signature_table()),
{
    let mut sigs: Vec<FnSignature> = Vec::new();
    let ghost mut table: Seq<SigSpec> = Seq::empty();
    let s = sig("sin", vec![param("x", Type::F64)], Some(Type::F64));
    proof {
        assert(param_views(s.params@) =~= ("sin"@, seq![("x"@, Type::F64)], Some(Type::F64)).1);
        lemma_sigs_match_push(sigs@, table, s, ("sin"@, seq![("x"@, Type::F64)], Some(Type::F64)));
        table = table.push(("sin"@, seq![("x"@, Type::F64)], Some(Type::F64)));
    }
    sigs.push(s);
    let s = sig("cos", vec![param("x", Type::F64)], Some(Type::F64));
    proof {
        assert(param_views(s.params@) =~= ("cos"@, seq![("x"@, Type::F64)], Some(Type::F64)).1);
        lemma_sigs_match_push(sigs@, table, s, ("cos"@, seq![("x"@, Type::F64)], Some(Type::F64)));
        table = table.push(("cos"@, seq![("x"@, Type::F64)], Some(Type::F64)));
    }
    sigs.push(s);
    let s = sig("tan", vec![param("x", Type::F64)], Some(Type::F64));
    proof {
        assert(param_views(s.params@) =~= ("tan"@, seq![("x"@, Type::F64)], Some(Type::F64)).1);
        lemma_sigs_match_push(sigs@, table, s, ("tan"@, seq![("x"@, Type::F64)], Some(Type::F64)));
        table = table.push(("tan"@, seq![("x"@, Type::F64)], Some(Type::F64)));
    }
    sigs.push(s);
    let s = sig("atan2", vec![param("y", Type::F64), param("x", Type::F64)], Some(Type::F64));
    proof {
        assert(param_views(s.params@) =~= ("atan2"@, seq![("y"@, Type::F64), ("x"@, Type::F64)], Some(Type::F64)).1);
        lemma_sigs_match_push(sigs@, table, s, ("atan2"@, seq![("y"@, Type::F64), ("x"@, Type::F64)], Some(Type::F64)));
        table = table.push(("atan2"@, seq![("y"@, Type::F64), ("x"@, Type::F64)], Some(Type::F64)));
    }
    sigs.push(s);
    let s = sig("lerp", vec![param("a", Type::F64), param("b", Type::F64), param("t", Type::F64)], Some(Type::F64));
    proof {
        assert(param_views(s.params@) =~= ("lerp"@, seq![("a"@, Type::F64), ("b"@, Type::F64), ("t"@, Type::F64)], Some(Type::F64)).1);
        lemma_sigs_match_push(sigs@, table, s, ("lerp"@, seq![("a"@, Type::F64), ("b"@, Type::F64), ("t"@, Type::F64)], Some(Type::F64)));
        table = table.push(("lerp"@, seq![("a"@, Type::F64), ("b"@, Type::F64), ("t"@, Type::F64)], Some(Type::F64)));
    }
    sigs.push(s);
    let s = sig("clamp", vec![param("x", Type::F64), param("lo", Type::F64), param("hi", Type::F64)], Some(Type::F64));
    proof {
        assert(param_views(s.params@) =~= ("clamp"@, seq![("x"@, Type::F64), ("lo"@, Type::F64), ("hi"@, Type::F64)], Some(Type::F64)).1);
        lemma_sigs_match_push(sigs@, table, s, ("clamp"@, seq![("x"@, Type::F64), ("lo"@, Type::F64), ("hi"@, Type::F64)], Some(Type::F64)));
        table = table.push(("clamp"@, seq![("x"@, Type::F64), ("lo"@, Type::F64), ("hi"@, Type::F64)], Some(Type::F64)));
    }
    sigs.push(s);
    let s = sig("rand", vec![], Some(Type::F64));
    proof {
        assert(param_views(s.params@) =~= ("rand"@, Seq::empty(), Some(Type::F64)).1);
        lemma_sigs_match_push(sigs@, table, s, ("rand"@, Seq::empty(), Some(Type::F64)));
        table = table.push(("rand"@, Seq::empty(), Some(Type::F64)));
    }
    sigs.push(s);
    let s = sig("rand_range", vec![param("lo", Type::I64), param("hi", Type::I64)], Some(Type::I64));
    proof {
        assert(param_views(s.params@) =~= ("rand_range"@, seq![("lo"@, Type::I64), ("hi"@, Type::I64)], Some(Type::I64)).1);
        lemma_sigs_match_push(sigs@, table, s, ("rand_range"@, seq![("lo"@, Type::I64), ("hi"@, Type::I64)], Some(Type::I64)));
        table = table.push(("rand_range"@, seq![("lo"@, Type::I64), ("hi"@, Type::I64)], Some(Type::I64)));
    }
    sigs.push(s);
    let s = sig("rand_seed", vec![param("seed", Type::I64)], Some(Type::Unit));
    proof {
        assert(param_views(s.params@) =~= ("rand_seed"@, seq![("seed"@, Type::I64)], Some(Type::Unit)).1);
        lemma_sigs_match_push(sigs@, table, s, ("rand_seed"@, seq![("seed"@, Type::I64)], Some(Type::Unit)));
        table = table.push(("rand_seed"@, seq![("seed"@, Type::I64)], Some(Type::Unit)));
    }
    sigs.push(s);
    let s = sig("vec2", vec![param("x", Type::F64), param("y", Type::F64)], Some(Type::Any));
    proof {
        assert(param_views(s.params@) =~= ("vec2"@, seq![("x"@, Type::F64), ("y"@, Type::F64)], Some(Type::Any)).1);
        lemma_sigs_match_push(sigs@, table, s, ("vec2"@, seq![("x"@, Type::F64), ("y"@, Type::F64)], Some(Type::Any)));
        table = table.push(("vec2"@, seq![("x"@, Type::F64), ("y"@, Type::F64)], Some(Type::Any)));
    }
    sigs.push(s);
    let s = sig("vec3", vec![param("x", Type::F64), param("y", Type::F64), param("z", Type::F64)], Some(Type::Any));
    proof {
        assert(param_views(s.params@) =~= ("vec3"@, seq![("x"@, Type::F64), ("y"@, Type::F64), ("z"@, Type::F64)], Some(Type::Any)).1);
        lemma_sigs_match_push(sigs@, table, s, ("vec3"@, seq![("x"@, Type::F64), ("y"@, Type::F64), ("z"@, Type::F64)], Some(Type::Any)));
        table = table.push(("vec3"@, seq![("x"@, Type::F64), ("y"@, Type::F64), ("z"@, Type::F64)], Some(Type::Any)));
    }
    sigs.push(s);
    let s = sig("vec_add", vec![param("a", Type::Any), param("b", Type::Any)], Some(Type::Any));
    proof {
        assert(param_views(s.params@) =~= ("vec_add"@, seq![("a"@, Type::Any), ("b"@, Type::Any)], Some(Type::Any)).1);
        lemma_sigs_match_push(sigs@, table, s, ("vec_add"@, seq![("a"@, Type::Any), ("b"@, Type::Any)], Some(Type::Any)));
        table = table.push(("vec_add"@, seq![("a"@, Type::Any), ("b"@, Type::Any)], Some(Type::Any)));
    }
    sigs.push(s);
    let s = sig("vec_sub", vec![param("a", Type::Any), param("b", Type::Any)], Some(Type::Any));
    proof {
        assert(param_views(s.params@) =~= ("vec_sub"@, seq![("a"@, Type::Any), ("b"@, Type::Any)], Some(Type::Any)).1);
        lemma_sigs_match_push(sigs@, table, s, ("vec_sub"@, seq![("a"@, Type::Any), ("b"@, Type::Any)], Some(Type::Any)));
        table = table.push(("vec_sub"@, seq![("a"@, Type::Any), ("b"@, Type::Any)], Some(Type::Any)));
    }
    sigs.push(s);
    let s = sig("vec_scale", vec![param("a", Type::Any), param("s", Type::F64)], Some(Type::Any));
    proof {
        assert(param_views(s.params@) =~= ("vec_scale"@, seq![("a"@, Type::Any), ("s"@, Type::F64)], Some(Type::Any)).1);
        lemma_sigs_match_push(sigs@, table, s, ("vec_scale"@, seq![("a"@, Type::Any), ("s"@, Type::F64)], Some(Type::Any)));
        table = table.push(("vec_scale"@, seq![("a"@, Type::Any), ("s"@, Type::F64)], Some(Type::Any)));
    }
    sigs.push(s);
    let s = sig("vec_dot", vec![param("a", Type::Any), param("b", Type::Any)], Some(Type::F64));
    proof {
        assert(param_views(s.params@) =~= ("vec_dot"@, seq![("a"@, Type::Any), ("b"@, Type::Any)], Some(Type::F64)).1);
        lemma_sigs_match_push(sigs@, table, s, ("vec_dot"@, seq![("a"@, Type::Any), ("b"@, Type::Any)], Some(Type::F64)));
        table = table.push(("vec_dot"@, seq![("a"@, Type::Any), ("b"@, Type::Any)], Some(Type::F64)));
    }
    sigs.push(s);
    let s = sig("vec_len", vec![param("a", Type::Any)], Some(Type::F64));
    proof {
        assert(param_views(s.params@) =~= ("vec_len"@, seq![("a"@, Type::Any)], Some(Type::F64)).1);
        lemma_sigs_match_push(sigs@, table, s, ("vec_len"@, seq![("a"@, Type::Any)], Some(Type::F64)));
        table = table.push(("vec_len"@, seq![("a"@, Type::Any)], Some(Type::F64)));
    }
    sigs.push(s);
    let s = sig("vec_normalize", vec![param("a", Type::Any)], Some(Type::Any));
    proof {
        assert(param_views(s.params@) =~= ("vec_normalize"@, seq![("a"@, Type::Any)], Some(Type::Any)).1);
        lemma_sigs_match_push(sigs@, table, s, ("vec_normalize"@, seq![("a"@, Type::Any)], Some(Type::Any)));
        table = table.push(("vec_normalize"@, seq![("a"@, Type::Any)], Some(Type::Any)));
    }
    sigs.push(s);
    assert(table =~= signature_table());
    sigs
}

} // verus!
