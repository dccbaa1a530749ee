//! Sets of values.
use vstd::prelude::*;
use crate::ast::Type;
use crate::symbol::{FnSignature, SigSpec, sigs_match, sig_is, param_views, lemma_sigs_match_push, param, sig};

verus! {

/// The declared signatures of the set functions, in order.
pub open spec fn signature_table() -> Seq<SigSpec> {
    seq![
        ("set_new"@, Seq::empty(), Some(Type::Any)),
        ("set_add"@, seq![("set"@, Type::Any), ("val"@, Type::Any)], Some(Type::Unit)),
        ("set_remove"@, seq![("set"@, Type::Any), ("val"@, Type::Any)], Some(Type::Unit)),
        ("set_contains"@, seq![("set"@, Type::Any), ("val"@, Type::Any)], Some(Type::Bool)),
        ("set_len"@, seq![("set"@, Type::Any)], Some(Type::I64)),
        ("set_to_array"@, seq![("set"@, Type::Any)], Some(Type::Array(Box::new(Type::Any)))),
        ("set_from_array"@, seq![("arr"@, Type::Any)], Some(Type::Any)),
    ]
}

/// The signatures of the set functions, for name resolution and typing.
pub fn signatures() -> (sigs: Vec<FnSignature>)
    ensures
        sigs_match(sigs@, signature_table()),
{
    let mut sigs: Vec<FnSignature> = Vec::new();
    let ghost mut table: Seq<SigSpec> = Seq::empty();
    let s = sig("set_new", vec![], Some(Type::Any));
    proof {
        assert(param_views(s.params@) =~= ("set_new"@, Seq::empty(), Some(Type::Any)).1);
        lemma_sigs_match_push(sigs@, table, s, ("set_new"@, Seq::empty(), Some(Type::Any)));
        table = table.push(("set_new"@, Seq::empty(), Some(Type::Any)));
    }
    sigs.push(s);
    let s = sig("set_add", vec![param("set", Type::Any), param("val", Type::Any)], Some(Type::Unit));
    proof {
        assert(param_views(s.params@) =~= ("set_add"@, seq![("set"@, Type::Any), ("val"@, Type::Any)], Some(Type::Unit)).1);
        lemma_sigs_match_push(sigs@, table, s, ("set_add"@, seq![("set"@, Type::Any), ("val"@, Type::Any)], Some(Type::Unit)));
        table = table.push(("set_add"@, seq![("set"@, Type::Any), ("val"@, Type::Any)], Some(Type::Unit)));
    }
    sigs.push(s);
    let s = sig("set_remove", vec![param("set", Type::Any), param("val", Type::Any)], Some(Type::Unit));
    proof {
        assert(param_views(s.params@) =~= ("set_remove"@, seq![("set"@, Type::Any), ("val"@, Type::Any)], Some(Type::Unit)).1);
        lemma_sigs_match_push(sigs@, table, s, ("set_remove"@, seq![("set"@, Type::Any), ("val"@, Type::Any)], Some(Type::Unit)));
        table = table.push(("set_remove"@, seq![("set"@, Type::Any), ("val"@, Type::Any)], Some(Type::Unit)));
    }
    sigs.push(s);
    let s = sig("set_contains", vec![param("set", Type::Any), param("val", Type::Any)], Some(Type::Bool));
    proof {
        assert(param_views(s.params@) =~= ("set_contains"@, seq![("set"@, Type::Any), ("val"@, Type::Any)], Some(Type::Bool)).1);
        lemma_sigs_match_push(sigs@, table, s, ("set_contains"@, seq![("set"@, Type::Any), ("val"@, Type::Any)], Some(Type::Bool)));
        table = table.push(("set_contains"@, seq![("set"@, Type::Any), ("val"@, Type::Any)], Some(Type::Bool)));
    }
    sigs.push(s);
    let s = sig("set_len", vec![param("set", Type::Any)], Some(Type::I64));
    proof {
        assert(param_views(s.params@) =~= ("set_len"@, seq![("set"@, Type::Any)], Some(Type::I64)).1);
        lemma_sigs_match_push(sigs@, table, s, ("set_len"@, seq![("set"@, Type::Any)], Some(Type::I64)));
        table = table.push(("set_len"@, seq![("set"@, Type::Any)], Some(Type::I64)));
    }
    sigs.push(s);
    let s = sig("set_to_array", vec![param("set", Type::Any)], Some(Type::Array(Box::new(Type::Any))));
    proof {
        assert(param_views(s.params@) =~= ("set_to_array"@, seq![("set"@, Type::Any)], Some(Type::Array(Box::new(Type::Any)))).1);
        lemma_sigs_match_push(sigs@, table, s, ("set_to_array"@, seq![("set"@, Type::Any)], Some(Type::Array(Box::new(Type::Any)))));
        table = table.push(("set_to_array"@, seq![("set"@, Type::Any)], Some(Type::Array(Box::new(Type::Any)))));
    }
    sigs.push(s);
    let s = sig("set_from_array", vec![param("arr", Type::Any)], Some(Type::Any));
    proof {
        assert(param_views(s.params@) =~= ("set_from_array"@, seq![("arr"@, Type::Any)], Some(Type::Any)).1);
        lemma_sigs_match_push(sigs@, table, s, ("set_from_array"@, seq![("arr"@, Type::Any)], Some(Type::Any)));
        table = table.push(("set_from_array"@, seq![("arr"@, Type::Any)], Some(Type::Any)));
    }
    sigs.push(s);
    assert(table =~= signature_table());
    sigs
}

} // verus!
