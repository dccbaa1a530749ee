//! Key-value maps.
use vstd::prelude::*;
use crate::ast::Type;
use crate::symbol::{FnSignature, SigSpec, sigs_match, sig_is, param_views, lemma_sigs_match_push, param, sig};

verus! {

/// The declared signatures of the map functions, in order.
pub open spec fn signature_table() -> Seq<SigSpec> {
    seq![
        ("map_new"@, Seq::empty(), Some(Type::Unit)),
        ("map_set"@, seq![("m"@, Type::Unit), ("key"@, Type::Unit), ("val"@, Type::Unit)], Some(Type::Unit)),
        ("map_get"@, seq![("m"@, Type::Unit), ("key"@, Type::Unit)], Some(Type::Unit)),
        ("map_has"@, seq![("m"@, Type::Unit), ("key"@, Type::Unit)], Some(Type::Bool)),
        ("map_remove"@, seq![("m"@, Type::Unit), ("key"@, Type::Unit)], Some(Type::Unit)),
        ("map_keys"@, seq![("m"@, Type::Unit)], Some(Type::Unit)),
        ("map_values"@, seq![("m"@, Type::Unit)], Some(Type::Unit)),
        ("map_len"@, seq![("m"@, Type::Unit)], Some(Type::I64)),
        ("map_clear"@, seq![("m"@, Type::Unit)], Some(Type::Unit)),
    ]
}

/// The signatures of the map functions, for name resolution and typing.
pub fn signatures() -> (sigs: Vec<FnSignature>)
    ensures
        sigs_match(sigs@, signature_table()),
{
    let mut sigs: Vec<FnSignature> = Vec::new();
    let ghost mut table: Seq<SigSpec> = Seq::empty();
    let s = sig("map_new", vec![], Some(Type::Unit));
    proof {
        assert(param_views(s.params@) =~= ("map_new"@, Seq::empty(), Some(Type::Unit)).1);
        lemma_sigs_match_push(sigs@, table, s, ("map_new"@, Seq::empty(), Some(Type::Unit)));
        table = table.push(("map_new"@, Seq::empty(), Some(Type::Unit)));
    }
    sigs.push(s);
    let s = sig("map_set", vec![param("m", Type::Unit), param("key", Type::Unit), param("val", Type::Unit)], Some(Type::Unit));
    proof {
        assert(param_views(s.params@) =~= ("map_set"@, seq![("m"@, Type::Unit), ("key"@, Type::Unit), ("val"@, Type::Unit)], Some(Type::Unit)).1);
        lemma_sigs_match_push(sigs@, table, s, ("map_set"@, seq![("m"@, Type::Unit), ("key"@, Type::Unit), ("val"@, Type::Unit)], Some(Type::Unit)));
        table = table.push(("map_set"@, seq![("m"@, Type::Unit), ("key"@, Type::Unit), ("val"@, Type::Unit)], Some(Type::Unit)));
    }
    sigs.push(s);
    let s = sig("map_get", vec![param("m", Type::Unit), param("key", Type::Unit)], Some(Type::Unit));
    proof {
        assert(param_views(s.params@) =~= ("map_get"@, seq![("m"@, Type::Unit), ("key"@, Type::Unit)], Some(Type::Unit)).1);
        lemma_sigs_match_push(sigs@, table, s, ("map_get"@, seq![("m"@, Type::Unit), ("key"@, Type::Unit)], Some(Type::Unit)));
        table = table.push(("map_get"@, seq![("m"@, Type::Unit), ("key"@, Type::Unit)], Some(Type::Unit)));
    }
    sigs.push(s);
    let s = sig("map_has", vec![param("m", Type::Unit), param("key", Type::Unit)], Some(Type::Bool));
    proof {
        assert(param_views(s.params@) =~= ("map_has"@, seq![("m"@, Type::Unit), ("key"@, Type::Unit)], Some(Type::Bool)).1);
        lemma_sigs_match_push(sigs@, table, s, ("map_has"@, seq![("m"@, Type::Unit), ("key"@, Type::Unit)], Some(Type::Bool)));
        table = table.push(("map_has"@, seq![("m"@, Type::Unit), ("key"@, Type::Unit)], Some(Type::Bool)));
    }
    sigs.push(s);
    let s = sig("map_remove", vec![param("m", Type::Unit), param("key", Type::Unit)], Some(Type::Unit));
    proof {
        assert(param_views(s.params@) =~= ("map_remove"@, seq![("m"@, Type::Unit), ("key"@, Type::Unit)], Some(Type::Unit)).1);
        lemma_sigs_match_push(sigs@, table, s, ("map_remove"@, seq![("m"@, Type::Unit), ("key"@, Type::Unit)], Some(Type::Unit)));
        table = table.push(("map_remove"@, seq![("m"@, Type::Unit), ("key"@, Type::Unit)], Some(Type::Unit)));
    }
    sigs.push(s);
    let s = sig("map_keys", vec![param("m", Type::Unit)], Some(Type::Unit));
    proof {
        assert(param_views(s.params@) =~= ("map_keys"@, seq![("m"@, Type::Unit)], Some(Type::Unit)).1);
        lemma_sigs_match_push(sigs@, table, s, ("map_keys"@, seq![("m"@, Type::Unit)], Some(Type::Unit)));
        table = table.push(("map_keys"@, seq![("m"@, Type::Unit)], Some(Type::Unit)));
    }
    sigs.push(s);
    let s = sig("map_values", vec![param("m", Type::Unit)], Some(Type::Unit));
    proof {
        assert(param_views(s.params@) =~= ("map_values"@, seq![("m"@, Type::Unit)], Some(Type::Unit)).1);
        lemma_sigs_match_push(sigs@, table, s, ("map_values"@, seq![("m"@, Type::Unit)], Some(Type::Unit)));
        table = table.push(("map_values"@, seq![("m"@, Type::Unit)], Some(Type::Unit)));
    }
    sigs.push(s);
    let s = sig("map_len", vec![param("m", Type::Unit)], Some(Type::I64));
    proof {
        assert(param_views(s.params@) =~= ("map_len"@, seq![("m"@, Type::Unit)], Some(Type::I64)).1);
        lemma_sigs_match_push(sigs@, table, s, ("map_len"@, seq![("m"@, Type::Unit)], Some(Type::I64)));
        table = table.push(("map_len"@, seq![("m"@, Type::Unit)], Some(Type::I64)));
    }
    sigs.push(s);
    let s = sig("map_clear", vec![param("m", Type::Unit)], Some(Type::Unit));
    proof {
        assert(param_views(s.params@) =~= ("map_clear"@, seq![("m"@, Type::Unit)], Some(Type::Unit)).1);
        lemma_sigs_match_push(sigs@, table, s, ("map_clear"@, seq![("m"@, Type::Unit)], Some(Type::Unit)));
        table = table.push(("map_clear"@, seq![("m"@, Type::Unit)], Some(Type::Unit)));
    }
    sigs.push(s);
    assert(table =~= signature_table());
    sigs
}

} // verus!
