//! Maps kept in key order.
use vstd::prelude::*;
use crate::ast::Type;
use crate::symbol::{FnSignature, SigSpec, sigs_match, sig_is, param_views, lemma_sigs_match_push, param, sig};

verus! {

/// The declared signatures of the sorted map functions, in order.
pub open spec fn signature_table() -> Seq<SigSpec> {
    seq![
        ("sorted_map_new"@, Seq::empty(), Some(Type::Any)),
        ("sorted_map_insert"@, seq![("sm"@, Type::Any), ("key"@, Type::Any), ("val"@, Type::Any)], Some(Type::Unit)),
        ("sorted_map_get"@, seq![("sm"@, Type::Any), ("key"@, Type::Any)], Some(Type::Any)),
        ("sorted_map_remove"@, seq![("sm"@, Type::Any), ("key"@, Type::Any)], Some(Type::Any)),
        ("sorted_map_contains"@, seq![("sm"@, Type::Any), ("key"@, Type::Any)], Some(Type::Bool)),
        ("sorted_map_len"@, seq![("sm"@, Type::Any)], Some(Type::I64)),
        ("sorted_map_keys"@, seq![("sm"@, Type::Any)], Some(Type::Array(Box::new(Type::Any)))),
        ("sorted_map_values"@, seq![("sm"@, Type::Any)], Some(Type::Array(Box::new(Type::Any)))),
        ("sorted_map_entries"@, seq![("sm"@, Type::Any)], Some(Type::Array(Box::new(Type::Any)))),
        ("sorted_map_range"@, seq![("sm"@, Type::Any), ("lo"@, Type::Any), ("hi"@, Type::Any)], Some(Type::Array(Box::new(Type::Any)))),
    ]
}

/// The signatures of the sorted map functions, for name resolution and typing.
pub fn signatures() -> (sigs: Vec<FnSignature>)
    ensures
        sigs_match(sigs@, signature_table()),
{
    let mut sigs: Vec<FnSignature> = Vec::new();
    let ghost mut table: Seq<SigSpec> = Seq::empty();
    let s = sig("sorted_map_new", vec![], Some(Type::Any));
    proof {
        assert(param_views(s.params@) =~= ("sorted_map_new"@, Seq::empty(), Some(Type::Any)).1);
        lemma_sigs_match_push(sigs@, table, s, ("sorted_map_new"@, Seq::empty(), Some(Type::Any)));
        table = table.push(("sorted_map_new"@, Seq::empty(), Some(Type::Any)));
    }
    sigs.push(s);
    let s = sig("sorted_map_insert", vec![param("sm", Type::Any), param("key", Type::Any), param("val", Type::Any)], Some(Type::Unit));
    proof {
        assert(param_views(s.params@) =~= ("sorted_map_insert"@, seq![("sm"@, Type::Any), ("key"@, Type::Any), ("val"@, Type::Any)], Some(Type::Unit)).1);
        lemma_sigs_match_push(sigs@, table, s, ("sorted_map_insert"@, seq![("sm"@, Type::Any), ("key"@, Type::Any), ("val"@, Type::Any)], Some(Type::Unit)));
        table = table.push(("sorted_map_insert"@, seq![("sm"@, Type::Any), ("key"@, Type::Any), ("val"@, Type::Any)], Some(Type::Unit)));
    }
    sigs.push(s);
    let s = sig("sorted_map_get", vec![param("sm", Type::Any), param("key", Type::Any)], Some(Type::Any));
    proof {
        assert(param_views(s.params@) =~= ("sorted_map_get"@, seq![("sm"@, Type::Any), ("key"@, Type::Any)], Some(Type::Any)).1);
        lemma_sigs_match_push(sigs@, table, s, ("sorted_map_get"@, seq![("sm"@, Type::Any), ("key"@, Type::Any)], Some(Type::Any)));
        table = table.push(("sorted_map_get"@, seq![("sm"@, Type::Any), ("key"@, Type::Any)], Some(Type::Any)));
    }
    sigs.push(s);
    let s = sig("sorted_map_remove", vec![param("sm", Type::Any), param("key", Type::Any)], Some(Type::Any));
    proof {
        assert(param_views(s.params@) =~= ("sorted_map_remove"@, seq![("sm"@, Type::Any), ("key"@, Type::Any)], Some(Type::Any)).1);
        lemma_sigs_match_push(sigs@, table, s, ("sorted_map_remove"@, seq![("sm"@, Type::Any), ("key"@, Type::Any)], Some(Type::Any)));
        table = table.push(("sorted_map_remove"@, seq![("sm"@, Type::Any), ("key"@, Type::Any)], Some(Type::Any)));
    }
    sigs.push(s);
    let s = sig("sorted_map_contains", vec![param("sm", Type::Any), param("key", Type::Any)], Some(Type::Bool));
    proof {
        assert(param_views(s.params@) =~= ("sorted_map_contains"@, seq![("sm"@, Type::Any), ("key"@, Type::Any)], Some(Type::Bool)).1);
        lemma_sigs_match_push(sigs@, table, s, ("sorted_map_contains"@, seq![("sm"@, Type::Any), ("key"@, Type::Any)], Some(Type::Bool)));
        table = table.push(("sorted_map_contains"@, seq![("sm"@, Type::Any), ("key"@, Type::Any)], Some(Type::Bool)));
    }
    sigs.push(s);
    let s = sig("sorted_map_len", vec![param("sm", Type::Any)], Some(Type::I64));
    proof {
        assert(param_views(s.params@) =~= ("sorted_map_len"@, seq![("sm"@, Type::Any)], Some(Type::I64)).1);
        lemma_sigs_match_push(sigs@, table, s, ("sorted_map_len"@, seq![("sm"@, Type::Any)], Some(Type::I64)));
        table = table.push(("sorted_map_len"@, seq![("sm"@, Type::Any)], Some(Type::I64)));
    }
    sigs.push(s);
    let s = sig("sorted_map_keys", vec![param("sm", Type::Any)], Some(Type::Array(Box::new(Type::Any))));
    proof {
        assert(param_views(s.params@) =~= ("sorted_map_keys"@, seq![("sm"@, Type::Any)], Some(Type::Array(Box::new(Type::Any)))).1);
        lemma_sigs_match_push(sigs@, table, s, ("sorted_map_keys"@, seq![("sm"@, Type::Any)], Some(Type::Array(Box::new(Type::Any)))));
        table = table.push(("sorted_map_keys"@, seq![("sm"@, Type::Any)], Some(Type::Array(Box::new(Type::Any)))));
    }
    sigs.push(s);
    let s = sig("sorted_map_values", vec![param("sm", Type::Any)], Some(Type::Array(Box::new(Type::Any))));
    proof {
        assert(param_views(s.params@) =~= ("sorted_map_values"@, seq![("sm"@, Type::Any)], Some(Type::Array(Box::new(Type::Any)))).1);
        lemma_sigs_match_push(sigs@, table, s, ("sorted_map_values"@, seq![("sm"@, Type::Any)], Some(Type::Array(Box::new(Type::Any)))));
        table = table.push(("sorted_map_values"@, seq![("sm"@, Type::Any)], Some(Type::Array(Box::new(Type::Any)))));
    }
    sigs.push(s);
    let s = sig("sorted_map_entries", vec![param("sm", Type::Any)], Some(Type::Array(Box::new(Type::Any))));
    proof {
        assert(param_views(s.params@) =~= ("sorted_map_entries"@, seq![("sm"@, Type::Any)], Some(Type::Array(Box::new(Type::Any)))).1);
        lemma_sigs_match_push(sigs@, table, s, ("sorted_map_entries"@, seq![("sm"@, Type::Any)], Some(Type::Array(Box::new(Type::Any)))));
        table = table.push(("sorted_map_entries"@, seq![("sm"@, Type::Any)], Some(Type::Array(Box::new(Type::Any)))));
    }
    sigs.push(s);
    let s = sig("sorted_map_range", vec![param("sm", Type::Any), param("lo", Type::Any), param("hi", Type::Any)], Some(Type::Array(Box::new(Type::Any))));
    proof {
        assert(param_views(s.params@) =~= ("sorted_map_range"@, seq![("sm"@, Type::Any), ("lo"@, Type::Any), ("hi"@, Type::Any)], Some(Type::Array(Box::new(Type::Any)))).1);
        lemma_sigs_match_push(sigs@, table, s, ("sorted_map_range"@, seq![("sm"@, Type::Any), ("lo"@, Type::Any), ("hi"@, Type::Any)], Some(Type::Array(Box::new(Type::Any)))));
        table = table.push(("sorted_map_range"@, seq![("sm"@, Type::Any), ("lo"@, Type::Any), ("hi"@, Type::Any)], Some(Type::Array(Box::new(Type::Any)))));
    }
    sigs.push(s);
    assert(table =~= signature_table());
    sigs
}

} // verus!
