//! Double-ended queues.
use vstd::prelude::*;
use crate::ast::Type;
use crate::symbol::{FnSignature, SigSpec, sigs_match, sig_is, param_views, lemma_sigs_match_push, param, sig};

verus! {

/// The declared signatures of the double-ended queue functions, in order.
pub open spec fn signature_table() -> Seq<SigSpec> {
    seq![
        ("deque_new"@, Seq::empty(), Some(Type::Any)),
        ("deque_push_front"@, seq![("deque"@, Type::Any), ("val"@, Type::Any)], Some(Type::Unit)),
        ("deque_push_back"@, seq![("deque"@, Type::Any), ("val"@, Type::Any)], Some(Type::Unit)),
        ("deque_pop_front"@, seq![("deque"@, Type::Any)], Some(Type::Any)),
        ("deque_pop_back"@, seq![("deque"@, Type::Any)], Some(Type::Any)),
        ("deque_peek_front"@, seq![("deque"@, Type::Any)], Some(Type::Any)),
        ("deque_peek_back"@, seq![("deque"@, Type::Any)], Some(Type::Any)),
        ("deque_len"@, seq![("deque"@, Type::Any)], Some(Type::I64)),
        ("deque_is_empty"@, seq![("deque"@, Type::Any)], Some(Type::Bool)),
        ("deque_to_array"@, seq![("deque"@, Type::Any)], Some(Type::Array(Box::new(Type::Any)))),
    ]
}

/// The signatures of the double-ended queue functions, for name resolution and typing.
pub fn signatures() -> (sigs: Vec<FnSignature>)
    ensures
        sigs_match(sigs@, signature_table()),
{
    let mut sigs: Vec<FnSignature> = Vec::new();
    let ghost mut table: Seq<SigSpec> = Seq::empty();
    let s = sig("deque_new", vec![], Some(Type::Any));
    proof {
        assert(param_views(s.params@) =~= ("deque_new"@, Seq::empty(), Some(Type::Any)).1);
        lemma_sigs_match_push(sigs@, table, s, ("deque_new"@, Seq::empty(), Some(Type::Any)));
        table = table.push(("deque_new"@, Seq::empty(), Some(Type::Any)));
    }
    sigs.push(s);
    let s = sig("deque_push_front", vec![param("deque", Type::Any), param("val", Type::Any)], Some(Type::Unit));
    proof {
        assert(param_views(s.params@) =~= ("deque_push_front"@, seq![("deque"@, Type::Any), ("val"@, Type::Any)], Some(Type::Unit)).1);
        lemma_sigs_match_push(sigs@, table, s, ("deque_push_front"@, seq![("deque"@, Type::Any), ("val"@, Type::Any)], Some(Type::Unit)));
        table = table.push(("deque_push_front"@, seq![("deque"@, Type::Any), ("val"@, Type::Any)], Some(Type::Unit)));
    }
    sigs.push(s);
    let s = sig("deque_push_back", vec![param("deque", Type::Any), param("val", Type::Any)], Some(Type::Unit));
    proof {
        assert(param_views(s.params@) =~= ("deque_push_back"@, seq![("deque"@, Type::Any), ("val"@, Type::Any)], Some(Type::Unit)).1);
        lemma_sigs_match_push(sigs@, table, s, ("deque_push_back"@, seq![("deque"@, Type::Any), ("val"@, Type::Any)], Some(Type::Unit)));
        table = table.push(("deque_push_back"@, seq![("deque"@, Type::Any), ("val"@, Type::Any)], Some(Type::Unit)));
    }
    sigs.push(s);
    let s = sig("deque_pop_front", vec![param("deque", Type::Any)], Some(Type::Any));
    proof {
        assert(param_views(s.params@) =~= ("deque_pop_front"@, seq![("deque"@, Type::Any)], Some(Type::Any)).1);
        lemma_sigs_match_push(sigs@, table, s, ("deque_pop_front"@, seq![("deque"@, Type::Any)], Some(Type::Any)));
        table = table.push(("deque_pop_front"@, seq![("deque"@, Type::Any)], Some(Type::Any)));
    }
    sigs.push(s);
    let s = sig("deque_pop_back", vec![param("deque", Type::Any)], Some(Type::Any));
    proof {
        assert(param_views(s.params@) =~= ("deque_pop_back"@, seq![("deque"@, Type::Any)], Some(Type::Any)).1);
        lemma_sigs_match_push(sigs@, table, s, ("deque_pop_back"@, seq![("deque"@, Type::Any)], Some(Type::Any)));
        table = table.push(("deque_pop_back"@, seq![("deque"@, Type::Any)], Some(Type::Any)));
    }
    sigs.push(s);
    let s = sig("deque_peek_front", vec![param("deque", Type::Any)], Some(Type::Any));
    proof {
        assert(param_views(s.params@) =~= ("deque_peek_front"@, seq![("deque"@, Type::Any)], Some(Type::Any)).1);
        lemma_sigs_match_push(sigs@, table, s, ("deque_peek_front"@, seq![("deque"@, Type::Any)], Some(Type::Any)));
        table = table.push(("deque_peek_front"@, seq![("deque"@, Type::Any)], Some(Type::Any)));
    }
    sigs.push(s);
    let s = sig("deque_peek_back", vec![param("deque", Type::Any)], Some(Type::Any));
    proof {
        assert(param_views(s.params@) =~= ("deque_peek_back"@, seq![("deque"@, Type::Any)], Some(Type::Any)).1);
        lemma_sigs_match_push(sigs@, table, s, ("deque_peek_back"@, seq![("deque"@, Type::Any)], Some(Type::Any)));
        table = table.push(("deque_peek_back"@, seq![("deque"@, Type::Any)], Some(Type::Any)));
    }
    sigs.push(s);
    let s = sig("deque_len", vec![param("deque", Type::Any)], Some(Type::I64));
    proof {
        assert(param_views(s.params@) =~= ("deque_len"@, seq![("deque"@, Type::Any)], Some(Type::I64)).1);
        lemma_sigs_match_push(sigs@, table, s, ("deque_len"@, seq![("deque"@, Type::Any)], Some(Type::I64)));
        table = table.push(("deque_len"@, seq![("deque"@, Type::Any)], Some(Type::I64)));
    }
    sigs.push(s);
    let s = sig("deque_is_empty", vec![param("deque", Type::Any)], Some(Type::Bool));
    proof {
        assert(param_views(s.params@) =~= ("deque_is_empty"@, seq![("deque"@, Type::Any)], Some(Type::Bool)).1);
        lemma_sigs_match_push(sigs@, table, s, ("deque_is_empty"@, seq![("deque"@, Type::Any)], Some(Type::Bool)));
        table = table.push(("deque_is_empty"@, seq![("deque"@, Type::Any)], Some(Type::Bool)));
    }
    sigs.push(s);
    let s = sig("deque_to_array", vec![param("deque", Type::Any)], Some(Type::Array(Box::new(Type::Any))));
    proof {
        assert(param_views(s.params@) =~= ("deque_to_array"@, seq![("deque"@, Type::Any)], Some(Type::Array(Box::new(Type::Any)))).1);
        lemma_sigs_match_push(sigs@, table, s, ("deque_to_array"@, seq![("deque"@, Type::Any)], Some(Type::Array(Box::new(Type::Any)))));
        table = table.push(("deque_to_array"@, seq![("deque"@, Type::Any)], Some(Type::Array(Box::new(Type::Any)))));
    }
    sigs.push(s);
    assert(table =~= signature_table());
    sigs
}

} // verus!
