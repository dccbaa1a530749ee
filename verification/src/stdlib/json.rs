//! JSON serialisation of values.
use vstd::prelude::*;
use crate::ast::Type;
use crate::symbol::{FnSignature, SigSpec, sigs_match, sig_is, param_views, lemma_sigs_match_push, param, sig};

verus! {

/// The declared signatures of the JSON functions, in order.
pub open spec fn signature_table() -> Seq<SigSpec> {
    seq![
        ("to_json"@, seq![("val"@, Type::Any)], Some(Type::Str)),
        ("from_json"@, seq![("json"@, Type::Str)], Some(Type::Any)),
    ]
}

/// The signatures of the JSON functions, for name resolution and typing.
pub fn signatures() -> (sigs: Vec<FnSignature>)
    ensures
        sigs_match(sigs@, signature_table()),
{
    let mut sigs: Vec<FnSignature> = Vec::new();
    let ghost mut table: Seq<SigSpec> = Seq::empty();
    let s = sig("to_json", vec![param("val", Type::Any)], Some(Type::Str));
    proof {
        assert(param_views(s.params@) =~= ("to_json"@, seq![("val"@, Type::Any)], Some(Type::Str)).1);
        lemma_sigs_match_push(sigs@, table, s, ("to_json"@, seq![("val"@, Type::Any)], Some(Type::Str)));
        table = table.push(("to_json"@, seq![("val"@, Type::Any)], Some(Type::Str)));
    }
    sigs.push(s);
    let s = sig("from_json", vec![param("json", Type::Str)], Some(Type::Any));
    proof {
        assert(param_views(s.params@) =~= ("from_json"@, seq![("json"@, Type::Str)], Some(Type::Any)).1);
        lemma_sigs_match_push(sigs@, table, s, ("from_json"@, seq![("json"@, Type::Str)], Some(Type::Any)));
        table = table.push(("from_json"@, seq![("json"@, Type::Str)], Some(Type::Any)));
    }
    sigs.push(s);
    assert(table =~= signature_table());
    sigs
}

} // verus!
