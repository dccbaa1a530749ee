//! The language's built-in functions: their signatures, and the computations
//! behind them that do not need a running virtual machine.
pub mod base64;
pub mod color;
pub mod datetime;
pub mod deque;
pub mod hash;
pub mod json;
pub mod log;
pub mod map;
pub mod math;
pub mod noise;
pub mod set;
pub mod sorted_map;
pub mod uuid;

use vstd::prelude::*;
use crate::ast::Type;
use crate::symbol::{FnSignature, SigSpec, sigs_match, sig_is, param_views, lemma_sigs_match_push,
    lemma_sigs_match_concat, param, sig};

verus! {

/// The declared signatures of the core built-in functions, in order.
pub open spec fn core_signature_table() -> Seq<SigSpec> {
    seq![
        ("print"@, Seq::empty(), Some(Type::Unit)),
        ("assert"@, seq![("cond"@, Type::Any)], Some(Type::Unit)),
        ("assert_eq"@, seq![("a"@, Type::Any), ("b"@, Type::Any)], Some(Type::Unit)),
        ("type_of"@, seq![("val"@, Type::Any)], Some(Type::Str)),
        ("len"@, seq![("val"@, Type::Any)], Some(Type::I64)),
        ("contains"@, seq![("s"@, Type::Str), ("sub"@, Type::Str)], Some(Type::Bool)),
        ("trim"@, seq![("s"@, Type::Str)], Some(Type::Str)),
        ("to_upper"@, seq![("s"@, Type::Str)], Some(Type::Str)),
        ("to_lower"@, seq![("s"@, Type::Str)], Some(Type::Str)),
        ("substring"@, seq![("s"@, Type::Str), ("start"@, Type::I64), ("end"@, Type::I64)], Some(Type::Str)),
        ("abs"@, seq![("n"@, Type::I64)], Some(Type::I64)),
        ("min"@, seq![("a"@, Type::I64), ("b"@, Type::I64)], Some(Type::I64)),
        ("max"@, seq![("a"@, Type::I64), ("b"@, Type::I64)], Some(Type::I64)),
        ("sqrt"@, seq![("n"@, Type::F64)], Some(Type::F64)),
        ("push"@, seq![("arr"@, Type::Any), ("val"@, Type::Any)], Some(Type::Unit)),
        ("pop"@, seq![("arr"@, Type::Any)], Some(Type::Any)),
        ("insert"@, seq![("arr"@, Type::Any), ("idx"@, Type::I64), ("val"@, Type::Any)], Some(Type::Unit)),
        ("remove"@, seq![("arr"@, Type::Any), ("idx"@, Type::I64)], Some(Type::Any)),
        ("to_int"@, seq![("val"@, Type::Any)], Some(Type::I64)),
        ("to_float"@, seq![("val"@, Type::Any)], Some(Type::F64)),
        ("to_str"@, seq![("val"@, Type::Any)], Some(Type::Str)),
        ("is_some"@, seq![("val"@, Type::Any)], Some(Type::Bool)),
        ("is_none"@, seq![("val"@, Type::Any)], Some(Type::Bool)),
        ("is_ok"@, seq![("val"@, Type::Any)], Some(Type::Bool)),
        ("is_err"@, seq![("val"@, Type::Any)], Some(Type::Bool)),
        ("unwrap"@, seq![("val"@, Type::Any)], Some(Type::Any)),
        ("unwrap_or"@, seq![("val"@, Type::Any), ("default"@, Type::Any)], Some(Type::Any)),
        ("expect"@, seq![("val"@, Type::Any), ("msg"@, Type::Str)], Some(Type::Any)),
        ("make_weak"@, seq![("val"@, Type::Any)], Some(Type::Any)),
        ("upgrade"@, seq![("val"@, Type::Any)], Some(Type::Any)),
        ("iter"@, seq![("val"@, Type::Any)], Some(Type::Any)),
        ("next"@, seq![("gen"@, Type::Any)], Some(Type::Any)),
        ("set_timeout"@, seq![("callback"@, Type::Any), ("seconds"@, Type::F64)], Some(Type::I64)),
        ("set_interval"@, seq![("callback"@, Type::Any), ("seconds"@, Type::F64)], Some(Type::I64)),
        ("clear_timer"@, seq![("id"@, Type::I64)], Some(Type::Unit)),
        ("after"@, seq![("seconds"@, Type::Any), ("callback"@, Type::Any)], Some(Type::I64)),
        ("every_frame"@, seq![("callback"@, Type::Any)], Some(Type::Unit)),
    ]
}

/// The signatures of the core built-in functions, for name resolution and typing.
fn core_signatures() -> (sigs: Vec<FnSignature>)
    ensures
        sigs_match(sigs@, core_signature_table()),
{
    let mut sigs: Vec<FnSignature> = Vec::new();
    let ghost mut table: Seq<SigSpec> = Seq::empty();
    let s = sig("print", vec![], Some(Type::Unit));
    proof {
        assert(param_views(s.params@) =~= ("print"@, Seq::empty(), Some(Type::Unit)).1);
        lemma_sigs_match_push(sigs@, table, s, ("print"@, Seq::empty(), Some(Type::Unit)));
        table = table.push(("print"@, Seq::empty(), Some(Type::Unit)));
    }
    sigs.push(s);
    let s = sig("assert", vec![param("cond", Type::Any)], Some(Type::Unit));
    proof {
        assert(param_views(s.params@) =~= ("assert"@, seq![("cond"@, Type::Any)], Some(Type::Unit)).1);
        lemma_sigs_match_push(sigs@, table, s, ("assert"@, seq![("cond"@, Type::Any)], Some(Type::Unit)));
        table = table.push(("assert"@, seq![("cond"@, Type::Any)], Some(Type::Unit)));
    }
    sigs.push(s);
    let s = sig("assert_eq", vec![param("a", Type::Any), param("b", Type::Any)], Some(Type::Unit));
    proof {
        assert(param_views(s.params@) =~= ("assert_eq"@, seq![("a"@, Type::Any), ("b"@, Type::Any)], Some(Type::Unit)).1);
        lemma_sigs_match_push(sigs@, table, s, ("assert_eq"@, seq![("a"@, Type::Any), ("b"@, Type::Any)], Some(Type::Unit)));
        table = table.push(("assert_eq"@, seq![("a"@, Type::Any), ("b"@, Type::Any)], Some(Type::Unit)));
    }
    sigs.push(s);
    let s = sig("type_of", vec![param("val", Type::Any)], Some(Type::Str));
    proof {
        assert(param_views(s.params@) =~= ("type_of"@, seq![("val"@, Type::Any)], Some(Type::Str)).1);
        lemma_sigs_match_push(sigs@, table, s, ("type_of"@, seq![("val"@, Type::Any)], Some(Type::Str)));
        table = table.push(("type_of"@, seq![("val"@, Type::Any)], Some(Type::Str)));
    }
    sigs.push(s);
    let s = sig("len", vec![param("val", Type::Any)], Some(Type::I64));
    proof {
        assert(param_views(s.params@) =~= ("len"@, seq![("val"@, Type::Any)], Some(Type::I64)).1);
        lemma_sigs_match_push(sigs@, table, s, ("len"@, seq![("val"@, Type::Any)], Some(Type::I64)));
        table = table.push(("len"@, seq![("val"@, Type::Any)], Some(Type::I64)));
    }
    sigs.push(s);
    let s = sig("contains", vec![param("s", Type::Str), param("sub", Type::Str)], Some(Type::Bool));
    proof {
        assert(param_views(s.params@) =~= ("contains"@, seq![("s"@, Type::Str), ("sub"@, Type::Str)], Some(Type::Bool)).1);
        lemma_sigs_match_push(sigs@, table, s, ("contains"@, seq![("s"@, Type::Str), ("sub"@, Type::Str)], Some(Type::Bool)));
        table = table.push(("contains"@, seq![("s"@, Type::Str), ("sub"@, Type::Str)], Some(Type::Bool)));
    }
    sigs.push(s);
    let s = sig("trim", vec![param("s", Type::Str)], Some(Type::Str));
    proof {
        assert(param_views(s.params@) =~= ("trim"@, seq![("s"@, Type::Str)], Some(Type::Str)).1);
        lemma_sigs_match_push(sigs@, table, s, ("trim"@, seq![("s"@, Type::Str)], Some(Type::Str)));
        table = table.push(("trim"@, seq![("s"@, Type::Str)], Some(Type::Str)));
    }
    sigs.push(s);
    let s = sig("to_upper", vec![param("s", Type::Str)], Some(Type::Str));
    proof {
        assert(param_views(s.params@) =~= ("to_upper"@, seq![("s"@, Type::Str)], Some(Type::Str)).1);
        lemma_sigs_match_push(sigs@, table, s, ("to_upper"@, seq![("s"@, Type::Str)], Some(Type::Str)));
        table = table.push(("to_upper"@, seq![("s"@, Type::Str)], Some(Type::Str)));
    }
    sigs.push(s);
    let s = sig("to_lower", vec![param("s", Type::Str)], Some(Type::Str));
    proof {
        assert(param_views(s.params@) =~= ("to_lower"@, seq![("s"@, Type::Str)], Some(Type::Str)).1);
        lemma_sigs_match_push(sigs@, table, s, ("to_lower"@, seq![("s"@, Type::Str)], Some(Type::Str)));
        table = table.push(("to_lower"@, seq![("s"@, Type::Str)], Some(Type::Str)));
    }
    sigs.push(s);
    let s = sig("substring", vec![param("s", Type::Str), param("start", Type::I64), param("end", Type::I64)], Some(Type::Str));
    proof {
        assert(param_views(s.params@) =~= ("substring"@, seq![("s"@, Type::Str), ("start"@, Type::I64), ("end"@, Type::I64)], Some(Type::Str)).1);
        lemma_sigs_match_push(sigs@, table, s, ("substring"@, seq![("s"@, Type::Str), ("start"@, Type::I64), ("end"@, Type::I64)], Some(Type::Str)));
        table = table.push(("substring"@, seq![("s"@, Type::Str), ("start"@, Type::I64), ("end"@, Type::I64)], Some(Type::Str)));
    }
    sigs.push(s);
    let s = sig("abs", vec![param("n", Type::I64)], Some(Type::I64));
    proof {
        assert(param_views(s.params@) =~= ("abs"@, seq![("n"@, Type::I64)], Some(Type::I64)).1);
        lemma_sigs_match_push(sigs@, table, s, ("abs"@, seq![("n"@, Type::I64)], Some(Type::I64)));
        table = table.push(("abs"@, seq![("n"@, Type::I64)], Some(Type::I64)));
    }
    sigs.push(s);
    let s = sig("min", vec![param("a", Type::I64), param("b", Type::I64)], Some(Type::I64));
    proof {
        assert(param_views(s.params@) =~= ("min"@, seq![("a"@, Type::I64), ("b"@, Type::I64)], Some(Type::I64)).1);
        lemma_sigs_match_push(sigs@, table, s, ("min"@, seq![("a"@, Type::I64), ("b"@, Type::I64)], Some(Type::I64)));
        table = table.push(("min"@, seq![("a"@, Type::I64), ("b"@, Type::I64)], Some(Type::I64)));
    }
    sigs.push(s);
    let s = sig("max", vec![param("a", Type::I64), param("b", Type::I64)], Some(Type::I64));
    proof {
        assert(param_views(s.params@) =~= ("max"@, seq![("a"@, Type::I64), ("b"@, Type::I64)], Some(Type::I64)).1);
        lemma_sigs_match_push(sigs@, table, s, ("max"@, seq![("a"@, Type::I64), ("b"@, Type::I64)], Some(Type::I64)));
        table = table.push(("max"@, seq![("a"@, Type::I64), ("b"@, Type::I64)], Some(Type::I64)));
    }
    sigs.push(s);
    let s = sig("sqrt", vec![param("n", Type::F64)], Some(Type::F64));
    proof {
        assert(param_views(s.params@) =~= ("sqrt"@, seq![("n"@, Type::F64)], Some(Type::F64)).1);
        lemma_sigs_match_push(sigs@, table, s, ("sqrt"@, seq![("n"@, Type::F64)], Some(Type::F64)));
        table = table.push(("sqrt"@, seq![("n"@, Type::F64)], Some(Type::F64)));
    }
    sigs.push(s);
    let s = sig("push", vec![param("arr", Type::Any), param("val", Type::Any)], Some(Type::Unit));
    proof {
        assert(param_views(s.params@) =~= ("push"@, seq![("arr"@, Type::Any), ("val"@, Type::Any)], Some(Type::Unit)).1);
        lemma_sigs_match_push(sigs@, table, s, ("push"@, seq![("arr"@, Type::Any), ("val"@, Type::Any)], Some(Type::Unit)));
        table = table.push(("push"@, seq![("arr"@, Type::Any), ("val"@, Type::Any)], Some(Type::Unit)));
    }
    sigs.push(s);
    let s = sig("pop", vec![param("arr", Type::Any)], Some(Type::Any));
    proof {
        assert(param_views(s.params@) =~= ("pop"@, seq![("arr"@, Type::Any)], Some(Type::Any)).1);
        lemma_sigs_match_push(sigs@, table, s, ("pop"@, seq![("arr"@, Type::Any)], Some(Type::Any)));
        table = table.push(("pop"@, seq![("arr"@, Type::Any)], Some(Type::Any)));
    }
    sigs.push(s);
    let s = sig("insert", vec![param("arr", Type::Any), param("idx", Type::I64), param("val", Type::Any)], Some(Type::Unit));
    proof {
        assert(param_views(s.params@) =~= ("insert"@, seq![("arr"@, Type::Any), ("idx"@, Type::I64), ("val"@, Type::Any)], Some(Type::Unit)).1);
        lemma_sigs_match_push(sigs@, table, s, ("insert"@, seq![("arr"@, Type::Any), ("idx"@, Type::I64), ("val"@, Type::Any)], Some(Type::Unit)));
        table = table.push(("insert"@, seq![("arr"@, Type::Any), ("idx"@, Type::I64), ("val"@, Type::Any)], Some(Type::Unit)));
    }
    sigs.push(s);
    let s = sig("remove", vec![param("arr", Type::Any), param("idx", Type::I64)], Some(Type::Any));
    proof {
        assert(param_views(s.params@) =~= ("remove"@, seq![("arr"@, Type::Any), ("idx"@, Type::I64)], Some(Type::Any)).1);
        lemma_sigs_match_push(sigs@, table, s, ("remove"@, seq![("arr"@, Type::Any), ("idx"@, Type::I64)], Some(Type::Any)));
        table = table.push(("remove"@, seq![("arr"@, Type::Any), ("idx"@, Type::I64)], Some(Type::Any)));
    }
    sigs.push(s);
    let s = sig("to_int", vec![param("val", Type::Any)], Some(Type::I64));
    proof {
        assert(param_views(s.params@) =~= ("to_int"@, seq![("val"@, Type::Any)], Some(Type::I64)).1);
        lemma_sigs_match_push(sigs@, table, s, ("to_int"@, seq![("val"@, Type::Any)], Some(Type::I64)));
        table = table.push(("to_int"@, seq![("val"@, Type::Any)], Some(Type::I64)));
    }
    sigs.push(s);
    let s = sig("to_float", vec![param("val", Type::Any)], Some(Type::F64));
    proof {
        assert(param_views(s.params@) =~= ("to_float"@, seq![("val"@, Type::Any)], Some(Type::F64)).1);
        lemma_sigs_match_push(sigs@, table, s, ("to_float"@, seq![("val"@, Type::Any)], Some(Type::F64)));
        table = table.push(("to_float"@, seq![("val"@, Type::Any)], Some(Type::F64)));
    }
    sigs.push(s);
    let s = sig("to_str", vec![param("val", Type::Any)], Some(Type::Str));
    proof {
        assert(param_views(s.params@) =~= ("to_str"@, seq![("val"@, Type::Any)], Some(Type::Str)).1);
        lemma_sigs_match_push(sigs@, table, s, ("to_str"@, seq![("val"@, Type::Any)], Some(Type::Str)));
        table = table.push(("to_str"@, seq![("val"@, Type::Any)], Some(Type::Str)));
    }
    sigs.push(s);
    let s = sig("is_some", vec![param("val", Type::Any)], Some(Type::Bool));
    proof {
        assert(param_views(s.params@) =~= ("is_some"@, seq![("val"@, Type::Any)], Some(Type::Bool)).1);
        lemma_sigs_match_push(sigs@, table, s, ("is_some"@, seq![("val"@, Type::Any)], Some(Type::Bool)));
        table = table.push(("is_some"@, seq![("val"@, Type::Any)], Some(Type::Bool)));
    }
    sigs.push(s);
    let s = sig("is_none", vec![param("val", Type::Any)], Some(Type::Bool));
    proof {
        assert(param_views(s.params@) =~= ("is_none"@, seq![("val"@, Type::Any)], Some(Type::Bool)).1);
        lemma_sigs_match_push(sigs@, table, s, ("is_none"@, seq![("val"@, Type::Any)], Some(Type::Bool)));
        table = table.push(("is_none"@, seq![("val"@, Type::Any)], Some(Type::Bool)));
    }
    sigs.push(s);
    let s = sig("is_ok", vec![param("val", Type::Any)], Some(Type::Bool));
    proof {
        assert(param_views(s.params@) =~= ("is_ok"@, seq![("val"@, Type::Any)], Some(Type::Bool)).1);
        lemma_sigs_match_push(sigs@, table, s, ("is_ok"@, seq![("val"@, Type::Any)], Some(Type::Bool)));
        table = table.push(("is_ok"@, seq![("val"@, Type::Any)], Some(Type::Bool)));
    }
    sigs.push(s);
    let s = sig("is_err", vec![param("val", Type::Any)], Some(Type::Bool));
    proof {
        assert(param_views(s.params@) =~= ("is_err"@, seq![("val"@, Type::Any)], Some(Type::Bool)).1);
        lemma_sigs_match_push(sigs@, table, s, ("is_err"@, seq![("val"@, Type::Any)], Some(Type::Bool)));
        table = table.push(("is_err"@, seq![("val"@, Type::Any)], Some(Type::Bool)));
    }
    sigs.push(s);
    let s = sig("unwrap", vec![param("val", Type::Any)], Some(Type::Any));
    proof {
        assert(param_views(s.params@) =~= ("unwrap"@, seq![("val"@, Type::Any)], Some(Type::Any)).1);
        lemma_sigs_match_push(sigs@, table, s, ("unwrap"@, seq![("val"@, Type::Any)], Some(Type::Any)));
        table = table.push(("unwrap"@, seq![("val"@, Type::Any)], Some(Type::Any)));
    }
    sigs.push(s);
    let s = sig("unwrap_or", vec![param("val", Type::Any), param("default", Type::Any)], Some(Type::Any));
    proof {
        assert(param_views(s.params@) =~= ("unwrap_or"@, seq![("val"@, Type::Any), ("default"@, Type::Any)], Some(Type::Any)).1);
        lemma_sigs_match_push(sigs@, table, s, ("unwrap_or"@, seq![("val"@, Type::Any), ("default"@, Type::Any)], Some(Type::Any)));
        table = table.push(("unwrap_or"@, seq![("val"@, Type::Any), ("default"@, Type::Any)], Some(Type::Any)));
    }
    sigs.push(s);
    let s = sig("expect", vec![param("val", Type::Any), param("msg", Type::Str)], Some(Type::Any));
    proof {
        assert(param_views(s.params@) =~= ("expect"@, seq![("val"@, Type::Any), ("msg"@, Type::Str)], Some(Type::Any)).1);
        lemma_sigs_match_push(sigs@, table, s, ("expect"@, seq![("val"@, Type::Any), ("msg"@, Type::Str)], Some(Type::Any)));
        table = table.push(("expect"@, seq![("val"@, Type::Any), ("msg"@, Type::Str)], Some(Type::Any)));
    }
    sigs.push(s);
    let s = sig("make_weak", vec![param("val", Type::Any)], Some(Type::Any));
    proof {
        assert(param_views(s.params@) =~= ("make_weak"@, seq![("val"@, Type::Any)], Some(Type::Any)).1);
        lemma_sigs_match_push(sigs@, table, s, ("make_weak"@, seq![("val"@, Type::Any)], Some(Type::Any)));
        table = table.push(("make_weak"@, seq![("val"@, Type::Any)], Some(Type::Any)));
    }
    sigs.push(s);
    let s = sig("upgrade", vec![param("val", Type::Any)], Some(Type::Any));
    proof {
        assert(param_views(s.params@) =~= ("upgrade"@, seq![("val"@, Type::Any)], Some(Type::Any)).1);
        lemma_sigs_match_push(sigs@, table, s, ("upgrade"@, seq![("val"@, Type::Any)], Some(Type::Any)));
        table = table.push(("upgrade"@, seq![("val"@, Type::Any)], Some(Type::Any)));
    }
    sigs.push(s);
    let s = sig("iter", vec![param("val", Type::Any)], Some(Type::Any));
    proof {
        assert(param_views(s.params@) =~= ("iter"@, seq![("val"@, Type::Any)], Some(Type::Any)).1);
        lemma_sigs_match_push(sigs@, table, s, ("iter"@, seq![("val"@, Type::Any)], Some(Type::Any)));
        table = table.push(("iter"@, seq![("val"@, Type::Any)], Some(Type::Any)));
    }
    sigs.push(s);
    let s = sig("next", vec![param("gen", Type::Any)], Some(Type::Any));
    proof {
        assert(param_views(s.params@) =~= ("next"@, seq![("gen"@, Type::Any)], Some(Type::Any)).1);
        lemma_sigs_match_push(sigs@, table, s, ("next"@, seq![("gen"@, Type::Any)], Some(Type::Any)));
        table = table.push(("next"@, seq![("gen"@, Type::Any)], Some(Type::Any)));
    }
    sigs.push(s);
    let s = sig("set_timeout", vec![param("callback", Type::Any), param("seconds", Type::F64)], Some(Type::I64));
    proof {
        assert(param_views(s.params@) =~= ("set_timeout"@, seq![("callback"@, Type::Any), ("seconds"@, Type::F64)], Some(Type::I64)).1);
        lemma_sigs_match_push(sigs@, table, s, ("set_timeout"@, seq![("callback"@, Type::Any), ("seconds"@, Type::F64)], Some(Type::I64)));
        table = table.push(("set_timeout"@, seq![("callback"@, Type::Any), ("seconds"@, Type::F64)], Some(Type::I64)));
    }
    sigs.push(s);
    let s = sig("set_interval", vec![param("callback", Type::Any), param("seconds", Type::F64)], Some(Type::I64));
    proof {
        assert(param_views(s.params@) =~= ("set_interval"@, seq![("callback"@, Type::Any), ("seconds"@, Type::F64)], Some(Type::I64)).1);
        lemma_sigs_match_push(sigs@, table, s, ("set_interval"@, seq![("callback"@, Type::Any), ("seconds"@, Type::F64)], Some(Type::I64)));
        table = table.push(("set_interval"@, seq![("callback"@, Type::Any), ("seconds"@, Type::F64)], Some(Type::I64)));
    }
    sigs.push(s);
    let s = sig("clear_timer", vec![param("id", Type::I64)], Some(Type::Unit));
    proof {
        assert(param_views(s.params@) =~= ("clear_timer"@, seq![("id"@, Type::I64)], Some(Type::Unit)).1);
        lemma_sigs_match_push(sigs@, table, s, ("clear_timer"@, seq![("id"@, Type::I64)], Some(Type::Unit)));
        table = table.push(("clear_timer"@, seq![("id"@, Type::I64)], Some(Type::Unit)));
    }
    sigs.push(s);
    let s = sig("after", vec![param("seconds", Type::Any), param("callback", Type::Any)], Some(Type::I64));
    proof {
        assert(param_views(s.params@) =~= ("after"@, seq![("seconds"@, Type::Any), ("callback"@, Type::Any)], Some(Type::I64)).1);
        lemma_sigs_match_push(sigs@, table, s, ("after"@, seq![("seconds"@, Type::Any), ("callback"@, Type::Any)], Some(Type::I64)));
        table = table.push(("after"@, seq![("seconds"@, Type::Any), ("callback"@, Type::Any)], Some(Type::I64)));
    }
    sigs.push(s);
    let s = sig("every_frame", vec![param("callback", Type::Any)], Some(Type::Unit));
    proof {
        assert(param_views(s.params@) =~= ("every_frame"@, seq![("callback"@, Type::Any)], Some(Type::Unit)).1);
        lemma_sigs_match_push(sigs@, table, s, ("every_frame"@, seq![("callback"@, Type::Any)], Some(Type::Unit)));
        table = table.push(("every_frame"@, seq![("callback"@, Type::Any)], Some(Type::Unit)));
    }
    sigs.push(s);
    assert(table =~= core_signature_table());
    sigs
}

/// The signatures of all native functions: the core built-ins, then the JSON,
/// map, logging and maths functions.
pub open spec fn native_signature_table() -> Seq<SigSpec> {
    core_signature_table() + json::signature_table() + map::signature_table() + log::signature_table()
        + math::signature_table()
}

/// The place of a native function's name in the signature table, found by
/// name; -1 for a name that is not there.
pub open spec fn native_index(n: Seq<char>) -> int {
    if n == "print"@ {
        0
    } else if n == "assert"@ {
        1
    } else if n == "assert_eq"@ {
        2
    } else if n == "type_of"@ {
        3
    } else if n == "len"@ {
        4
    } else if n == "contains"@ {
        5
    } else if n == "trim"@ {
        6
    } else if n == "to_upper"@ {
        7
    } else if n == "to_lower"@ {
        8
    } else if n == "substring"@ {
        9
    } else if n == "abs"@ {
        10
    } else if n == "min"@ {
        11
    } else if n == "max"@ {
        12
    } else if n == "sqrt"@ {
        13
    } else if n == "push"@ {
        14
    } else if n == "pop"@ {
        15
    } else if n == "insert"@ {
        16
    } else if n == "remove"@ {
        17
    } else if n == "to_int"@ {
        18
    } else if n == "to_float"@ {
        19
    } else if n == "to_str"@ {
        20
    } else if n == "is_some"@ {
        21
    } else if n == "is_none"@ {
        22
    } else if n == "is_ok"@ {
        23
    } else if n == "is_err"@ {
        24
    } else if n == "unwrap"@ {
        25
    } else if n == "unwrap_or"@ {
        26
    } else if n == "expect"@ {
        27
    } else if n == "make_weak"@ {
        28
    } else if n == "upgrade"@ {
        29
    } else if n == "iter"@ {
        30
    } else if n == "next"@ {
        31
    } else if n == "set_timeout"@ {
        32
    } else if n == "set_interval"@ {
        33
    } else if n == "clear_timer"@ {
        34
    } else if n == "after"@ {
        35
    } else if n == "every_frame"@ {
        36
    } else if n == "to_json"@ {
        37
    } else if n == "from_json"@ {
        38
    } else if n == "map_new"@ {
        39
    } else if n == "map_set"@ {
        40
    } else if n == "map_get"@ {
        41
    } else if n == "map_has"@ {
        42
    } else if n == "map_remove"@ {
        43
    } else if n == "map_keys"@ {
        44
    } else if n == "map_values"@ {
        45
    } else if n == "map_len"@ {
        46
    } else if n == "map_clear"@ {
        47
    } else if n == "log_set_level"@ {
        48
    } else if n == "log_trace"@ {
        49
    } else if n == "log_debug"@ {
        50
    } else if n == "log_info"@ {
        51
    } else if n == "log_warn"@ {
        52
    } else if n == "log_error"@ {
        53
    } else if n == "sin"@ {
        54
    } else if n == "cos"@ {
        55
    } else if n == "tan"@ {
        56
    } else if n == "atan2"@ {
        57
    } else if n == "lerp"@ {
        58
    } else if n == "clamp"@ {
        59
    } else if n == "rand"@ {
        60
    } else if n == "rand_range"@ {
        61
    } else if n == "rand_seed"@ {
        62
    } else if n == "vec2"@ {
        63
    } else if n == "vec3"@ {
        64
    } else if n == "vec_add"@ {
        65
    } else if n == "vec_sub"@ {
        66
    } else if n == "vec_scale"@ {
        67
    } else if n == "vec_dot"@ {
        68
    } else if n == "vec_len"@ {
        69
    } else if n == "vec_normalize"@ {
        70
    } else {
        -1
    }
}

/// No two native functions have the same name.
#[verifier::spinoff_prover]
#[verifier::rlimit(80)]
pub proof fn lemma_native_names_distinct()
    ensures
        forall|i: int, j: int|
            0 <= i < j < native_signature_table().len() ==> native_signature_table()[i].0
                != native_signature_table()[j].0,
{
    reveal_strlit("print");
    reveal_strlit("assert");
    reveal_strlit("assert_eq");
    reveal_strlit("type_of");
    reveal_strlit("len");
    reveal_strlit("contains");
    reveal_strlit("trim");
    reveal_strlit("to_upper");
    reveal_strlit("to_lower");
    reveal_strlit("substring");
    reveal_strlit("abs");
    reveal_strlit("min");
    reveal_strlit("max");
    reveal_strlit("sqrt");
    reveal_strlit("push");
    reveal_strlit("pop");
    reveal_strlit("insert");
    reveal_strlit("remove");
    reveal_strlit("to_int");
    reveal_strlit("to_float");
    reveal_strlit("to_str");
    reveal_strlit("is_some");
    reveal_strlit("is_none");
    reveal_strlit("is_ok");
    reveal_strlit("is_err");
    reveal_strlit("unwrap");
    reveal_strlit("unwrap_or");
    reveal_strlit("expect");
    reveal_strlit("make_weak");
    reveal_strlit("upgrade");
    reveal_strlit("iter");
    reveal_strlit("next");
    reveal_strlit("set_timeout");
    reveal_strlit("set_interval");
    reveal_strlit("clear_timer");
    reveal_strlit("after");
    reveal_strlit("every_frame");
    reveal_strlit("to_json");
    reveal_strlit("from_json");
    reveal_strlit("map_new");
    reveal_strlit("map_set");
    reveal_strlit("map_get");
    reveal_strlit("map_has");
    reveal_strlit("map_remove");
    reveal_strlit("map_keys");
    reveal_strlit("map_values");
    reveal_strlit("map_len");
    reveal_strlit("map_clear");
    reveal_strlit("log_set_level");
    reveal_strlit("log_trace");
    reveal_strlit("log_debug");
    reveal_strlit("log_info");
    reveal_strlit("log_warn");
    reveal_strlit("log_error");
    reveal_strlit("sin");
    reveal_strlit("cos");
    reveal_strlit("tan");
    reveal_strlit("atan2");
    reveal_strlit("lerp");
    reveal_strlit("clamp");
    reveal_strlit("rand");
    reveal_strlit("rand_range");
    reveal_strlit("rand_seed");
    reveal_strlit("vec2");
    reveal_strlit("vec3");
    reveal_strlit("vec_add");
    reveal_strlit("vec_sub");
    reveal_strlit("vec_scale");
    reveal_strlit("vec_dot");
    reveal_strlit("vec_len");
    reveal_strlit("vec_normalize");
    let t = native_signature_table();
    assert(t.len() == 71);
    assert forall|i: int| 0 <= i < 71 implies native_index(#[trigger] t[i].0) == i by {
        if i == 0 {
            assert(t[0].0 == "print"@);
            assert(native_index("print"@) == 0) by {
                reveal_strlit("print");
            }
        } else if i == 1 {
            assert(t[1].0 == "assert"@);
            assert(native_index("assert"@) == 1) by {
                reveal_strlit("assert");
            }
        } else if i == 2 {
            assert(t[2].0 == "assert_eq"@);
            assert(native_index("assert_eq"@) == 2) by {
                reveal_strlit("assert_eq");
            }
        } else if i == 3 {
            assert(t[3].0 == "type_of"@);
            assert(native_index("type_of"@) == 3) by {
                reveal_strlit("type_of");
            }
        } else if i == 4 {
            assert(t[4].0 == "len"@);
            assert(native_index("len"@) == 4) by {
                reveal_strlit("len");
            }
        } else if i == 5 {
            assert(t[5].0 == "contains"@);
            assert(native_index("contains"@) == 5) by {
                reveal_strlit("contains");
            }
        } else if i == 6 {
            assert(t[6].0 == "trim"@);
            assert(native_index("trim"@) == 6) by {
                reveal_strlit("trim");
            }
        } else if i == 7 {
            assert(t[7].0 == "to_upper"@);
            assert(native_index("to_upper"@) == 7) by {
                reveal_strlit("to_upper");
                reveal_strlit("contains");
                assert("to_upper"@[0] != "contains"@[0]);
            }
        } else if i == 8 {
            assert(t[8].0 == "to_lower"@);
            assert(native_index("to_lower"@) == 8) by {
                reveal_strlit("to_lower");
                reveal_strlit("contains");
                assert("to_lower"@[0] != "contains"@[0]);
                reveal_strlit("to_upper");
                assert("to_lower"@[3] != "to_upper"@[3]);
            }
        } else if i == 9 {
            assert(t[9].0 == "substring"@);
            assert(native_index("substring"@) == 9) by {
                reveal_strlit("substring");
                reveal_strlit("assert_eq");
                assert("substring"@[0] != "assert_eq"@[0]);
            }
        } else if i == 10 {
            assert(t[10].0 == "abs"@);
            assert(native_index("abs"@) == 10) by {
                reveal_strlit("abs");
                reveal_strlit("len");
                assert("abs"@[0] != "len"@[0]);
            }
        } else if i == 11 {
            assert(t[11].0 == "min"@);
            assert(native_index("min"@) == 11) by {
                reveal_strlit("min");
                reveal_strlit("len");
                assert("min"@[0] != "len"@[0]);
                reveal_strlit("abs");
                assert("min"@[0] != "abs"@[0]);
            }
        } else if i == 12 {
            assert(t[12].0 == "max"@);
            assert(native_index("max"@) == 12) by {
                reveal_strlit("max");
                reveal_strlit("len");
                assert("max"@[0] != "len"@[0]);
                reveal_strlit("abs");
                assert("max"@[0] != "abs"@[0]);
                reveal_strlit("min");
                assert("max"@[1] != "min"@[1]);
            }
        } else if i == 13 {
            assert(t[13].0 == "sqrt"@);
            assert(native_index("sqrt"@) == 13) by {
                reveal_strlit("sqrt");
                reveal_strlit("trim");
                assert("sqrt"@[0] != "trim"@[0]);
            }
        } else if i == 14 {
            assert(t[14].0 == "push"@);
            assert(native_index("push"@) == 14) by {
                reveal_strlit("push");
                reveal_strlit("trim");
                assert("push"@[0] != "trim"@[0]);
                reveal_strlit("sqrt");
                assert("push"@[0] != "sqrt"@[0]);
            }
        } else if i == 15 {
            assert(t[15].0 == "pop"@);
            assert(native_index("pop"@) == 15) by {
                reveal_strlit("pop");
                reveal_strlit("len");
                assert("pop"@[0] != "len"@[0]);
                reveal_strlit("abs");
                assert("pop"@[0] != "abs"@[0]);
                reveal_strlit("min");
                assert("pop"@[0] != "min"@[0]);
                reveal_strlit("max");
                assert("pop"@[0] != "max"@[0]);
            }
        } else if i == 16 {
            assert(t[16].0 == "insert"@);
            assert(native_index("insert"@) == 16) by {
                reveal_strlit("insert");
                reveal_strlit("assert");
                assert("insert"@[0] != "assert"@[0]);
            }
        } else if i == 17 {
            assert(t[17].0 == "remove"@);
            assert(native_index("remove"@) == 17) by {
                reveal_strlit("remove");
                reveal_strlit("assert");
                assert("remove"@[0] != "assert"@[0]);
                reveal_strlit("insert");
                assert("remove"@[0] != "insert"@[0]);
            }
        } else if i == 18 {
            assert(t[18].0 == "to_int"@);
            assert(native_index("to_int"@) == 18) by {
                reveal_strlit("to_int");
                reveal_strlit("assert");
                assert("to_int"@[0] != "assert"@[0]);
                reveal_strlit("insert");
                assert("to_int"@[0] != "insert"@[0]);
                reveal_strlit("remove");
                assert("to_int"@[0] != "remove"@[0]);
            }
        } else if i == 19 {
            assert(t[19].0 == "to_float"@);
            assert(native_index("to_float"@) == 19) by {
                reveal_strlit("to_float");
                reveal_strlit("contains");
                assert("to_float"@[0] != "contains"@[0]);
                reveal_strlit("to_upper");
                assert("to_float"@[3] != "to_upper"@[3]);
                reveal_strlit("to_lower");
                assert("to_float"@[3] != "to_lower"@[3]);
            }
        } else if i == 20 {
            assert(t[20].0 == "to_str"@);
            assert(native_index("to_str"@) == 20) by {
                reveal_strlit("to_str");
                reveal_strlit("assert");
                assert("to_str"@[0] != "assert"@[0]);
                reveal_strlit("insert");
                assert("to_str"@[0] != "insert"@[0]);
                reveal_strlit("remove");
                assert("to_str"@[0] != "remove"@[0]);
                reveal_strlit("to_int");
                assert("to_str"@[3] != "to_int"@[3]);
            }
        } else if i == 21 {
            assert(t[21].0 == "is_some"@);
            assert(native_index("is_some"@) == 21) by {
                reveal_strlit("is_some");
                reveal_strlit("type_of");
                assert("is_some"@[0] != "type_of"@[0]);
            }
        } else if i == 22 {
            assert(t[22].0 == "is_none"@);
            assert(native_index("is_none"@) == 22) by {
                reveal_strlit("is_none");
                reveal_strlit("type_of");
                assert("is_none"@[0] != "type_of"@[0]);
                reveal_strlit("is_some");
                assert("is_none"@[3] != "is_some"@[3]);
            }
        } else if i == 23 {
            assert(t[23].0 == "is_ok"@);
            assert(native_index("is_ok"@) == 23) by {
                reveal_strlit("is_ok");
                reveal_strlit("print");
                assert("is_ok"@[0] != "print"@[0]);
            }
        } else if i == 24 {
            assert(t[24].0 == "is_err"@);
            assert(native_index("is_err"@) == 24) by {
                reveal_strlit("is_err");
                reveal_strlit("assert");
                assert("is_err"@[0] != "assert"@[0]);
                reveal_strlit("insert");
                assert("is_err"@[1] != "insert"@[1]);
                reveal_strlit("remove");
                assert("is_err"@[0] != "remove"@[0]);
                reveal_strlit("to_int");
                assert("is_err"@[0] != "to_int"@[0]);
                reveal_strlit("to_str");
                assert("is_err"@[0] != "to_str"@[0]);
            }
        } else if i == 25 {
            assert(t[25].0 == "unwrap"@);
            assert(native_index("unwrap"@) == 25) by {
                reveal_strlit("unwrap");
                reveal_strlit("assert");
                assert("unwrap"@[0] != "assert"@[0]);
                reveal_strlit("insert");
                assert("unwrap"@[0] != "insert"@[0]);
                reveal_strlit("remove");
                assert("unwrap"@[0] != "remove"@[0]);
                reveal_strlit("to_int");
                assert("unwrap"@[0] != "to_int"@[0]);
                reveal_strlit("to_str");
                assert("unwrap"@[0] != "to_str"@[0]);
                reveal_strlit("is_err");
                assert("unwrap"@[0] != "is_err"@[0]);
            }
        } else if i == 26 {
            assert(t[26].0 == "unwrap_or"@);
            assert(native_index("unwrap_or"@) == 26) by {
                reveal_strlit("unwrap_or");
                reveal_strlit("assert_eq");
                assert("unwrap_or"@[0] != "assert_eq"@[0]);
                reveal_strlit("substring");
                assert("unwrap_or"@[0] != "substring"@[0]);
            }
        } else if i == 27 {
            assert(t[27].0 == "expect"@);
            assert(native_index("expect"@) == 27) by {
                reveal_strlit("expect");
                reveal_strlit("assert");
                assert("expect"@[0] != "assert"@[0]);
                reveal_strlit("insert");
                assert("expect"@[0] != "insert"@[0]);
                reveal_strlit("remove");
                assert("expect"@[0] != "remove"@[0]);
                reveal_strlit("to_int");
                assert("expect"@[0] != "to_int"@[0]);
                reveal_strlit("to_str");
                assert("expect"@[0] != "to_str"@[0]);
                reveal_strlit("is_err");
                assert("expect"@[0] != "is_err"@[0]);
                reveal_strlit("unwrap");
                assert("expect"@[0] != "unwrap"@[0]);
            }
        } else if i == 28 {
            assert(t[28].0 == "make_weak"@);
            assert(native_index("make_weak"@) == 28) by {
                reveal_strlit("make_weak");
                reveal_strlit("assert_eq");
                assert("make_weak"@[0] != "assert_eq"@[0]);
                reveal_strlit("substring");
                assert("make_weak"@[0] != "substring"@[0]);
                reveal_strlit("unwrap_or");
                assert("make_weak"@[0] != "unwrap_or"@[0]);
            }
        } else if i == 29 {
            assert(t[29].0 == "upgrade"@);
            assert(native_index("upgrade"@) == 29) by {
                reveal_strlit("upgrade");
                reveal_strlit("type_of");
                assert("upgrade"@[0] != "type_of"@[0]);
                reveal_strlit("is_some");
                assert("upgrade"@[0] != "is_some"@[0]);
                reveal_strlit("is_none");
                assert("upgrade"@[0] != "is_none"@[0]);
            }
        } else if i == 30 {
            assert(t[30].0 == "iter"@);
            assert(native_index("iter"@) == 30) by {
                reveal_strlit("iter");
                reveal_strlit("trim");
                assert("iter"@[0] != "trim"@[0]);
                reveal_strlit("sqrt");
                assert("iter"@[0] != "sqrt"@[0]);
                reveal_strlit("push");
                assert("iter"@[0] != "push"@[0]);
            }
        } else if i == 31 {
            assert(t[31].0 == "next"@);
            assert(native_index("next"@) == 31) by {
                reveal_strlit("next");
                reveal_strlit("trim");
                assert("next"@[0] != "trim"@[0]);
                reveal_strlit("sqrt");
                assert("next"@[0] != "sqrt"@[0]);
                reveal_strlit("push");
                assert("next"@[0] != "push"@[0]);
                reveal_strlit("iter");
                assert("next"@[0] != "iter"@[0]);
            }
        } else if i == 32 {
            assert(t[32].0 == "set_timeout"@);
            assert(native_index("set_timeout"@) == 32) by {
                reveal_strlit("set_timeout");
            }
        } else if i == 33 {
            assert(t[33].0 == "set_interval"@);
            assert(native_index("set_interval"@) == 33) by {
                reveal_strlit("set_interval");
            }
        } else if i == 34 {
            assert(t[34].0 == "clear_timer"@);
            assert(native_index("clear_timer"@) == 34) by {
                reveal_strlit("clear_timer");
                reveal_strlit("set_timeout");
                assert("clear_timer"@[0] != "set_timeout"@[0]);
            }
        } else if i == 35 {
            assert(t[35].0 == "after"@);
            assert(native_index("after"@) == 35) by {
                reveal_strlit("after");
                reveal_strlit("print");
                assert("after"@[0] != "print"@[0]);
                reveal_strlit("is_ok");
                assert("after"@[0] != "is_ok"@[0]);
            }
        } else if i == 36 {
            assert(t[36].0 == "every_frame"@);
            assert(native_index("every_frame"@) == 36) by {
                reveal_strlit("every_frame");
                reveal_strlit("set_timeout");
                assert("every_frame"@[0] != "set_timeout"@[0]);
                reveal_strlit("clear_timer");
                assert("every_frame"@[0] != "clear_timer"@[0]);
            }
        } else if i == 37 {
            assert(t[37].0 == "to_json"@);
            assert(native_index("to_json"@) == 37) by {
                reveal_strlit("to_json");
                reveal_strlit("type_of");
                assert("to_json"@[1] != "type_of"@[1]);
                reveal_strlit("is_some");
                assert("to_json"@[0] != "is_some"@[0]);
                reveal_strlit("is_none");
                assert("to_json"@[0] != "is_none"@[0]);
                reveal_strlit("upgrade");
                assert("to_json"@[0] != "upgrade"@[0]);
            }
        } else if i == 38 {
            assert(t[38].0 == "from_json"@);
            assert(native_index("from_json"@) == 38) by {
                reveal_strlit("from_json");
                reveal_strlit("assert_eq");
                assert("from_json"@[0] != "assert_eq"@[0]);
                reveal_strlit("substring");
                assert("from_json"@[0] != "substring"@[0]);
                reveal_strlit("unwrap_or");
                assert("from_json"@[0] != "unwrap_or"@[0]);
                reveal_strlit("make_weak");
                assert("from_json"@[0] != "make_weak"@[0]);
            }
        } else if i == 39 {
            assert(t[39].0 == "map_new"@);
            assert(native_index("map_new"@) == 39) by {
                reveal_strlit("map_new");
                reveal_strlit("type_of");
                assert("map_new"@[0] != "type_of"@[0]);
                reveal_strlit("is_some");
                assert("map_new"@[0] != "is_some"@[0]);
                reveal_strlit("is_none");
                assert("map_new"@[0] != "is_none"@[0]);
                reveal_strlit("upgrade");
                assert("map_new"@[0] != "upgrade"@[0]);
                reveal_strlit("to_json");
                assert("map_new"@[0] != "to_json"@[0]);
            }
        } else if i == 40 {
            assert(t[40].0 == "map_set"@);
            assert(native_index("map_set"@) == 40) by {
                reveal_strlit("map_set");
                reveal_strlit("type_of");
                assert("map_set"@[0] != "type_of"@[0]);
                reveal_strlit("is_some");
                assert("map_set"@[0] != "is_some"@[0]);
                reveal_strlit("is_none");
                assert("map_set"@[0] != "is_none"@[0]);
                reveal_strlit("upgrade");
                assert("map_set"@[0] != "upgrade"@[0]);
                reveal_strlit("to_json");
                assert("map_set"@[0] != "to_json"@[0]);
                reveal_strlit("map_new");
                assert("map_set"@[4] != "map_new"@[4]);
            }
        } else if i == 41 {
            assert(t[41].0 == "map_get"@);
            assert(native_index("map_get"@) == 41) by {
                reveal_strlit("map_get");
                reveal_strlit("type_of");
                assert("map_get"@[0] != "type_of"@[0]);
                reveal_strlit("is_some");
                assert("map_get"@[0] != "is_some"@[0]);
                reveal_strlit("is_none");
                assert("map_get"@[0] != "is_none"@[0]);
                reveal_strlit("upgrade");
                assert("map_get"@[0] != "upgrade"@[0]);
                reveal_strlit("to_json");
                assert("map_get"@[0] != "to_json"@[0]);
                reveal_strlit("map_new");
                assert("map_get"@[4] != "map_new"@[4]);
                reveal_strlit("map_set");
                assert("map_get"@[4] != "map_set"@[4]);
            }
        } else if i == 42 {
            assert(t[42].0 == "map_has"@);
            assert(native_index("map_has"@) == 42) by {
                reveal_strlit("map_has");
                reveal_strlit("type_of");
                assert("map_has"@[0] != "type_of"@[0]);
                reveal_strlit("is_some");
                assert("map_has"@[0] != "is_some"@[0]);
                reveal_strlit("is_none");
                assert("map_has"@[0] != "is_none"@[0]);
                reveal_strlit("upgrade");
                assert("map_has"@[0] != "upgrade"@[0]);
                reveal_strlit("to_json");
                assert("map_has"@[0] != "to_json"@[0]);
                reveal_strlit("map_new");
                assert("map_has"@[4] != "map_new"@[4]);
                reveal_strlit("map_set");
                assert("map_has"@[4] != "map_set"@[4]);
                reveal_strlit("map_get");
                assert("map_has"@[4] != "map_get"@[4]);
            }
        } else if i == 43 {
            assert(t[43].0 == "map_remove"@);
            assert(native_index("map_remove"@) == 43) by {
                reveal_strlit("map_remove");
            }
        } else if i == 44 {
            assert(t[44].0 == "map_keys"@);
            assert(native_index("map_keys"@) == 44) by {
                reveal_strlit("map_keys");
                reveal_strlit("contains");
                assert("map_keys"@[0] != "contains"@[0]);
                reveal_strlit("to_upper");
                assert("map_keys"@[0] != "to_upper"@[0]);
                reveal_strlit("to_lower");
                assert("map_keys"@[0] != "to_lower"@[0]);
                reveal_strlit("to_float");
                assert("map_keys"@[0] != "to_float"@[0]);
            }
        } else if i == 45 {
            assert(t[45].0 == "map_values"@);
            assert(native_index("map_values"@) == 45) by {
                reveal_strlit("map_values");
                reveal_strlit("map_remove");
                assert("map_values"@[4] != "map_remove"@[4]);
            }
        } else if i == 46 {
            assert(t[46].0 == "map_len"@);
            assert(native_index("map_len"@) == 46) by {
                reveal_strlit("map_len");
                reveal_strlit("type_of");
                assert("map_len"@[0] != "type_of"@[0]);
                reveal_strlit("is_some");
                assert("map_len"@[0] != "is_some"@[0]);
                reveal_strlit("is_none");
                assert("map_len"@[0] != "is_none"@[0]);
                reveal_strlit("upgrade");
                assert("map_len"@[0] != "upgrade"@[0]);
                reveal_strlit("to_json");
                assert("map_len"@[0] != "to_json"@[0]);
                reveal_strlit("map_new");
                assert("map_len"@[4] != "map_new"@[4]);
                reveal_strlit("map_set");
                assert("map_len"@[4] != "map_set"@[4]);
                reveal_strlit("map_get");
                assert("map_len"@[4] != "map_get"@[4]);
                reveal_strlit("map_has");
                assert("map_len"@[4] != "map_has"@[4]);
            }
        } else if i == 47 {
            assert(t[47].0 == "map_clear"@);
            assert(native_index("map_clear"@) == 47) by {
                reveal_strlit("map_clear");
                reveal_strlit("assert_eq");
                assert("map_clear"@[0] != "assert_eq"@[0]);
                reveal_strlit("substring");
                assert("map_clear"@[0] != "substring"@[0]);
                reveal_strlit("unwrap_or");
                assert("map_clear"@[0] != "unwrap_or"@[0]);
                reveal_strlit("make_weak");
                assert("map_clear"@[2] != "make_weak"@[2]);
                reveal_strlit("from_json");
                assert("map_clear"@[0] != "from_json"@[0]);
            }
        } else if i == 48 {
            assert(t[48].0 == "log_set_level"@);
            assert(native_index("log_set_level"@) == 48) by {
                reveal_strlit("log_set_level");
            }
        } else if i == 49 {
            assert(t[49].0 == "log_trace"@);
            assert(native_index("log_trace"@) == 49) by {
                reveal_strlit("log_trace");
                reveal_strlit("assert_eq");
                assert("log_trace"@[0] != "assert_eq"@[0]);
                reveal_strlit("substring");
                assert("log_trace"@[0] != "substring"@[0]);
                reveal_strlit("unwrap_or");
                assert("log_trace"@[0] != "unwrap_or"@[0]);
                reveal_strlit("make_weak");
                assert("log_trace"@[0] != "make_weak"@[0]);
                reveal_strlit("from_json");
                assert("log_trace"@[0] != "from_json"@[0]);
                reveal_strlit("map_clear");
                assert("log_trace"@[0] != "map_clear"@[0]);
            }
        } else if i == 50 {
            assert(t[50].0 == "log_debug"@);
            assert(native_index("log_debug"@) == 50) by {
                reveal_strlit("log_debug");
                reveal_strlit("assert_eq");
                assert("log_debug"@[0] != "assert_eq"@[0]);
                reveal_strlit("substring");
                assert("log_debug"@[0] != "substring"@[0]);
                reveal_strlit("unwrap_or");
                assert("log_debug"@[0] != "unwrap_or"@[0]);
                reveal_strlit("make_weak");
                assert("log_debug"@[0] != "make_weak"@[0]);
                reveal_strlit("from_json");
                assert("log_debug"@[0] != "from_json"@[0]);
                reveal_strlit("map_clear");
                assert("log_debug"@[0] != "map_clear"@[0]);
                reveal_strlit("log_trace");
                assert("log_debug"@[4] != "log_trace"@[4]);
            }
        } else if i == 51 {
            assert(t[51].0 == "log_info"@);
            assert(native_index("log_info"@) == 51) by {
                reveal_strlit("log_info");
                reveal_strlit("contains");
                assert("log_info"@[0] != "contains"@[0]);
                reveal_strlit("to_upper");
                assert("log_info"@[0] != "to_upper"@[0]);
                reveal_strlit("to_lower");
                assert("log_info"@[0] != "to_lower"@[0]);
                reveal_strlit("to_float");
                assert("log_info"@[0] != "to_float"@[0]);
                reveal_strlit("map_keys");
                assert("log_info"@[0] != "map_keys"@[0]);
            }
        } else if i == 52 {
            assert(t[52].0 == "log_warn"@);
            assert(native_index("log_warn"@) == 52) by {
                reveal_strlit("log_warn");
                reveal_strlit("contains");
                assert("log_warn"@[0] != "contains"@[0]);
                reveal_strlit("to_upper");
                assert("log_warn"@[0] != "to_upper"@[0]);
                reveal_strlit("to_lower");
                assert("log_warn"@[0] != "to_lower"@[0]);
                reveal_strlit("to_float");
                assert("log_warn"@[0] != "to_float"@[0]);
                reveal_strlit("map_keys");
                assert("log_warn"@[0] != "map_keys"@[0]);
                reveal_strlit("log_info");
                assert("log_warn"@[4] != "log_info"@[4]);
            }
        } else if i == 53 {
            assert(t[53].0 == "log_error"@);
            assert(native_index("log_error"@) == 53) by {
                reveal_strlit("log_error");
                reveal_strlit("assert_eq");
                assert("log_error"@[0] != "assert_eq"@[0]);
                reveal_strlit("substring");
                assert("log_error"@[0] != "substring"@[0]);
                reveal_strlit("unwrap_or");
                assert("log_error"@[0] != "unwrap_or"@[0]);
                reveal_strlit("make_weak");
                assert("log_error"@[0] != "make_weak"@[0]);
                reveal_strlit("from_json");
                assert("log_error"@[0] != "from_json"@[0]);
                reveal_strlit("map_clear");
                assert("log_error"@[0] != "map_clear"@[0]);
                reveal_strlit("log_trace");
                assert("log_error"@[4] != "log_trace"@[4]);
                reveal_strlit("log_debug");
                assert("log_error"@[4] != "log_debug"@[4]);
            }
        } else if i == 54 {
            assert(t[54].0 == "sin"@);
            assert(native_index("sin"@) == 54) by {
                reveal_strlit("sin");
                reveal_strlit("len");
                assert("sin"@[0] != "len"@[0]);
                reveal_strlit("abs");
                assert("sin"@[0] != "abs"@[0]);
                reveal_strlit("min");
                assert("sin"@[0] != "min"@[0]);
                reveal_strlit("max");
                assert("sin"@[0] != "max"@[0]);
                reveal_strlit("pop");
                assert("sin"@[0] != "pop"@[0]);
            }
        } else if i == 55 {
            assert(t[55].0 == "cos"@);
            assert(native_index("cos"@) == 55) by {
                reveal_strlit("cos");
                reveal_strlit("len");
                assert("cos"@[0] != "len"@[0]);
                reveal_strlit("abs");
                assert("cos"@[0] != "abs"@[0]);
                reveal_strlit("min");
                assert("cos"@[0] != "min"@[0]);
                reveal_strlit("max");
                assert("cos"@[0] != "max"@[0]);
                reveal_strlit("pop");
                assert("cos"@[0] != "pop"@[0]);
                reveal_strlit("sin");
                assert("cos"@[0] != "sin"@[0]);
            }
        } else if i == 56 {
            assert(t[56].0 == "tan"@);
            assert(native_index("tan"@) == 56) by {
                reveal_strlit("tan");
                reveal_strlit("len");
                assert("tan"@[0] != "len"@[0]);
                reveal_strlit("abs");
                assert("tan"@[0] != "abs"@[0]);
                reveal_strlit("min");
                assert("tan"@[0] != "min"@[0]);
                reveal_strlit("max");
                assert("tan"@[0] != "max"@[0]);
                reveal_strlit("pop");
                assert("tan"@[0] != "pop"@[0]);
                reveal_strlit("sin");
                assert("tan"@[0] != "sin"@[0]);
                reveal_strlit("cos");
                assert("tan"@[0] != "cos"@[0]);
            }
        } else if i == 57 {
            assert(t[57].0 == "atan2"@);
            assert(native_index("atan2"@) == 57) by {
                reveal_strlit("atan2");
                reveal_strlit("print");
                assert("atan2"@[0] != "print"@[0]);
                reveal_strlit("is_ok");
                assert("atan2"@[0] != "is_ok"@[0]);
                reveal_strlit("after");
                assert("atan2"@[1] != "after"@[1]);
            }
        } else if i == 58 {
            assert(t[58].0 == "lerp"@);
            assert(native_index("lerp"@) == 58) by {
                reveal_strlit("lerp");
                reveal_strlit("trim");
                assert("lerp"@[0] != "trim"@[0]);
                reveal_strlit("sqrt");
                assert("lerp"@[0] != "sqrt"@[0]);
                reveal_strlit("push");
                assert("lerp"@[0] != "push"@[0]);
                reveal_strlit("iter");
                assert("lerp"@[0] != "iter"@[0]);
                reveal_strlit("next");
                assert("lerp"@[0] != "next"@[0]);
            }
        } else if i == 59 {
            assert(t[59].0 == "clamp"@);
            assert(native_index("clamp"@) == 59) by {
                reveal_strlit("clamp");
                reveal_strlit("print");
                assert("clamp"@[0] != "print"@[0]);
                reveal_strlit("is_ok");
                assert("clamp"@[0] != "is_ok"@[0]);
                reveal_strlit("after");
                assert("clamp"@[0] != "after"@[0]);
                reveal_strlit("atan2");
                assert("clamp"@[0] != "atan2"@[0]);
            }
        } else if i == 60 {
            assert(t[60].0 == "rand"@);
            assert(native_index("rand"@) == 60) by {
                reveal_strlit("rand");
                reveal_strlit("trim");
                assert("rand"@[0] != "trim"@[0]);
                reveal_strlit("sqrt");
                assert("rand"@[0] != "sqrt"@[0]);
                reveal_strlit("push");
                assert("rand"@[0] != "push"@[0]);
                reveal_strlit("iter");
                assert("rand"@[0] != "iter"@[0]);
                reveal_strlit("next");
                assert("rand"@[0] != "next"@[0]);
                reveal_strlit("lerp");
                assert("rand"@[0] != "lerp"@[0]);
            }
        } else if i == 61 {
            assert(t[61].0 == "rand_range"@);
            assert(native_index("rand_range"@) == 61) by {
                reveal_strlit("rand_range");
                reveal_strlit("map_remove");
                assert("rand_range"@[0] != "map_remove"@[0]);
                reveal_strlit("map_values");
                assert("rand_range"@[0] != "map_values"@[0]);
            }
        } else if i == 62 {
            assert(t[62].0 == "rand_seed"@);
            assert(native_index("rand_seed"@) == 62) by {
                reveal_strlit("rand_seed");
                reveal_strlit("assert_eq");
                assert("rand_seed"@[0] != "assert_eq"@[0]);
                reveal_strlit("substring");
                assert("rand_seed"@[0] != "substring"@[0]);
                reveal_strlit("unwrap_or");
                assert("rand_seed"@[0] != "unwrap_or"@[0]);
                reveal_strlit("make_weak");
                assert("rand_seed"@[0] != "make_weak"@[0]);
                reveal_strlit("from_json");
                assert("rand_seed"@[0] != "from_json"@[0]);
                reveal_strlit("map_clear");
                assert("rand_seed"@[0] != "map_clear"@[0]);
                reveal_strlit("log_trace");
                assert("rand_seed"@[0] != "log_trace"@[0]);
                reveal_strlit("log_debug");
                assert("rand_seed"@[0] != "log_debug"@[0]);
                reveal_strlit("log_error");
                assert("rand_seed"@[0] != "log_error"@[0]);
            }
        } else if i == 63 {
            assert(t[63].0 == "vec2"@);
            assert(native_index("vec2"@) == 63) by {
                reveal_strlit("vec2");
                reveal_strlit("trim");
                assert("vec2"@[0] != "trim"@[0]);
                reveal_strlit("sqrt");
                assert("vec2"@[0] != "sqrt"@[0]);
                reveal_strlit("push");
                assert("vec2"@[0] != "push"@[0]);
                reveal_strlit("iter");
                assert("vec2"@[0] != "iter"@[0]);
                reveal_strlit("next");
                assert("vec2"@[0] != "next"@[0]);
                reveal_strlit("lerp");
                assert("vec2"@[0] != "lerp"@[0]);
                reveal_strlit("rand");
                assert("vec2"@[0] != "rand"@[0]);
            }
        } else if i == 64 {
            assert(t[64].0 == "vec3"@);
            assert(native_index("vec3"@) == 64) by {
                reveal_strlit("vec3");
                reveal_strlit("trim");
                assert("vec3"@[0] != "trim"@[0]);
                reveal_strlit("sqrt");
                assert("vec3"@[0] != "sqrt"@[0]);
                reveal_strlit("push");
                assert("vec3"@[0] != "push"@[0]);
                reveal_strlit("iter");
                assert("vec3"@[0] != "iter"@[0]);
                reveal_strlit("next");
                assert("vec3"@[0] != "next"@[0]);
                reveal_strlit("lerp");
                assert("vec3"@[0] != "lerp"@[0]);
                reveal_strlit("rand");
                assert("vec3"@[0] != "rand"@[0]);
                reveal_strlit("vec2");
                assert("vec3"@[3] != "vec2"@[3]);
            }
        } else if i == 65 {
            assert(t[65].0 == "vec_add"@);
            assert(native_index("vec_add"@) == 65) by {
                reveal_strlit("vec_add");
                reveal_strlit("type_of");
                assert("vec_add"@[0] != "type_of"@[0]);
                reveal_strlit("is_some");
                assert("vec_add"@[0] != "is_some"@[0]);
                reveal_strlit("is_none");
                assert("vec_add"@[0] != "is_none"@[0]);
                reveal_strlit("upgrade");
                assert("vec_add"@[0] != "upgrade"@[0]);
                reveal_strlit("to_json");
                assert("vec_add"@[0] != "to_json"@[0]);
                reveal_strlit("map_new");
                assert("vec_add"@[0] != "map_new"@[0]);
                reveal_strlit("map_set");
                assert("vec_add"@[0] != "map_set"@[0]);
                reveal_strlit("map_get");
                assert("vec_add"@[0] != "map_get"@[0]);
                reveal_strlit("map_has");
                assert("vec_add"@[0] != "map_has"@[0]);
                reveal_strlit("map_len");
                assert("vec_add"@[0] != "map_len"@[0]);
            }
        } else if i == 66 {
            assert(t[66].0 == "vec_sub"@);
            assert(native_index("vec_sub"@) == 66) by {
                reveal_strlit("vec_sub");
                reveal_strlit("type_of");
                assert("vec_sub"@[0] != "type_of"@[0]);
                reveal_strlit("is_some");
                assert("vec_sub"@[0] != "is_some"@[0]);
                reveal_strlit("is_none");
                assert("vec_sub"@[0] != "is_none"@[0]);
                reveal_strlit("upgrade");
                assert("vec_sub"@[0] != "upgrade"@[0]);
                reveal_strlit("to_json");
                assert("vec_sub"@[0] != "to_json"@[0]);
                reveal_strlit("map_new");
                assert("vec_sub"@[0] != "map_new"@[0]);
                reveal_strlit("map_set");
                assert("vec_sub"@[0] != "map_set"@[0]);
                reveal_strlit("map_get");
                assert("vec_sub"@[0] != "map_get"@[0]);
                reveal_strlit("map_has");
                assert("vec_sub"@[0] != "map_has"@[0]);
                reveal_strlit("map_len");
                assert("vec_sub"@[0] != "map_len"@[0]);
                reveal_strlit("vec_add");
                assert("vec_sub"@[4] != "vec_add"@[4]);
            }
        } else if i == 67 {
            assert(t[67].0 == "vec_scale"@);
            assert(native_index("vec_scale"@) == 67) by {
                reveal_strlit("vec_scale");
                reveal_strlit("assert_eq");
                assert("vec_scale"@[0] != "assert_eq"@[0]);
                reveal_strlit("substring");
                assert("vec_scale"@[0] != "substring"@[0]);
                reveal_strlit("unwrap_or");
                assert("vec_scale"@[0] != "unwrap_or"@[0]);
                reveal_strlit("make_weak");
                assert("vec_scale"@[0] != "make_weak"@[0]);
                reveal_strlit("from_json");
                assert("vec_scale"@[0] != "from_json"@[0]);
                reveal_strlit("map_clear");
                assert("vec_scale"@[0] != "map_clear"@[0]);
                reveal_strlit("log_trace");
                assert("vec_scale"@[0] != "log_trace"@[0]);
                reveal_strlit("log_debug");
                assert("vec_scale"@[0] != "log_debug"@[0]);
                reveal_strlit("log_error");
                assert("vec_scale"@[0] != "log_error"@[0]);
                reveal_strlit("rand_seed");
                assert("vec_scale"@[0] != "rand_seed"@[0]);
            }
        } else if i == 68 {
            assert(t[68].0 == "vec_dot"@);
            assert(native_index("vec_dot"@) == 68) by {
                reveal_strlit("vec_dot");
                reveal_strlit("type_of");
                assert("vec_dot"@[0] != "type_of"@[0]);
                reveal_strlit("is_some");
                assert("vec_dot"@[0] != "is_some"@[0]);
                reveal_strlit("is_none");
                assert("vec_dot"@[0] != "is_none"@[0]);
                reveal_strlit("upgrade");
                assert("vec_dot"@[0] != "upgrade"@[0]);
                reveal_strlit("to_json");
                assert("vec_dot"@[0] != "to_json"@[0]);
                reveal_strlit("map_new");
                assert("vec_dot"@[0] != "map_new"@[0]);
                reveal_strlit("map_set");
                assert("vec_dot"@[0] != "map_set"@[0]);
                reveal_strlit("map_get");
                assert("vec_dot"@[0] != "map_get"@[0]);
                reveal_strlit("map_has");
                assert("vec_dot"@[0] != "map_has"@[0]);
                reveal_strlit("map_len");
                assert("vec_dot"@[0] != "map_len"@[0]);
                reveal_strlit("vec_add");
                assert("vec_dot"@[4] != "vec_add"@[4]);
                reveal_strlit("vec_sub");
                assert("vec_dot"@[4] != "vec_sub"@[4]);
            }
        } else if i == 69 {
            assert(t[69].0 == "vec_len"@);
            assert(native_index("vec_len"@) == 69) by {
                reveal_strlit("vec_len");
                reveal_strlit("type_of");
                assert("vec_len"@[0] != "type_of"@[0]);
                reveal_strlit("is_some");
                assert("vec_len"@[0] != "is_some"@[0]);
                reveal_strlit("is_none");
                assert("vec_len"@[0] != "is_none"@[0]);
                reveal_strlit("upgrade");
                assert("vec_len"@[0] != "upgrade"@[0]);
                reveal_strlit("to_json");
                assert("vec_len"@[0] != "to_json"@[0]);
                reveal_strlit("map_new");
                assert("vec_len"@[0] != "map_new"@[0]);
                reveal_strlit("map_set");
                assert("vec_len"@[0] != "map_set"@[0]);
                reveal_strlit("map_get");
                assert("vec_len"@[0] != "map_get"@[0]);
                reveal_strlit("map_has");
                assert("vec_len"@[0] != "map_has"@[0]);
                reveal_strlit("map_len");
                assert("vec_len"@[0] != "map_len"@[0]);
                reveal_strlit("vec_add");
                assert("vec_len"@[4] != "vec_add"@[4]);
                reveal_strlit("vec_sub");
                assert("vec_len"@[4] != "vec_sub"@[4]);
                reveal_strlit("vec_dot");
                assert("vec_len"@[4] != "vec_dot"@[4]);
            }
        } else if i == 70 {
            assert(t[70].0 == "vec_normalize"@);
            assert(native_index("vec_normalize"@) == 70) by {
                reveal_strlit("vec_normalize");
                reveal_strlit("log_set_level");
                assert("vec_normalize"@[0] != "log_set_level"@[0]);
            }
        }
    }
}

/// The type signatures of all native functions.
pub fn native_fn_sigs() -> (sigs: Vec<FnSignature>)
    ensures
        sigs_match(sigs@, native_signature_table()),
{
    let mut sigs = core_signatures();
    let mut more = json::signatures();
    proof {
        lemma_sigs_match_concat(sigs@, core_signature_table(), more@, json::signature_table());
    }
    sigs.append(&mut more);
    let mut more = map::signatures();
    proof {
        lemma_sigs_match_concat(sigs@, core_signature_table() + json::signature_table(), more@,
            map::signature_table());
    }
    sigs.append(&mut more);
    let mut more = log::signatures();
    proof {
        lemma_sigs_match_concat(sigs@, core_signature_table() + json::signature_table()
            + map::signature_table(), more@, log::signature_table());
    }
    sigs.append(&mut more);
    let mut more = math::signatures();
    proof {
        lemma_sigs_match_concat(sigs@, core_signature_table() + json::signature_table()
            + map::signature_table() + log::signature_table(), more@, math::signature_table());
    }
    sigs.append(&mut more);
    sigs
}

/// The names of all native functions, in the order of their signatures.
pub fn native_names() -> (names: Vec<String>)
    ensures
        names.len() == native_signature_table().len(),
        forall|i: int| 0 <= i < names.len() ==> #[trigger] names[i]@ == native_signature_table()[i].0,
{
    let sigs = native_fn_sigs();
    let mut names: Vec<String> = Vec::new();
    let mut i: usize = 0;
    while i < sigs.len()
        invariant
            i <= sigs.len(),
            names.len() == i,
            sigs_match(sigs@, native_signature_table()),
            forall|j: int| 0 <= j < i ==> #[trigger] names[j]@ == native_signature_table()[j].0,
        decreases sigs.len() - i,
    {
        assert(sig_is(sigs@[i as int], native_signature_table()[i as int]));
        names.push(sigs[i].name.clone());
        i = i + 1;
    }
    names
}

} // verus!
