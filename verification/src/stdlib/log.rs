//! Leveled logging to standard error.
use vstd::prelude::*;
use crate::ast::Type;
use crate::text::{lowercase, to_lowercase, string_push, push_str_chars};
use crate::symbol::{FnSignature, SigSpec, sigs_match, sig_is, param_views, lemma_sigs_match_push, param, sig};

verus! {

pub const LEVEL_TRACE: i32 = 0;
pub const LEVEL_DEBUG: i32 = 1;
pub const LEVEL_INFO: i32 = 2;
pub const LEVEL_WARN: i32 = 3;
pub const LEVEL_ERROR: i32 = 4;
pub const LEVEL_OFF: i32 = 5;

/// The level a lowercase level name selects; an unknown name selects `info`.
pub open spec fn level_for(lower: Seq<char>) -> i32 {
    if lower == "trace"@ {
        LEVEL_TRACE
    } else if lower == "debug"@ {
        LEVEL_DEBUG
    } else if lower == "info"@ {
        LEVEL_INFO
    } else if lower == "warn"@ || lower == "warning"@ {
        LEVEL_WARN
    } else if lower == "error"@ {
        LEVEL_ERROR
    } else if lower == "off"@ {
        LEVEL_OFF
    } else {
        LEVEL_INFO
    }
}

fn same_text(a: &str, b: &str) -> (r: bool)
    ensures
        r == (a@ == b@),
{
    a.to_string() == b.to_string()
}

/// The level selected by an already lowercased level name.
pub fn level_from_lowercase(lower: &str) -> (level: i32)
    ensures
        level == level_for(lower@),
{
    if same_text(lower, "trace") {
        LEVEL_TRACE
    } else if same_text(lower, "debug") {
        LEVEL_DEBUG
    } else if same_text(lower, "info") {
        LEVEL_INFO
    } else if same_text(lower, "warn") || same_text(lower, "warning") {
        LEVEL_WARN
    } else if same_text(lower, "error") {
        LEVEL_ERROR
    } else if same_text(lower, "off") {
        LEVEL_OFF
    } else {
        LEVEL_INFO
    }
}

/// `log_set_level(name)`: the level a name selects, whatever its case; a
/// missing name selects `info`.
pub fn level_of_name(name: Option<String>) -> (level: i32)
    ensures
        level == level_for(lowercase(match name {
            Some(n) => n@,
            None => Seq::<char>::empty(),
        })),
{
    let n = match name {
        Some(n) => n,
        None => String::new(),
    };
    let lower = to_lowercase(n.as_str());
    level_from_lowercase(lower.as_str())
}

/// The name printed for a level.
pub open spec fn level_name(level: i32) -> Seq<char> {
    if level == 0 {
        "TRACE"@
    } else if level == 1 {
        "DEBUG"@
    } else if level == 2 {
        "INFO"@
    } else if level == 3 {
        "WARN"@
    } else {
        "ERROR"@
    }
}

/// The line logged for a message at `level` when the threshold is `threshold`:
/// `[NAME] message`, or nothing when the level is below the threshold or is
/// not a level at all.
pub fn log_line(level: i32, threshold: i32, msg: &str) -> (line: Option<String>)
    ensures
        (level >= threshold && 0 <= level < LEVEL_OFF) == (line is Some),
        line matches Some(l) ==> l@ == seq!['['] + level_name(level) + seq![']', ' '] + msg@,
{
    if level >= threshold && 0 <= level && level < LEVEL_OFF {
        let name = if level == 0 {
            "TRACE"
        } else if level == 1 {
            "DEBUG"
        } else if level == 2 {
            "INFO"
        } else if level == 3 {
            "WARN"
        } else {
            "ERROR"
        };
        let mut out = String::new();
        string_push(&mut out, '[');
        push_str_chars(&mut out, name);
        string_push(&mut out, ']');
        string_push(&mut out, ' ');
        push_str_chars(&mut out, msg);
        proof {
            assert(out@ =~= seq!['['] + level_name(level) + seq![']', ' '] + msg@);
        }
        Some(out)
    } else {
        None
    }
}


/// The declared signatures of the logging functions, in order.
pub open spec fn signature_table() -> Seq<SigSpec> {
    seq![
        ("log_set_level"@, seq![("level"@, Type::Str)], Some(Type::Unit)),
        ("log_trace"@, seq![("msg"@, Type::Str)], Some(Type::Unit)),
        ("log_debug"@, seq![("msg"@, Type::Str)], Some(Type::Unit)),
        ("log_info"@, seq![("msg"@, Type::Str)], Some(Type::Unit)),
        ("log_warn"@, seq![("msg"@, Type::Str)], Some(Type::Unit)),
        ("log_error"@, seq![("msg"@, Type::Str)], Some(Type::Unit)),
    ]
}

/// The signatures of the logging functions, for name resolution and typing.
pub fn signatures() -> (sigs: Vec<FnSignature>)
    ensures
        sigs_match(sigs@, signature_table()),
{
    let mut sigs: Vec<FnSignature> = Vec::new();
    let ghost mut table: Seq<SigSpec> = Seq::empty();
    let s = sig("log_set_level", vec![param("level", Type::Str)], Some(Type::Unit));
    proof {
        assert(param_views(s.params@) =~= ("log_set_level"@, seq![("level"@, Type::Str)], Some(Type::Unit)).1);
        lemma_sigs_match_push(sigs@, table, s, ("log_set_level"@, seq![("level"@, Type::Str)], Some(Type::Unit)));
        table = table.push(("log_set_level"@, seq![("level"@, Type::Str)], Some(Type::Unit)));
    }
    sigs.push(s);
    let s = sig("log_trace", vec![param("msg", Type::Str)], Some(Type::Unit));
    proof {
        assert(param_views(s.params@) =~= ("log_trace"@, seq![("msg"@, Type::Str)], Some(Type::Unit)).1);
        lemma_sigs_match_push(sigs@, table, s, ("log_trace"@, seq![("msg"@, Type::Str)], Some(Type::Unit)));
        table = table.push(("log_trace"@, seq![("msg"@, Type::Str)], Some(Type::Unit)));
    }
    sigs.push(s);
    let s = sig("log_debug", vec![param("msg", Type::Str)], Some(Type::Unit));
    proof {
        assert(param_views(s.params@) =~= ("log_debug"@, seq![("msg"@, Type::Str)], Some(Type::Unit)).1);
        lemma_sigs_match_push(sigs@, table, s, ("log_debug"@, seq![("msg"@, Type::Str)], Some(Type::Unit)));
        table = table.push(("log_debug"@, seq![("msg"@, Type::Str)], Some(Type::Unit)));
    }
    sigs.push(s);
    let s = sig("log_info", vec![param("msg", Type::Str)], Some(Type::Unit));
    proof {
        assert(param_views(s.params@) =~= ("log_info"@, seq![("msg"@, Type::Str)], Some(Type::Unit)).1);
        lemma_sigs_match_push(sigs@, table, s, ("log_info"@, seq![("msg"@, Type::Str)], Some(Type::Unit)));
        table = table.push(("log_info"@, seq![("msg"@, Type::Str)], Some(Type::Unit)));
    }
    sigs.push(s);
    let s = sig("log_warn", vec![param("msg", Type::Str)], Some(Type::Unit));
    proof {
        assert(param_views(s.params@) =~= ("log_warn"@, seq![("msg"@, Type::Str)], Some(Type::Unit)).1);
        lemma_sigs_match_push(sigs@, table, s, ("log_warn"@, seq![("msg"@, Type::Str)], Some(Type::Unit)));
        table = table.push(("log_warn"@, seq![("msg"@, Type::Str)], Some(Type::Unit)));
    }
    sigs.push(s);
    let s = sig("log_error", vec![param("msg", Type::Str)], Some(Type::Unit));
    proof {
        assert(param_views(s.params@) =~= ("log_error"@, seq![("msg"@, Type::Str)], Some(Type::Unit)).1);
        lemma_sigs_match_push(sigs@, table, s, ("log_error"@, seq![("msg"@, Type::Str)], Some(Type::Unit)));
        table = table.push(("log_error"@, seq![("msg"@, Type::Str)], Some(Type::Unit)));
    }
    sigs.push(s);
    assert(table =~= signature_table());
    sigs
}

} // verus!
