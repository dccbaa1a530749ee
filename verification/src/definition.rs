//! Go to definition: where in a document a name is declared.
use vstd::prelude::*;
use vstd::utf8::encode_utf8;
use crate::ast::{Expr, MatchArm, Param, Stmt};
use crate::document::{ascii_text, at_boundary, char_boundary, positions_fit, word_under, DocumentState, lemma_word_bounds, word_text};
use crate::lsp::{chars_before, pos_at, position_to_offset, span_to_range, word_at, word_byte, word_end, word_start,
    Position, Range};
use crate::span::{Span, Spanned};
use crate::text::{byte_offset, text_fits};

verus! {

/// An ASCII letter or digit.
pub open spec fn alnum(b: u8) -> bool {
    (48 <= b <= 57) || (65 <= b <= 90) || (97 <= b <= 122)
}

/// Where the search for a name around a declaration's span starts: 16 bytes
/// before the span, or the start of the text.
pub open spec fn window_start(h: Span) -> int {
    if h.0 >= 16 { h.0 - 16 } else { 0 }
}

/// Where that search ends: 16 bytes after the span, or the end of the text.
pub open spec fn window_end(h: Span, len: int) -> int {
    if h.1 + 16 < len { h.1 + 16 } else { len }
}

/// The name's bytes are at `p`, inside the window.
pub open spec fn occurs_in_window(b: Seq<u8>, n: Seq<u8>, ws: int, we: int, p: int) -> bool {
    &&& ws <= p
    &&& p + n.len() <= we
    &&& b.subrange(p, p + n.len()) == n
}

/// The occurrence at `p` is a whole word: no letter or digit just before it
/// (the byte before `p`, or at 0 the first byte itself, counts unless it is
/// before the window) and none just after it inside the window.
pub open spec fn whole_word(b: Seq<u8>, n: Seq<u8>, ws: int, we: int, p: int) -> bool {
    let before = if p >= 1 { p - 1 } else { 0 };
    let after = p + n.len();
    &&& (before < ws || !alnum(b[before]))
    &&& (after >= we || after >= b.len() || !alnum(b[after]))
}

/// A whole-word occurrence of the name in the window at `p`.
pub open spec fn word_match(b: Seq<u8>, n: Seq<u8>, ws: int, we: int, p: int) -> bool {
    occurs_in_window(b, n, ws, we, p) && whole_word(b, n, ws, we, p)
}

/// The first whole-word occurrence of the name in the window.
pub open spec fn first_word_match(b: Seq<u8>, n: Seq<u8>, ws: int, we: int) -> Option<int> {
    if exists|p: int| #[trigger] word_match(b, n, ws, we, p) {
        Some(choose|p: int| #[trigger] word_match(b, n, ws, we, p) && forall|q: int| ws <= q < p ==> !word_match(b, n, ws, we, q))
    } else {
        None
    }
}

/// The span of the name near hint span `h`: its first whole-word occurrence
/// in the window around `h`, else `h`'s start for the name's length (at most
/// `h`'s length).
pub open spec fn name_span_spec(b: Seq<u8>, h: Span, n: Seq<u8>) -> Span {
    match first_word_match(b, n, window_start(h), window_end(h, b.len() as int)) {
        Some(p) => Span(p as usize, (p + n.len()) as usize),
        None => Span(h.0, (h.0 + if n.len() < h.1 - h.0 { n.len() as int } else { h.1 - h.0 }) as usize),
    }
}

/// The window around `h` can be searched: `h` is ordered, its end plus 16
/// fits, and the window starts and ends at characters of the text.
pub open spec fn searchable(s: Seq<char>, h: Span) -> bool {
    let len = encode_utf8(s).len() as int;
    &&& h.0 <= h.1
    &&& h.1 + 16 <= usize::MAX
    &&& window_start(h) <= window_end(h, len)
    &&& at_boundary(s, window_start(h))
    &&& at_boundary(s, window_end(h, len))
}

/// A nonempty run of identifier bytes.
pub open spec fn ascii_word(n: Seq<char>) -> bool {
    n.len() > 0 && forall|i: int| 0 <= i < n.len() ==> word_byte(#[trigger] n[i] as u8) && (n[i] as u32) < 128
}

/// The bytes of an ASCII text.
pub open spec fn ascii_bytes(n: Seq<char>) -> Seq<u8> {
    n.map_values(|c: char| c as u8)
}

/// Find `name`, as a whole word, near span `hint_span` of `source`; fall back
/// to the start of the hint.
pub fn name_span_in_source(source: &str, hint_span: Span, name: &str) -> (r: Span)
    requires
        text_fits(source@),
        searchable(source@, hint_span),
        ascii_word(name@),
    ensures
        r == name_span_spec(encode_utf8(source@), hint_span, ascii_bytes(name@)),
{
    let bytes = source.as_bytes();
    let nb = ascii_name_bytes(name);
    let ghost b = bytes@;
    let ghost n = nb@;
    assert(b == encode_utf8(source@));
    let ws = if hint_span.0 >= 16 { hint_span.0 - 16 } else { 0 };
    let we = if hint_span.1 + 16 < bytes.len() { hint_span.1 + 16 } else { bytes.len() };
    let mut p = ws;
    while p < we
        invariant
            b == bytes@,
            b == encode_utf8(source@),
            n == nb@,
            n == ascii_bytes(name@),
            n.len() > 0,
            ws == window_start(hint_span),
            we == window_end(hint_span, b.len() as int),
            ws <= p <= we <= b.len(),
            forall|q: int| ws <= q < p ==> !#[trigger] word_match(b, n, ws as int, we as int, q),
        decreases we - p,
    {
        if nb.len() <= we - p && bytes_at(bytes, &nb, p) {
            let before = if p >= 1 { p - 1 } else { 0 };
            let after = p + nb.len();
            let prev_ok = before < ws || !is_alnum(bytes[before]);
            let next_ok = after >= we || after >= bytes.len() || !is_alnum(bytes[after]);
            if prev_ok && next_ok {
                proof {
                    let wsi = window_start(hint_span);
                    let wei = window_end(hint_span, b.len() as int);
                    assert(word_match(b, n, wsi, wei, p as int));
                    let w = choose|w: int| #[trigger] word_match(b, n, wsi, wei, w)
                        && forall|q: int| wsi <= q < w ==> !word_match(b, n, wsi, wei, q);
                    if w < p {
                        assert(!word_match(b, n, wsi, wei, w));
                    }
                    if p < w {
                        assert(!word_match(b, n, wsi, wei, p as int));
                    }
                    assert(first_word_match(b, n, wsi, wei) == Some(p as int));
                    assert(name_span_spec(b, hint_span, n) == Span(p, after));
                    assert(n == ascii_bytes(name@));
                }
                return Span(p, after);
            }
        }
        p = p + 1;
    }
    proof {
        assert forall|q: int| !#[trigger] word_match(b, n, ws as int, we as int, q) by {
            if ws <= q < we {
            } else if q >= we {
                assert(!occurs_in_window(b, n, ws as int, we as int, q));
            }
        }
    }
    let width = hint_span.1 - hint_span.0;
    let len = if nb.len() < width { nb.len() } else { width };
    Span(hint_span.0, hint_span.0 + len)
}

fn is_alnum(b: u8) -> (r: bool)
    ensures
        r == alnum(b),
{
    (48 <= b && b <= 57) || (65 <= b && b <= 90) || (97 <= b && b <= 122)
}

/// The bytes of an ASCII name.
fn ascii_name_bytes(name: &str) -> (v: Vec<u8>)
    requires
        ascii_word(name@),
    ensures
        v@ == ascii_bytes(name@),
        v@.len() == name@.len(),
{
    let chars = crate::text::chars_of(name);
    let mut v: Vec<u8> = Vec::new();
    let mut i: usize = 0;
    while i < chars.len()
        invariant
            chars@ == name@,
            ascii_word(name@),
            i <= chars@.len(),
            v@ == ascii_bytes(name@).subrange(0, i as int),
        decreases chars@.len() - i,
    {
        let c = chars[i];
        proof {
            assert((c as u32) < 128);
        }
        v.push(c as u8);
        i = i + 1;
        assert(v@ =~= ascii_bytes(name@).subrange(0, i as int));
    }
    assert(ascii_bytes(name@).subrange(0, chars@.len() as int) =~= ascii_bytes(name@));
    v
}

/// Whether `n` is at byte `p` of `b`.
fn bytes_at(b: &[u8], n: &Vec<u8>, p: usize) -> (r: bool)
    requires
        p + n@.len() <= b@.len(),
    ensures
        r == (b@.subrange(p as int, p + n@.len()) == n@),
{
    let blen = b.len();
    let mut i: usize = 0;
    while i < n.len()
        invariant
            blen == b@.len(),
            p + n@.len() <= b@.len(),
            i <= n@.len(),
            forall|j: int| 0 <= j < i ==> b@[p + j] == n@[j],
        decreases n@.len() - i,
    {
        if b[p + i] != n[i] {
            proof {
                assert(b@.subrange(p as int, p + n@.len())[i as int] != n@[i as int]);
            }
            return false;
        }
        i = i + 1;
    }
    assert(b@.subrange(p as int, p + n@.len()) =~= n@);
    true
}


/// The span a declaration of the name at hint `h` gives, when its window can
/// be searched.
pub open spec fn decl_hit(s: Seq<char>, h: Span, n: Seq<char>) -> Option<Span> {
    if searchable(s, h) {
        Some(name_span_spec(encode_utf8(s), h, ascii_bytes(n)))
    } else {
        None
    }
}

/// The first of two searches that finds something.
pub open spec fn or_else(a: Option<Span>, b: Option<Span>) -> Option<Span> {
    match a {
        Some(x) => Some(x),
        None => b,
    }
}

/// A parameter is named `n`.
pub open spec fn has_param(ps: Seq<Param>, n: Seq<char>) -> bool {
    exists|i: int| 0 <= i < ps.len() && #[trigger] ps[i].name@ == n
}

/// Where statement `st` declares `n`: the statement itself when it is the
/// function (or one of its parameters), `let`, `const`, struct, enum, type
/// alias or trait of that name, else inside it, searched in order.
pub open spec fn def_in_stmt(st: Spanned<Stmt>, s: Seq<char>, n: Seq<char>) -> Option<Span>
    decreases st, 1nat,
{
    let hit = decl_hit(s, st.span, n);
    match st.node {
        Stmt::Fn { name, params, body, .. } => if name@ == n || has_param(params@, n) {
            hit
        } else {
            def_in_stmts(body@, s, n)
        },
        Stmt::Let { name, init, .. } => if name@ == n {
            hit
        } else {
            match init {
                Some(e) => def_in_expr(e, s, n),
                None => None,
            }
        },
        Stmt::Const { name, init, .. } => if name@ == n {
            hit
        } else {
            def_in_expr(init, s, n)
        },
        Stmt::Struct { name, .. } => if name@ == n { hit } else { None },
        Stmt::Enum { name, .. } => if name@ == n { hit } else { None },
        Stmt::Type { name, .. } => if name@ == n { hit } else { None },
        Stmt::Impl { methods, .. } => def_in_stmts(methods@, s, n),
        Stmt::Trait { name, methods, .. } => if name@ == n {
            hit
        } else {
            def_in_stmts(methods@, s, n)
        },
        Stmt::Expr(e) => def_in_expr(e, s, n),
        Stmt::Return(Some(e)) => def_in_expr(e, s, n),
        Stmt::Return(None) => None,
        Stmt::Use { .. } => None,
        Stmt::Mod { body, .. } => def_in_stmts(body@, s, n),
    }
}

/// The first declaration of `n` found in the statements, in order.
pub open spec fn def_in_stmts(ss: Seq<Spanned<Stmt>>, s: Seq<char>, n: Seq<char>) -> Option<Span>
    decreases ss, 0nat,
{
    if ss.len() == 0 {
        None
    } else {
        or_else(def_in_stmt(ss[0], s, n), def_in_stmts(ss.drop_first(), s, n))
    }
}

/// The first declaration of `n` found in the expressions, in order.
pub open spec fn def_in_exprs(es: Seq<Expr>, s: Seq<char>, n: Seq<char>) -> Option<Span>
    decreases es, 0nat,
{
    if es.len() == 0 {
        None
    } else {
        or_else(def_in_expr(es[0], s, n), def_in_exprs(es.drop_first(), s, n))
    }
}

/// The first declaration of `n` found in the match arms: each arm's guard,
/// then its body.
pub open spec fn def_in_arms(arms: Seq<MatchArm>, s: Seq<char>, n: Seq<char>) -> Option<Span>
    decreases arms, 0nat,
{
    if arms.len() == 0 {
        None
    } else {
        let arm = arms[0];
        let in_guard = match arm.guard {
            Some(g) => def_in_expr(*g, s, n),
            None => None,
        };
        or_else(or_else(in_guard, def_in_expr(*arm.body, s, n)), def_in_arms(arms.drop_first(), s, n))
    }
}

/// The first declaration of `n` found in the values of struct literal fields.
pub open spec fn def_in_fields(fs: Seq<(String, Expr)>, s: Seq<char>, n: Seq<char>) -> Option<Span>
    decreases fs, 0nat,
{
    if fs.len() == 0 {
        None
    } else {
        or_else(def_in_expr(fs[0].1, s, n), def_in_fields(fs.drop_first(), s, n))
    }
}

/// The first declaration of `n` found inside an expression, its parts
/// searched in order.
pub open spec fn def_in_expr(e: Expr, s: Seq<char>, n: Seq<char>) -> Option<Span>
    decreases e, 2nat,
{
    match e {
        Expr::Block(stmts) => def_in_stmts(stmts@, s, n),
        Expr::Lambda { body, .. } => def_in_expr(*body, s, n),
        Expr::For { iter, body, .. } => or_else(def_in_expr(*iter, s, n), def_in_expr(*body, s, n)),
        Expr::Match { expr, arms } => or_else(def_in_expr(*expr, s, n), def_in_arms(arms@, s, n)),
        Expr::If { cond, then, else_ } => or_else(
            def_in_expr(*cond, s, n),
            or_else(def_in_expr(*then, s, n), match else_ {
                Some(x) => def_in_expr(*x, s, n),
                None => None,
            }),
        ),
        Expr::While { cond, body } => or_else(def_in_expr(*cond, s, n), def_in_expr(*body, s, n)),
        Expr::Loop(body) => def_in_expr(*body, s, n),
        Expr::Binary { lhs, rhs, .. } => or_else(def_in_expr(*lhs, s, n), def_in_expr(*rhs, s, n)),
        Expr::Unary { expr, .. } => def_in_expr(*expr, s, n),
        Expr::Call { func, args } => or_else(def_in_expr(*func, s, n), def_in_exprs(args@, s, n)),
        Expr::MethodCall { obj, args, .. } => or_else(def_in_expr(*obj, s, n), def_in_exprs(args@, s, n)),
        Expr::Field { obj, .. } => def_in_expr(*obj, s, n),
        Expr::Index { obj, index } => or_else(def_in_expr(*obj, s, n), def_in_expr(*index, s, n)),
        Expr::StructLit { fields, spread, .. } => or_else(def_in_fields(fields@, s, n), match spread {
            Some(x) => def_in_expr(*x, s, n),
            None => None,
        }),
        Expr::Array(elems) => def_in_exprs(elems@, s, n),
        Expr::Range { start, end, .. } => or_else(def_in_expr(*start, s, n), def_in_expr(*end, s, n)),
        Expr::Return(Some(inner)) => def_in_expr(*inner, s, n),
        Expr::Yield(inner) => def_in_expr(*inner, s, n),
        Expr::EnumCtor { args, .. } => def_in_exprs(args@, s, n),
        _ => None,
    }
}

/// The span of `name` at a declaration with span `h`, when its window can be
/// searched.
fn declaration_hit(source: &str, h: Span, name: &str) -> (r: Option<Span>)
    requires
        text_fits(source@),
        ascii_word(name@),
    ensures
        r == decl_hit(source@, h, name@),
{
    let len = source.as_bytes().len();
    if h.0 > h.1 || h.1 > usize::MAX - 16 {
        return None;
    }
    let ws = if h.0 >= 16 { h.0 - 16 } else { 0 };
    let we = if h.1 + 16 < len { h.1 + 16 } else { len };
    if ws > we || !char_boundary(source, ws) || !char_boundary(source, we) {
        return None;
    }
    Some(name_span_in_source(source, h, name))
}

fn has_param_named(params: &Vec<Param>, name: &str) -> (b: bool)
    ensures
        b == has_param(params@, name@),
{
    let key = name.to_string();
    let mut i: usize = 0;
    while i < params.len()
        invariant
            key@ == name@,
            i <= params@.len(),
            forall|j: int| 0 <= j < i ==> params@[j].name@ != name@,
        decreases params@.len() - i,
    {
        if params[i].name == key {
            return true;
        }
        i = i + 1;
    }
    false
}

/// Where a statement declares `name` (see `def_in_stmt`).
pub fn find_definition_in_stmt(stmt: &Spanned<Stmt>, source: &str, name: &str) -> (r: Option<Span>)
    requires
        text_fits(source@),
        ascii_word(name@),
    ensures
        r == def_in_stmt(*stmt, source@, name@),
    decreases stmt, 1nat,
{
    let key = name.to_string();
    match &stmt.node {
        Stmt::Fn { name: fn_name, params, body, .. } => {
            if *fn_name == key || has_param_named(params, name) {
                declaration_hit(source, stmt.span, name)
            } else {
                find_definition_in_stmts(body, source, name)
            }
        },
        Stmt::Let { name: n, init, .. } => {
            if *n == key {
                declaration_hit(source, stmt.span, name)
            } else {
                match init {
                    Some(e) => find_definition_in_expr(e, source, name),
                    None => None,
                }
            }
        },
        Stmt::Const { name: n, init, .. } => {
            if *n == key {
                declaration_hit(source, stmt.span, name)
            } else {
                find_definition_in_expr(init, source, name)
            }
        },
        Stmt::Struct { name: n, .. } | Stmt::Enum { name: n, .. } | Stmt::Type { name: n, .. } => {
            if *n == key {
                declaration_hit(source, stmt.span, name)
            } else {
                None
            }
        },
        Stmt::Impl { methods, .. } => find_definition_in_stmts(methods, source, name),
        Stmt::Trait { name: n, methods, .. } => {
            if *n == key {
                declaration_hit(source, stmt.span, name)
            } else {
                find_definition_in_stmts(methods, source, name)
            }
        },
        Stmt::Expr(e) => find_definition_in_expr(e, source, name),
        Stmt::Return(Some(e)) => find_definition_in_expr(e, source, name),
        Stmt::Return(None) => None,
        Stmt::Use { .. } => None,
        Stmt::Mod { body, .. } => find_definition_in_stmts(body, source, name),
    }
}

/// The first declaration of `name` in the statements, in order.
pub fn find_definition_in_stmts(stmts: &Vec<Spanned<Stmt>>, source: &str, name: &str) -> (r: Option<Span>)
    requires
        text_fits(source@),
        ascii_word(name@),
    ensures
        r == def_in_stmts(stmts@, source@, name@),
    decreases stmts, 0nat,
{
    let mut k: usize = 0;
    assert(stmts@.skip(0) =~= stmts@);
    while k < stmts.len()
        invariant
            text_fits(source@),
            ascii_word(name@),
            k <= stmts@.len(),
            def_in_stmts(stmts@, source@, name@) == def_in_stmts(stmts@.skip(k as int), source@, name@),
        decreases stmts@.len() - k,
    {
        proof {
            assert(decreases_to!(stmts => stmts@[k as int]));
            let rest = stmts@.skip(k as int);
            assert(rest[0] == stmts@[k as int]);
            assert(rest.drop_first() =~= stmts@.skip(k + 1));
        }
        match find_definition_in_stmt(&stmts[k], source, name) {
            Some(sp) => return Some(sp),
            None => {},
        }
        k = k + 1;
    }
    None
}

fn find_definition_in_exprs(es: &Vec<Expr>, source: &str, name: &str) -> (r: Option<Span>)
    requires
        text_fits(source@),
        ascii_word(name@),
    ensures
        r == def_in_exprs(es@, source@, name@),
    decreases es, 0nat,
{
    let mut k: usize = 0;
    assert(es@.skip(0) =~= es@);
    while k < es.len()
        invariant
            text_fits(source@),
            ascii_word(name@),
            k <= es@.len(),
            def_in_exprs(es@, source@, name@) == def_in_exprs(es@.skip(k as int), source@, name@),
        decreases es@.len() - k,
    {
        proof {
            assert(decreases_to!(es => es@[k as int]));
            let rest = es@.skip(k as int);
            assert(rest[0] == es@[k as int]);
            assert(rest.drop_first() =~= es@.skip(k + 1));
        }
        match find_definition_in_expr(&es[k], source, name) {
            Some(sp) => return Some(sp),
            None => {},
        }
        k = k + 1;
    }
    None
}

fn find_definition_in_arms(arms: &Vec<MatchArm>, source: &str, name: &str) -> (r: Option<Span>)
    requires
        text_fits(source@),
        ascii_word(name@),
    ensures
        r == def_in_arms(arms@, source@, name@),
    decreases arms, 0nat,
{
    let mut k: usize = 0;
    assert(arms@.skip(0) =~= arms@);
    while k < arms.len()
        invariant
            text_fits(source@),
            ascii_word(name@),
            k <= arms@.len(),
            def_in_arms(arms@, source@, name@) == def_in_arms(arms@.skip(k as int), source@, name@),
        decreases arms@.len() - k,
    {
        proof {
            assert(decreases_to!(arms => arms@[k as int]));
            let rest = arms@.skip(k as int);
            assert(rest[0] == arms@[k as int]);
            assert(rest.drop_first() =~= arms@.skip(k + 1));
        }
        match find_definition_in_arm(&arms[k], source, name) {
            Some(sp) => return Some(sp),
            None => {},
        }
        k = k + 1;
    }
    None
}

fn find_definition_in_arm(arm: &MatchArm, source: &str, name: &str) -> (r: Option<Span>)
    requires
        text_fits(source@),
        ascii_word(name@),
    ensures
        r == or_else(
            match arm.guard {
                Some(g) => def_in_expr(*g, source@, name@),
                None => None,
            },
            def_in_expr(*arm.body, source@, name@),
        ),
    decreases arm, 0nat,
{
    match &arm.guard {
        Some(g) => match find_definition_in_expr(g, source, name) {
            Some(sp) => return Some(sp),
            None => {},
        },
        None => {},
    }
    find_definition_in_expr(&arm.body, source, name)
}

fn find_definition_in_fields(fields: &Vec<(String, Expr)>, source: &str, name: &str) -> (r: Option<Span>)
    requires
        text_fits(source@),
        ascii_word(name@),
    ensures
        r == def_in_fields(fields@, source@, name@),
    decreases fields, 0nat,
{
    let mut k: usize = 0;
    assert(fields@.skip(0) =~= fields@);
    while k < fields.len()
        invariant
            text_fits(source@),
            ascii_word(name@),
            k <= fields@.len(),
            def_in_fields(fields@, source@, name@) == def_in_fields(fields@.skip(k as int), source@, name@),
        decreases fields@.len() - k,
    {
        proof {
            assert(decreases_to!(fields => fields@[k as int].1));
            let rest = fields@.skip(k as int);
            assert(rest[0] == fields@[k as int]);
            assert(rest.drop_first() =~= fields@.skip(k + 1));
        }
        match find_definition_in_expr(&fields[k].1, source, name) {
            Some(sp) => return Some(sp),
            None => {},
        }
        k = k + 1;
    }
    None
}

/// Where a declaration of `name` is inside an expression (see `def_in_expr`).
pub fn find_definition_in_expr(expr: &Expr, source: &str, name: &str) -> (r: Option<Span>)
    requires
        text_fits(source@),
        ascii_word(name@),
    ensures
        r == def_in_expr(*expr, source@, name@),
    decreases expr, 2nat,
{
    match expr {
        Expr::Block(stmts) => find_definition_in_stmts(stmts, source, name),
        Expr::Lambda { body, .. } => find_definition_in_expr(body, source, name),
        Expr::For { iter, body, .. } => match find_definition_in_expr(iter, source, name) {
            Some(sp) => Some(sp),
            None => find_definition_in_expr(body, source, name),
        },
        Expr::Match { expr: scrutinee, arms } => match find_definition_in_expr(scrutinee, source, name) {
            Some(sp) => Some(sp),
            None => find_definition_in_arms(arms, source, name),
        },
        Expr::If { cond, then, else_ } => match find_definition_in_expr(cond, source, name) {
            Some(sp) => Some(sp),
            None => match find_definition_in_expr(then, source, name) {
                Some(sp) => Some(sp),
                None => match else_ {
                    Some(x) => find_definition_in_expr(x, source, name),
                    None => None,
                },
            },
        },
        Expr::While { cond, body } => match find_definition_in_expr(cond, source, name) {
            Some(sp) => Some(sp),
            None => find_definition_in_expr(body, source, name),
        },
        Expr::Loop(body) => find_definition_in_expr(body, source, name),
        Expr::Binary { lhs, rhs, .. } => match find_definition_in_expr(lhs, source, name) {
            Some(sp) => Some(sp),
            None => find_definition_in_expr(rhs, source, name),
        },
        Expr::Unary { expr: inner, .. } => find_definition_in_expr(inner, source, name),
        Expr::Call { func, args } => match find_definition_in_expr(func, source, name) {
            Some(sp) => Some(sp),
            None => find_definition_in_exprs(args, source, name),
        },
        Expr::MethodCall { obj, args, .. } => match find_definition_in_expr(obj, source, name) {
            Some(sp) => Some(sp),
            None => find_definition_in_exprs(args, source, name),
        },
        Expr::Field { obj, .. } => find_definition_in_expr(obj, source, name),
        Expr::Index { obj, index } => match find_definition_in_expr(obj, source, name) {
            Some(sp) => Some(sp),
            None => find_definition_in_expr(index, source, name),
        },
        Expr::StructLit { fields, spread, .. } => match find_definition_in_fields(fields, source, name) {
            Some(sp) => Some(sp),
            None => match spread {
                Some(x) => find_definition_in_expr(x, source, name),
                None => None,
            },
        },
        Expr::Array(elems) => find_definition_in_exprs(elems, source, name),
        Expr::Range { start, end, .. } => match find_definition_in_expr(start, source, name) {
            Some(sp) => Some(sp),
            None => find_definition_in_expr(end, source, name),
        },
        Expr::Return(Some(inner)) => find_definition_in_expr(inner, source, name),
        Expr::Yield(inner) => find_definition_in_expr(inner, source, name),
        Expr::EnumCtor { args, .. } => find_definition_in_exprs(args, source, name),
        _ => None,
    }
}


/// Where going to the definition of the identifier at byte `offset` leads:
/// for a name that resolves, its first declaration in the program.
pub open spec fn goto_spec(st: DocumentState, offset: int) -> Option<Span> {
    match word_under(st.source@, offset) {
        Some(name) => if st.symbols.resolves(name) is Some {
            def_in_stmts(st.program.stmts@, st.source@, name)
        } else {
            None
        },
        None => None,
    }
}

proof fn lemma_word_bytes(b: Seq<u8>, offset: int)
    requires
        0 <= offset < b.len(),
        word_byte(b[offset]),
    ensures
        forall|i: int| word_start(b, offset) <= i < word_end(b, offset + 1) ==> word_byte(#[trigger] b[i]),
{
    lemma_start_run(b, offset);
    lemma_end_run(b, offset + 1);
    lemma_word_bounds(b, offset);
}

proof fn lemma_start_run(b: Seq<u8>, i: int)
    requires
        0 <= i <= b.len(),
    ensures
        forall|j: int| word_start(b, i) <= j < i ==> word_byte(#[trigger] b[j]),
    decreases i,
{
    if i > 0 && word_byte(b[i - 1]) {
        lemma_start_run(b, i - 1);
    }
}

proof fn lemma_end_run(b: Seq<u8>, i: int)
    requires
        0 <= i <= b.len(),
    ensures
        forall|j: int| i <= j < word_end(b, i) ==> word_byte(#[trigger] b[j]),
    decreases b.len() - i,
{
    if 0 <= i < b.len() && word_byte(b[i]) {
        lemma_end_run(b, i + 1);
    }
}

proof fn lemma_ascii_word(w: Seq<u8>)
    requires
        w.len() > 0,
        forall|i: int| 0 <= i < w.len() ==> word_byte(#[trigger] w[i]),
    ensures
        ascii_word(ascii_text(w)),
        ascii_bytes(ascii_text(w)) == w,
{
    let t = ascii_text(w);
    assert forall|i: int| 0 <= i < t.len() implies word_byte(#[trigger] t[i] as u8) && (t[i] as u32) < 128 by {
        let x = w[i];
        assert(word_byte(x));
        assert(x < 128);
        assert((x as char) as u8 == x);
        assert(((x as char) as u32) < 128);
    }
    assert forall|i: int| 0 <= i < w.len() implies #[trigger] ascii_bytes(t)[i] == w[i] by {
        let x = w[i];
        assert((x as char) as u8 == x);
    }
    assert(ascii_bytes(t) =~= w);
}

/// The declaration of the identifier at byte `offset` of a compiled document.
pub fn goto_definition_at(st: &DocumentState, offset: usize) -> (r: Option<Span>)
    requires
        positions_fit(st.source@),
        st.symbols.wf(),
    ensures
        r == goto_spec(*st, offset as int),
{
    let (start, end) = match word_at(st.source.as_str(), offset) {
        Some(w) => w,
        None => return None,
    };
    let ghost b = encode_utf8(st.source@);
    proof {
        lemma_word_bounds(b, offset as int);
        lemma_word_bytes(b, offset as int);
        let w = b.subrange(start as int, end as int);
        assert forall|i: int| 0 <= i < w.len() implies word_byte(#[trigger] w[i]) by {
            assert(w[i] == b[start + i]);
        }
        lemma_ascii_word(w);
    }
    let name = word_text(st.source.as_str(), start, end);
    match st.symbols.lookup(name.as_str()) {
        Some(_) => {},
        None => return None,
    }
    find_definition_in_stmts(&st.program.stmts, st.source.as_str(), name.as_str())
}

/// Go to the definition of the identifier at position `pos`: the range of
/// the name where it is declared.
pub fn goto_definition(st: &DocumentState, pos: Position) -> (r: Option<Range>)
    requires
        positions_fit(st.source@),
        st.symbols.wf(),
    ensures
        match r {
            Some(range) => exists|k: int| 0 <= k <= st.source@.len() && pos_at(st.source@, k) == (pos.line as nat, pos.character as nat)
                && #[trigger] goto_spec(*st, byte_offset(st.source@, k) as int) is Some
                && (range.start.line as nat, range.start.character as nat) == pos_at(st.source@, chars_before(st.source@, goto_spec(*st, byte_offset(st.source@, k) as int).unwrap().0 as int))
                && (range.end.line as nat, range.end.character as nat) == pos_at(st.source@, chars_before(st.source@, goto_spec(*st, byte_offset(st.source@, k) as int).unwrap().1 as int)),
            None => forall|k: int| 0 <= k <= st.source@.len() && pos_at(st.source@, k) == (pos.line as nat, pos.character as nat)
                ==> #[trigger] goto_spec(*st, byte_offset(st.source@, k) as int) is None,
        },
{
    let offset = match position_to_offset(st.source.as_str(), pos) {
        Some(b) => b,
        None => return None,
    };
    let found = goto_definition_at(st, offset);
    proof {
        let s = st.source@;
        let k0 = choose|k: int| 0 <= k <= s.len() && pos_at(s, k) == (pos.line as nat, pos.character as nat)
            && offset == byte_offset(s, k);
        assert forall|k: int| 0 <= k <= s.len() && pos_at(s, k) == (pos.line as nat, pos.character as nat)
            implies k == k0 by {
            crate::lsp::lemma_position_roundtrip(s, k0, k);
        }
        assert(goto_spec(*st, byte_offset(s, k0) as int) == found);
    }
    match found {
        Some(span) => Some(span_to_range(st.source.as_str(), span)),
        None => None,
    }
}

} // verus!
