//! Type checking: infers the type of every expression of a resolved program
//! and reports the mismatches it finds.
//!
//! `()` doubles as the type of values whose type is not known statically
//! (untyped parameters, native results): it is compatible with every type.
use vstd::prelude::*;
use vstd::utf8::encode_utf8;
use crate::ast::{clone_types, type_same, types_same, BinOp, EnumVariant, Expr, MatchArm, Param, Pattern, Program, Stmt, StructField, Type,
    TypeParam, UnOp};
use crate::error::Error;
use crate::resolver::parents_kept;
use crate::span::{SourceLocation, Span, Spanned};
use crate::stdlib::datetime::{decimal, push_decimal};
use crate::symbol::{entry_of, entry_set, lemma_entry_set_other, lemma_entry_set_same, EnumDef, SymEntry, SymKind, SymbolTable};
use crate::text::push_str_chars;

verus! {

/// `s` is the name `w` is spelled with.
fn is_word(s: &String, w: &str) -> (b: bool)
    ensures
        b == (s@ == w@),
{
    let t = w.to_string();
    *s == t
}

/// What a type annotation names once aliases of the primitive types and
/// generic parameters in scope are seen through.
pub open spec fn resolved(t: SymbolTable, ty: Type) -> Type {
    match ty {
        Type::Named(s) => if s@ == "int"@ || s@ == "i32"@ {
            Type::I64
        } else if s@ == "f32"@ {
            Type::F32
        } else if s@ == "float"@ {
            Type::F64
        } else if s@ == "bool"@ {
            Type::Bool
        } else if s@ == "str"@ {
            Type::Str
        } else if t.resolves(s@) matches Some(e) && e.kind is TypeParam {
            Type::Generic(s)
        } else {
            ty
        },
        _ => ty,
    }
}

/// Compatibility of two resolved types that are not built from other types.
pub open spec fn flat_compatible(a: Type, b: Type) -> bool {
    match (a, b) {
        (Type::I64, Type::I64) | (Type::F32, Type::F32) | (Type::F64, Type::F64) => true,
        (Type::F64, Type::I64) | (Type::I64, Type::F64) => true,
        (Type::F32, Type::I64) | (Type::I64, Type::F32) => true,
        (Type::F32, Type::F64) | (Type::F64, Type::F32) => true,
        (Type::Bool, Type::Bool) | (Type::Str, Type::Str) => true,
        (Type::Named(x), Type::Named(y)) => x@ == y@,
        (Type::Named(x), Type::Option(_)) => x@ == "Option"@,
        (Type::Option(_), Type::Named(y)) => y@ == "Option"@,
        (Type::Named(x), Type::Result(_, _)) => x@ == "Result"@,
        (Type::Result(_, _), Type::Named(y)) => y@ == "Result"@,
        _ => false,
    }
}

/// Whether a value of type `a` can stand where `b` is expected (and the
/// other way round): `()` and generic parameters go with everything, numbers
/// with numbers, arrays, options and results by their parts, named types by
/// name.
pub open spec fn compatible(t: SymbolTable, a: Type, b: Type) -> bool
    decreases a,
{
    let ra = resolved(t, a);
    let rb = resolved(t, b);
    if ra is Unit || rb is Unit || ra is Generic || rb is Generic {
        true
    } else {
        match (a, b) {
            (Type::Array(x), Type::Array(y)) => compatible(t, *x, *y),
            (Type::Option(x), Type::Option(y)) => compatible(t, *x, *y),
            (Type::Result(p, q), Type::Result(r, s)) => compatible(t, *p, *r) && compatible(t, *q, *s),
            _ => flat_compatible(ra, rb),
        }
    }
}

/// How a type is named in type errors.
pub open spec fn type_name_text(ty: Type) -> Seq<char>
    decreases ty,
{
    match ty {
        Type::I64 => "i64"@,
        Type::F32 => "f32"@,
        Type::F64 => "f64"@,
        Type::Bool => "bool"@,
        Type::Str => "str"@,
        Type::Unit => "()"@,
        Type::Any => "any"@,
        Type::Named(s) => s@,
        Type::Generic(s) => s@,
        Type::Array(inner) => "["@ + type_name_text(*inner) + "]"@,
        Type::Fn { params, ret } => "("@ + type_names_text(params@) + ") -> "@ + type_name_text(*ret),
        Type::Option(inner) => "Option<"@ + type_name_text(*inner) + ">"@,
        Type::Result(ok, err) => "Result<"@ + type_name_text(*ok) + ", "@ + type_name_text(*err) + ">"@,
    }
}

/// Type names separated by `, `.
pub open spec fn type_names_text(ts: Seq<Type>) -> Seq<char>
    decreases ts,
{
    if ts.len() == 0 {
        seq![]
    } else if ts.len() == 1 {
        type_name_text(ts[0])
    } else {
        type_name_text(ts[0]) + ", "@ + type_names_text(ts.drop_first())
    }
}

/// Append how `ty` is named in type errors.
pub fn push_type_name(out: &mut String, ty: &Type)
    ensures
        final(out)@ == old(out)@ + type_name_text(*ty),
    decreases ty,
{
    match ty {
        Type::I64 => push_str_chars(out, "i64"),
        Type::F32 => push_str_chars(out, "f32"),
        Type::F64 => push_str_chars(out, "f64"),
        Type::Bool => push_str_chars(out, "bool"),
        Type::Str => push_str_chars(out, "str"),
        Type::Unit => push_str_chars(out, "()"),
        Type::Any => push_str_chars(out, "any"),
        Type::Named(s) => push_str_chars(out, s.as_str()),
        Type::Generic(s) => push_str_chars(out, s.as_str()),
        Type::Array(inner) => {
            push_str_chars(out, "[");
            push_type_name(out, inner);
            push_str_chars(out, "]");
        },
        Type::Fn { params, ret } => {
            push_str_chars(out, "(");
            push_type_names(out, params);
            push_str_chars(out, ") -> ");
            push_type_name(out, ret);
        },
        Type::Option(inner) => {
            push_str_chars(out, "Option<");
            push_type_name(out, inner);
            push_str_chars(out, ">");
        },
        Type::Result(ok, err) => {
            push_str_chars(out, "Result<");
            push_type_name(out, ok);
            push_str_chars(out, ", ");
            push_type_name(out, err);
            push_str_chars(out, ">");
        },
    }
    proof {
        assert(final(out)@ =~= old(out)@ + type_name_text(*ty)) by {
            reveal_with_fuel(type_name_text, 1);
        }
    }
}

/// Append type names separated by `, `.
fn push_type_names(out: &mut String, v: &Vec<Type>)
    ensures
        final(out)@ == old(out)@ + type_names_text(v@),
    decreases v,
{
    let mut i: usize = 0;
    let ghost s = v@;
    proof {
        assert(s.subrange(0, s.len() as int) =~= s);
    }
    while i < v.len()
        invariant
            i <= v@.len(),
            s == v@,
            out@ + type_names_text(s.subrange(i as int, s.len() as int)) == old(out)@ + type_names_text(s),
        decreases v@.len() - i,
    {
        proof {
            assert(decreases_to!(v => v@[i as int]));
            let rest = s.subrange(i as int, s.len() as int);
            assert(rest.drop_first() =~= s.subrange(i + 1, s.len() as int));
            assert(rest[0] == s[i as int]);
        }
        push_type_name(out, &v[i]);
        if i + 1 < v.len() {
            push_str_chars(out, ", ");
        }
        proof {
            let rest = s.subrange(i as int, s.len() as int);
            let after = s.subrange(i + 1, s.len() as int);
            if i + 1 < v.len() {
                assert(type_names_text(rest) == type_name_text(s[i as int]) + ", "@ + type_names_text(after));
            } else {
                assert(after.len() == 0);
                assert(type_names_text(rest) == type_name_text(s[i as int]));
            }
            assert(out@ + type_names_text(after) =~= old(out)@ + type_names_text(s));
        }
        i = i + 1;
    }
    proof {
        assert(s.subrange(s.len() as int, s.len() as int).len() == 0);
        assert(out@ + type_names_text(s.subrange(s.len() as int, s.len() as int)) =~= out@);
    }
}

/// How `ty` is named in type errors.
pub fn type_label(ty: &Type) -> (s: String)
    ensures
        s@ == type_name_text(*ty),
{
    let mut s = String::new();
    push_type_name(&mut s, ty);
    proof {
        assert(s@ =~= type_name_text(*ty));
    }
    s
}

/// [`resolved`], computed.
pub fn resolve_named(symbols: &SymbolTable, ty: &Type) -> (r: Type)
    requires
        symbols.wf(),
    ensures
        ty is Named ==> r == resolved(*symbols, *ty),
        !(ty is Named) ==> resolved(*symbols, *ty) == *ty,
{
    match ty {
        Type::Named(s) => {
            if is_word(s, "int") || is_word(s, "i32") {
                Type::I64
            } else if is_word(s, "f32") {
                Type::F32
            } else if is_word(s, "float") {
                Type::F64
            } else if is_word(s, "bool") {
                Type::Bool
            } else if is_word(s, "str") {
                Type::Str
            } else {
                let is_param = match symbols.lookup(s.as_str()) {
                    Some(e) => match e.kind {
                        SymKind::TypeParam(_) => true,
                        _ => false,
                    },
                    None => false,
                };
                if is_param {
                    Type::Generic(s.clone())
                } else {
                    Type::Named(s.clone())
                }
            }
        },
        _ => Type::Unit,
    }
}

/// [`compatible`], computed.
pub fn types_compatible(symbols: &SymbolTable, a: &Type, b: &Type) -> (r: bool)
    requires
        symbols.wf(),
    ensures
        r == compatible(*symbols, *a, *b),
    decreases a,
{
    let ra = if matches!(a, Type::Named(_)) { resolve_named(symbols, a) } else { Type::Unit };
    let rb = if matches!(b, Type::Named(_)) { resolve_named(symbols, b) } else { Type::Unit };
    let a_erased = match a {
        Type::Named(_) => matches!(ra, Type::Unit | Type::Generic(_)),
        _ => matches!(a, Type::Unit | Type::Generic(_)),
    };
    let b_erased = match b {
        Type::Named(_) => matches!(rb, Type::Unit | Type::Generic(_)),
        _ => matches!(b, Type::Unit | Type::Generic(_)),
    };
    if a_erased || b_erased {
        return true;
    }
    match (a, b) {
        (Type::Array(x), Type::Array(y)) => types_compatible(symbols, x, y),
        (Type::Option(x), Type::Option(y)) => types_compatible(symbols, x, y),
        (Type::Result(p, q), Type::Result(r, s)) => types_compatible(symbols, p, r) && types_compatible(symbols, q, s),
        _ => {
            let fa = match a {
                Type::Named(_) => &ra,
                _ => a,
            };
            let fb = match b {
                Type::Named(_) => &rb,
                _ => b,
            };
            flat_compat(fa, fb)
        },
    }
}

/// [`flat_compatible`], computed.
fn flat_compat(a: &Type, b: &Type) -> (r: bool)
    ensures
        r == flat_compatible(*a, *b),
{
    match (a, b) {
        (Type::I64, Type::I64) | (Type::F32, Type::F32) | (Type::F64, Type::F64) => true,
        (Type::F64, Type::I64) | (Type::I64, Type::F64) => true,
        (Type::F32, Type::I64) | (Type::I64, Type::F32) => true,
        (Type::F32, Type::F64) | (Type::F64, Type::F32) => true,
        (Type::Bool, Type::Bool) | (Type::Str, Type::Str) => true,
        (Type::Named(x), Type::Named(y)) => *x == *y,
        (Type::Named(x), Type::Option(_)) => is_word(x, "Option"),
        (Type::Option(_), Type::Named(y)) => is_word(y, "Option"),
        (Type::Named(x), Type::Result(_, _)) => is_word(x, "Result"),
        (Type::Result(_, _), Type::Named(y)) => is_word(y, "Result"),
        _ => false,
    }
}

/// Whether two types are written the same way.
pub open spec fn same_type(a: Type, b: Type) -> bool
    decreases a,
{
    match (a, b) {
        (Type::Named(x), Type::Named(y)) => x@ == y@,
        (Type::Generic(x), Type::Generic(y)) => x@ == y@,
        (Type::Array(x), Type::Array(y)) => same_type(*x, *y),
        (Type::Option(x), Type::Option(y)) => same_type(*x, *y),
        (Type::Result(p, q), Type::Result(r, s)) => same_type(*p, *r) && same_type(*q, *s),
        (Type::Fn { params: p1, ret: r1 }, Type::Fn { params: p2, ret: r2 }) => p1@.len() == p2@.len()
            && (forall|i: int| 0 <= i < p1@.len() ==> same_type(#[trigger] p1@[i], p2@[i])) && same_type(*r1, *r2),
        (Type::I64, Type::I64) | (Type::F32, Type::F32) | (Type::F64, Type::F64) | (Type::Bool, Type::Bool)
        | (Type::Str, Type::Str) | (Type::Unit, Type::Unit) | (Type::Any, Type::Any) => true,
        _ => false,
    }
}

/// [`same_type`], computed.
fn types_equal(a: &Type, b: &Type) -> (r: bool)
    ensures
        r == same_type(*a, *b),
    decreases a, 0nat,
{
    match (a, b) {
        (Type::Named(x), Type::Named(y)) => *x == *y,
        (Type::Generic(x), Type::Generic(y)) => *x == *y,
        (Type::Array(x), Type::Array(y)) => types_equal(x, y),
        (Type::Option(x), Type::Option(y)) => types_equal(x, y),
        (Type::Result(p, q), Type::Result(r, s)) => types_equal(p, r) && types_equal(q, s),
        (Type::Fn { params: p1, ret: r1 }, Type::Fn { params: p2, ret: r2 }) => {
            types_list_equal(p1, p2) && types_equal(r1, r2)
        },
        (Type::I64, Type::I64) | (Type::F32, Type::F32) | (Type::F64, Type::F64) | (Type::Bool, Type::Bool)
        | (Type::Str, Type::Str) | (Type::Unit, Type::Unit) | (Type::Any, Type::Any) => true,
        _ => false,
    }
}

fn types_list_equal(p1: &Vec<Type>, p2: &Vec<Type>) -> (r: bool)
    ensures
        r == (p1@.len() == p2@.len() && forall|i: int| 0 <= i < p1@.len() ==> same_type(#[trigger] p1@[i], p2@[i])),
    decreases p1, 1nat,
{
    if p1.len() != p2.len() {
        return false;
    }
    let mut i: usize = 0;
    while i < p1.len()
        invariant
            i <= p1@.len() == p2@.len(),
            forall|j: int| 0 <= j < i ==> same_type(#[trigger] p1@[j], p2@[j]),
        decreases p1@.len() - i,
    {
        proof {
            assert(decreases_to!(p1 => p1@[i as int]));
        }
        if !types_equal(&p1[i], &p2[i]) {
            return false;
        }
        i = i + 1;
    }
    true
}

/// The types inferred for the expressions of a program, in the order in which
/// their checking finished (each expression after the ones inside it).
pub struct TypeMap {
    types: Vec<Type>,
}

impl TypeMap {
    pub closed spec fn entries(&self) -> Seq<Type> {
        self.types@
    }

    pub fn new() -> (m: TypeMap)
        ensures
            m.entries().len() == 0,
    {
        TypeMap { types: Vec::new() }
    }

    /// How many expressions have a type.
    pub fn len(&self) -> (n: usize)
        ensures
            n == self.entries().len(),
    {
        self.types.len()
    }

    /// The type of the `i`-th expression checked.
    pub fn get(&self, i: usize) -> (r: Option<&Type>)
        ensures
            i < self.entries().len() ==> r == Some(&self.entries()[i as int]),
            i >= self.entries().len() ==> r is None,
    {
        if i < self.types.len() {
            Some(&self.types[i])
        } else {
            None
        }
    }

    fn set(&mut self, ty: Type)
        ensures
            final(self).entries() == old(self).entries().push(ty),
    {
        self.types.push(ty);
    }
}

/// The type a literal has, for the expressions that are literals.
/// The type of an expression built from literals with operators whose
/// operands have the same type, which checks without error: a literal's
/// type; negation and bitwise not of an `i64` (negation also of an `f64`),
/// logical not of a `bool`; a comparison of two operands of one type is a
/// `bool`, `&&` and `||` of two `bool`s a `bool`, any other non-assigning
/// operator on two operands of one type has that type.
pub open spec fn simple_type(e: Expr) -> Option<Type>
    decreases e,
{
    match e {
        Expr::Unary { op, expr: inner } => match (op, simple_type(*inner)) {
            (UnOp::Neg, Some(Type::I64)) => Some(Type::I64),
            (UnOp::BitNot, Some(Type::I64)) => Some(Type::I64),
            (UnOp::Neg, Some(Type::F64)) => Some(Type::F64),
            (UnOp::Not, Some(Type::Bool)) => Some(Type::Bool),
            _ => None,
        },
        Expr::Binary { op, lhs, rhs } => match (simple_type(*lhs), simple_type(*rhs)) {
            (Some(a), Some(b)) => if a != b {
                None
            } else {
                match op {
                    BinOp::Assign => None,
                    BinOp::Eq | BinOp::Ne | BinOp::Lt | BinOp::Le | BinOp::Gt | BinOp::Ge => Some(Type::Bool),
                    BinOp::And | BinOp::Or => if a == Type::Bool { Some(Type::Bool) } else { None },
                    _ => Some(a),
                }
            },
            _ => None,
        },
        _ => literal_type(e),
    }
}

/// A simple expression's type is a primitive one, compatible with itself.
proof fn lemma_simple_type_prim(t: SymbolTable, e: Expr)
    requires
        simple_type(e) is Some,
    ensures
        simple_type(e)->0 is I64 || simple_type(e)->0 is F64 || simple_type(e)->0 is Bool || simple_type(e)->0 is Str
            || simple_type(e)->0 is Unit,
        compatible(t, simple_type(e)->0, simple_type(e)->0),
    decreases e,
{
    match e {
        Expr::Unary { expr: inner, .. } => lemma_simple_type_prim(t, *inner),
        Expr::Binary { lhs, .. } => lemma_simple_type_prim(t, *lhs),
        _ => {},
    }
}

/// The types a simple expression gives its parts, in the order they are
/// checked: each operand's before the operator's, the whole last.
pub open spec fn simple_types(e: Expr) -> Seq<Type>
    decreases e,
{
    match e {
        Expr::Unary { expr: inner, .. } => simple_types(*inner).push(simple_type(e)->0),
        Expr::Binary { lhs, rhs, .. } => (simple_types(*lhs) + simple_types(*rhs)).push(simple_type(e)->0),
        _ => seq![simple_type(e)->0],
    }
}

/// The types a statement of a simple program records.
pub open spec fn stmt_types(s: Stmt) -> Seq<Type> {
    match s {
        Stmt::Expr(e) => simple_types(e),
        Stmt::Let { init, .. } => match init {
            Some(e) => simple_types(e),
            None => Seq::empty(),
        },
        Stmt::Const { init, .. } => simple_types(init),
        _ => Seq::empty(),
    }
}

/// `stmt_types` for each statement in turn.
pub open spec fn program_types(stmts: Seq<Spanned<Stmt>>) -> Seq<Type>
    decreases stmts.len(),
{
    if stmts.len() == 0 {
        Seq::empty()
    } else {
        program_types(stmts.drop_last()) + stmt_types(stmts.last().node)
    }
}

/// An expression built from literals with prefix operators and infix
/// operators other than assignment.
pub open spec fn operator_expr(e: Expr) -> bool
    decreases e,
{
    match e {
        Expr::Unary { expr: inner, .. } => operator_expr(*inner),
        Expr::Binary { op, lhs, rhs } => op != BinOp::Assign && operator_expr(*lhs) && operator_expr(*rhs),
        _ => literal_type(e) is Some,
    }
}

/// The type that checking such an expression gives it, and the number of
/// type errors found in it, operands first: a literal has its type; `-` and
/// `~` need a numeric operand and keep its type; `!` needs a `bool`; a
/// comparison needs compatible operands and gives `bool`; `&&` and `||` need
/// a `bool` left operand and give `bool`; arithmetic needs compatible operands
/// and gives the left one's type.
pub open spec fn operator_check(e: Expr) -> (Type, nat)
    decreases e,
{
    match e {
        Expr::Unary { op, expr: inner } => {
            let (it, n) = operator_check(*inner);
            match op {
                UnOp::Neg => (it, n + if numeric(it) { 0nat } else { 1nat }),
                UnOp::Not => (Type::Bool, n + if it is Bool { 0nat } else { 1nat }),
                UnOp::BitNot => (it, n + if numeric(it) { 0nat } else { 1nat }),
            }
        },
        Expr::Binary { op, lhs, rhs } => {
            let (lt, n1) = operator_check(*lhs);
            let (rt, n2) = operator_check(*rhs);
            match op {
                BinOp::Eq | BinOp::Ne | BinOp::Lt | BinOp::Le | BinOp::Gt | BinOp::Ge =>
                    (Type::Bool, n1 + n2 + if plain_compatible(lt, rt) { 0nat } else { 1nat }),
                BinOp::And | BinOp::Or => (Type::Bool, n1 + n2 + if lt is Bool { 0nat } else { 1nat }),
                _ => (lt, n1 + n2 + if plain_compatible(lt, rt) { 0nat } else { 1nat }),
            }
        },
        _ => (literal_type(e)->0, 0nat),
    }
}

/// A type that names no other type: a number, `bool`, `str` or `()`.
pub open spec fn plain(t: Type) -> bool {
    t is I64 || t is F32 || t is F64 || t is Bool || t is Str || t is Unit
}

/// Whether two plain types are compatible: `()` is compatible with every
/// type; numbers with numbers; `bool` and `str` each with itself.
pub open spec fn plain_compatible(a: Type, b: Type) -> bool {
    a is Unit || b is Unit || flat_compatible(a, b)
}

/// The types these rules give are plain.
proof fn lemma_operator_plain(e: Expr)
    requires
        operator_expr(e),
    ensures
        plain(operator_check(e).0),
    decreases e,
{
    match e {
        Expr::Unary { expr: inner, .. } => lemma_operator_plain(*inner),
        Expr::Binary { lhs, rhs, .. } => {
            lemma_operator_plain(*lhs);
            lemma_operator_plain(*rhs);
        },
        _ => {},
    }
}

/// For plain types, compatibility does not depend on the symbol table.
proof fn lemma_plain_compatible(t: SymbolTable, a: Type, b: Type)
    requires
        plain(a),
        plain(b),
    ensures
        compatible(t, a, b) == plain_compatible(a, b),
{
}

/// An expression statement of such an expression.
pub open spec fn operator_stmt(s: Stmt) -> bool {
    match s {
        Stmt::Expr(e) => operator_expr(e),
        _ => false,
    }
}

/// Every statement is an expression statement of such an expression.
pub open spec fn operator_program(stmts: Seq<Spanned<Stmt>>) -> bool {
    forall|i: int| 0 <= i < stmts.len() ==> operator_stmt(#[trigger] stmts[i].node)
}

/// The type errors found in each statement in turn.
pub open spec fn program_faults(stmts: Seq<Spanned<Stmt>>) -> nat
    decreases stmts.len(),
{
    if stmts.len() == 0 {
        0
    } else {
        program_faults(stmts.drop_last()) + match stmts.last().node {
            Stmt::Expr(e) => operator_check(e).1,
            _ => 0nat,
        }
    }
}

pub open spec fn literal_type(e: Expr) -> Option<Type> {
    match e {
        Expr::Int(_) => Some(Type::I64),
        Expr::Float(_) => Some(Type::F64),
        Expr::Str(_) => Some(Type::Str),
        Expr::Bool(_) => Some(Type::Bool),
        Expr::Unit => Some(Type::Unit),
        _ => None,
    }
}

/// `'<a>' vs '<b>'` after `prefix`.
fn versus(prefix: &str, a: &Type, b: &Type) -> (m: String)
    ensures
        m@ == prefix@ + "'"@ + type_name_text(*a) + "' vs '"@ + type_name_text(*b) + "'"@,
{
    let mut m = String::new();
    push_str_chars(&mut m, prefix);
    push_str_chars(&mut m, "'");
    push_type_name(&mut m, a);
    push_str_chars(&mut m, "' vs '");
    push_type_name(&mut m, b);
    push_str_chars(&mut m, "'");
    m
}

/// `expected '<want>', got '<got>'` after `prefix`.
fn expected_got(prefix: &str, want: &Type, got: &Type) -> (m: String)
    ensures
        m@ == prefix@ + "expected '"@ + type_name_text(*want) + "', got '"@ + type_name_text(*got) + "'"@,
{
    let mut m = String::new();
    push_str_chars(&mut m, prefix);
    push_str_chars(&mut m, "expected '");
    push_type_name(&mut m, want);
    push_str_chars(&mut m, "', got '");
    push_type_name(&mut m, got);
    push_str_chars(&mut m, "'");
    m
}

/// `<a>'<name>'<b>`.
fn named_msg(a: &str, name: &str, b: &str) -> (m: String)
    ensures
        m@ == a@ + "'"@ + name@ + "'"@ + b@,
{
    let mut m = String::new();
    push_str_chars(&mut m, a);
    push_str_chars(&mut m, "'");
    push_str_chars(&mut m, name);
    push_str_chars(&mut m, "'");
    push_str_chars(&mut m, b);
    m
}

/// `<a><x><b><y>`, the numbers in decimal.
fn counts_msg(a: &str, x: usize, b: &str, y: usize) -> (m: String)
    ensures
        m@ == a@ + decimal(x as nat) + b@ + decimal(y as nat),
{
    let mut m = String::new();
    push_str_chars(&mut m, a);
    push_decimal(&mut m, x as u64);
    push_str_chars(&mut m, b);
    push_decimal(&mut m, y as u64);
    m
}

/// `<a>::<b>`.
fn qualified(a: &String, b: &String) -> (q: String)
    ensures
        q@ == a@ + "::"@ + b@,
{
    let mut q = a.clone();
    push_str_chars(&mut q, "::");
    push_str_chars(&mut q, b.as_str());
    q
}

/// `e` is a type error at `span` (no file, line and column 0) with message `msg`.
pub open spec fn type_error_is(e: Error, span: Span, msg: Seq<char>) -> bool {
    match e {
        Error::TypeError { location, msg: m } => location.file is None && location.span == span
            && location.line == 0 && location.column == 0 && m@ == msg,
        _ => false,
    }
}

/// The name a called expression is, when it is a name.
pub open spec fn call_name(e: Expr) -> Seq<char> {
    match e {
        Expr::Ident(n) => n@,
        _ => Seq::empty(),
    }
}

/// `t` is the type an annotation gives: the annotation's type, `()` when
/// there is none.
pub open spec fn annotated(a: Option<Type>, t: Type) -> bool {
    match a {
        Some(x) => type_same(x, t),
        None => t == Type::Unit,
    }
}

/// Variant `w` of the enum is called `n` and has no fields.
pub open spec fn unit_variant_at(def: &EnumDef, w: int, n: Seq<char>) -> bool {
    def.variants@[w].1@.len() == 0 && def.variants@[w].0@ == n
}

/// The enum has a variant called `n` without fields.
pub open spec fn unit_variant(def: &EnumDef, n: Seq<char>) -> bool {
    exists|w: int| 0 <= w < def.variants@.len() && #[trigger] unit_variant_at(def, w, n)
}

/// A pattern that matches the variant called `n`: that variant by name, or a
/// bare name that is a variant without fields.
pub open spec fn covers(def: &EnumDef, p: Pattern, n: Seq<char>) -> bool {
    match p {
        Pattern::EnumVariant { variant_name, .. } => variant_name@ == n,
        Pattern::Ident(name) => name@ == n && unit_variant(def, n),
        _ => false,
    }
}

/// A pattern that matches every value: `_`, or a name that is no variant
/// without fields.
pub open spec fn catch_all(def: &EnumDef, p: Pattern) -> bool {
    match p {
        Pattern::Wildcard => true,
        Pattern::Ident(name) => !unit_variant(def, name@),
        _ => false,
    }
}

/// Some arm before the `k`-th matches every value.
pub open spec fn catch_all_upto(def: &EnumDef, arms: Seq<MatchArm>, k: int) -> bool {
    exists|a: int| 0 <= a < k && #[trigger] catch_all(def, arms[a].pattern)
}

/// Some arm before the `k`-th matches the variant called `n`.
pub open spec fn covered_upto(def: &EnumDef, arms: Seq<MatchArm>, k: int, n: Seq<char>) -> bool {
    exists|a: int| 0 <= a < k && #[trigger] covers(def, arms[a].pattern, n)
}

/// Some variant before the `v`-th is called `n` and has no fields.
pub open spec fn unit_upto(def: &EnumDef, v: int, n: Seq<char>) -> bool {
    exists|w: int| 0 <= w < v && #[trigger] unit_variant_at(def, w, n)
}

/// Some arm matches every value.
pub open spec fn has_catch_all(def: &EnumDef, arms: Seq<MatchArm>) -> bool {
    catch_all_upto(def, arms, arms.len() as int)
}

/// Some arm matches the variant called `n`.
pub open spec fn variant_covered(def: &EnumDef, arms: Seq<MatchArm>, n: Seq<char>) -> bool {
    covered_upto(def, arms, arms.len() as int, n)
}

proof fn lemma_catch_all_upto_step(def: &EnumDef, arms: Seq<MatchArm>, k: int)
    requires
        0 <= k,
    ensures
        catch_all_upto(def, arms, k + 1) == (catch_all_upto(def, arms, k) || catch_all(def, arms[k].pattern)),
{
    if catch_all_upto(def, arms, k + 1) {
        let a = choose|a: int| 0 <= a < k + 1 && #[trigger] catch_all(def, arms[a].pattern);
        if a < k {
            assert(catch_all_upto(def, arms, k));
        }
    }
}

proof fn lemma_covered_upto_step(def: &EnumDef, arms: Seq<MatchArm>, k: int, n: Seq<char>)
    requires
        0 <= k,
    ensures
        covered_upto(def, arms, k + 1, n) == (covered_upto(def, arms, k, n) || covers(def, arms[k].pattern, n)),
{
    if covered_upto(def, arms, k + 1, n) {
        let a = choose|a: int| 0 <= a < k + 1 && #[trigger] covers(def, arms[a].pattern, n);
        if a < k {
            assert(covered_upto(def, arms, k, n));
        }
    }
}

proof fn lemma_unit_upto_step(def: &EnumDef, v: int, n: Seq<char>)
    requires
        0 <= v,
    ensures
        unit_upto(def, v + 1, n) == (unit_upto(def, v, n) || unit_variant_at(def, v, n)),
{
    if unit_upto(def, v + 1, n) {
        let w = choose|w: int| 0 <= w < v + 1 && #[trigger] unit_variant_at(def, w, n);
        if w < v {
            assert(unit_upto(def, v, n));
        }
    }
}

proof fn lemma_in_names_push(v: Seq<String>, x: String, n: Seq<char>)
    ensures
        in_names(v.push(x), n) == (in_names(v, n) || x@ == n),
{
    if in_names(v.push(x), n) {
        let i = choose|i: int| 0 <= i < v.push(x).len() && #[trigger] v.push(x)[i]@ == n;
        if i < v.len() {
            assert(v[i]@ == n);
        }
    }
    if in_names(v, n) {
        let i = choose|i: int| 0 <= i < v.len() && #[trigger] v[i]@ == n;
        assert(v.push(x)[i]@ == n);
    }
    if x@ == n {
        assert(v.push(x)[v.len() as int]@ == n);
    }
}

/// Some string of `v` is `n`.
pub open spec fn in_names(v: Seq<String>, n: Seq<char>) -> bool {
    exists|i: int| 0 <= i < v.len() && #[trigger] v[i]@ == n
}

/// `e` reports some variant that no arm matches as missing.
pub open spec fn reported(def: &EnumDef, arms: Seq<MatchArm>, e: Error) -> bool {
    exists|w: int| 0 <= w < def.variants@.len() && !variant_covered(def, arms, def.variants@[w].0@)
        && #[trigger] missing_msg(e, def.variants@[w].0@)
}

/// Some error from position `from` on reports the variant `n` as missing.
pub open spec fn reported_in(errors: Seq<Error>, from: int, n: Seq<char>) -> bool {
    exists|j: int| from <= j < errors.len() && #[trigger] missing_msg(errors[j], n)
}

/// `e` reports the variant `n` as missing from a match.
pub open spec fn missing_msg(e: Error, n: Seq<char>) -> bool {
    e matches Error::TypeError { msg, .. } && msg@ == "non-exhaustive match: missing variant "@ + "'"@ + n + "'"@ + ""@
}

/// After a `let` or `const` of `name` was checked, `name` is a variable in
/// scope `cur`.
pub open spec fn binds_last(t: SymbolTable, cur: int, s: Stmt) -> bool {
    match s {
        Stmt::Let { name, .. } => entry_of(t.scopes@[cur].symbols@, name@) matches Some(SymEntry { kind: SymKind::Variable(_), .. }),
        Stmt::Const { name, .. } => entry_of(t.scopes@[cur].symbols@, name@) matches Some(SymEntry { kind: SymKind::Variable(_), .. }),
        _ => true,
    }
}

/// Some struct field is called `f`.
pub open spec fn has_field(defs: Seq<StructField>, f: Seq<char>) -> bool {
    exists|i: int| 0 <= i < defs.len() && defs[i].name@ == f
}

/// `e` reports that struct `s` has no field `f`.
pub open spec fn no_field_msg(e: Error, s: Seq<char>, f: Seq<char>) -> bool {
    e matches Error::TypeError { msg, .. } && msg@ == "struct "@ + "'"@ + s + "'"@ + " has no field "@ + "'"@ + f + "'"@
}

/// A numeric type.
pub open spec fn numeric(t: Type) -> bool {
    t is I64 || t is F32 || t is F64
}

/// The last error is a type error with message `msg`.
pub open spec fn last_msg(errors: Seq<Error>, msg: Seq<char>) -> bool {
    errors.len() > 0 && (errors.last() matches Error::TypeError { msg: m, .. } && m@ == msg)
}

/// The type of a name used as a value, by what it resolves to: a variable's
/// type; a function's type from its signature (`()` when it returns
/// nothing); the enum of a variant without fields. Nothing for the rest.
pub open spec fn ident_type(e: Option<SymEntry>, ty: Type) -> bool {
    match e {
        Some(SymEntry { kind: SymKind::Variable(t), .. }) => type_same(t, ty),
        Some(SymEntry { kind: SymKind::Function(sig), .. }) => ty matches Type::Fn { params, ret } && params@.len()
            == sig.params@.len() && (forall|i: int| 0 <= i < params@.len() ==> #[trigger] type_same(sig.params@[i].1, params@[i]))
            && match sig.return_type {
                Some(t) => type_same(t, *ret),
                None => *ret == Type::Unit,
            },
        Some(SymEntry { kind: SymKind::EnumConstructor { enum_name, fields, .. }, .. }) => fields@.len() == 0
            && ty == Type::Named(enum_name),
        _ => false,
    }
}

/// After a name was checked as a value: its type when it has one, and no
/// error; else `()` and one error, `undefined name '<n>'` when nothing is
/// found, `'<n>' is not a variable` otherwise.
pub open spec fn ident_checked(e: Option<SymEntry>, name: Seq<char>, ty: Type, before: Seq<Error>, after: Seq<Error>, span: Span) -> bool {
    if e is None {
        &&& ty == Type::Unit
        &&& after.len() == before.len() + 1 && after.drop_last() == before
        &&& type_error_is(after.last(), span, "undefined name '"@ + name + "'"@)
    } else if exists|t: Type| ident_type(e, t) {
        ident_type(e, ty) && after == before
    } else {
        &&& ty == Type::Unit
        &&& after.len() == before.len() + 1 && after.drop_last() == before
        &&& type_error_is(after.last(), span, ""@ + "'"@ + name + "'"@ + " is not a variable"@)
    }
}

/// Walks a program, inferring types and collecting type errors.
struct TypeChecker {
    symbols: SymbolTable,
    type_map: TypeMap,
    errors: Vec<Error>,
    current_span: Span,
}

impl TypeChecker {
    closed spec fn wf(&self) -> bool {
        &&& self.symbols.wf()
        &&& forall|i: int| 0 <= i < self.errors@.len() ==> (#[trigger] self.errors@[i]) is TypeError
    }

    /// `self` is `before` after more was checked: still well formed, the same
    /// scope open, scopes kept, no error forgotten.
    closed spec fn went_on(&self, before: Self) -> bool {
        &&& self.wf()
        &&& self.symbols.current_scope == before.symbols.current_scope
        &&& before.errors@.len() <= self.errors@.len()
        &&& parents_kept(self.symbols, before.symbols)
        &&& forall|i: int| 0 <= i < before.errors@.len() ==> #[trigger] self.errors@[i] == before.errors@[i]
    }

    fn error(&mut self, msg: String)
        requires
            old(self).wf(),
        ensures
            final(self).went_on(*old(self)),
            final(self).symbols == old(self).symbols,
            final(self).errors@.len() == old(self).errors@.len() + 1,
            final(self).errors@.drop_last() == old(self).errors@,
            type_error_is(final(self).errors@.last(), old(self).current_span, msg@),
            final(self).current_span == old(self).current_span,
    {
        self.errors.push(Error::TypeError { location: SourceLocation::new(None, self.current_span, 0, 0), msg });
    }

    fn error_at(&mut self, span: Span, msg: String)
        requires
            old(self).wf(),
        ensures
            final(self).went_on(*old(self)),
            final(self).symbols == old(self).symbols,
            final(self).errors@.len() == old(self).errors@.len() + 1,
            final(self).errors@.drop_last() == old(self).errors@,
            type_error_is(final(self).errors@.last(), span, msg@),
            final(self).current_span == old(self).current_span,
    {
        self.errors.push(Error::TypeError { location: SourceLocation::new(None, span, 0, 0), msg });
    }

    /// Report `<prefix>expected '<want>', got '<got>'` unless the types are compatible.
    fn expect_compatible(&mut self, got: &Type, want: &Type, prefix: &str)
        requires
            old(self).wf(),
        ensures
            final(self).went_on(*old(self)),
            final(self).symbols == old(self).symbols,
            compatible(old(self).symbols, *got, *want) ==> final(self).errors@ == old(self).errors@,
            !compatible(old(self).symbols, *got, *want) ==> final(self).errors@.len() == old(self).errors@.len() + 1
                && final(self).errors@.drop_last() == old(self).errors@
                && type_error_is(final(self).errors@.last(), old(self).current_span,
                    prefix@ + "expected '"@ + type_name_text(*want) + "', got '"@ + type_name_text(*got) + "'"@),
            final(self).current_span == old(self).current_span,
    {
        if !types_compatible(&self.symbols, got, want) {
            self.error(expected_got(prefix, want, got));
        }
    }

    /// Define `name` in the current scope unless some definition of it
    /// reaches the scope already.
    fn define_if_new(&mut self, name: &String, kind: SymKind)
        requires
            old(self).wf(),
        ensures
            final(self).went_on(*old(self)),
            final(self).errors@ == old(self).errors@,
            final(self).current_span == old(self).current_span,
            old(self).symbols.resolves(name@) is Some ==> final(self).symbols == old(self).symbols,
            old(self).symbols.resolves(name@) is None ==> entry_set(old(self).symbols, final(self).symbols, name@,
                Some(SymEntry { id: old(self).symbols.symbols@.len() as usize, kind })),
    {
        if self.symbols.lookup(name.as_str()).is_none() {
            proof {
                assert(entry_of(self.symbols.scopes@[self.symbols.current_scope as int].symbols@, name@) is None);
            }
            let ghost before = self.symbols;
            let _ = self.symbols.define(name.as_str(), kind);
            proof {
                let cur = before.current_scope as int;
                let bs = before.scopes@[cur].symbols@;
                let fs = self.symbols.scopes@[cur].symbols@;
                assert forall|n: Seq<char>| #[trigger] entry_of(fs, n)
                    == if n == name@ { Some(SymEntry { id: before.symbols@.len() as usize, kind }) } else { entry_of(bs, n) } by {
                    assert(fs.drop_last() =~= bs);
                }
            }
        }
    }

    /// Put `name` in the current scope as a variable of type `ty`, in place of
    /// any entry the scope has for it.
    fn rebind(&mut self, name: &String, ty: Type)
        requires
            old(self).wf(),
        ensures
            final(self).went_on(*old(self)),
            final(self).errors@ == old(self).errors@,
            final(self).current_span == old(self).current_span,
            entry_set(old(self).symbols, final(self).symbols, name@,
                Some(SymEntry { id: old(self).symbols.symbols@.len() as usize, kind: SymKind::Variable(ty) })),
    {
        let _ = self.symbols.remove_from_current_scope(name.as_str());
        let _ = self.symbols.insert_into_current_scope(name.as_str(), SymKind::Variable(ty));
    }

    /// Check a statement; `ret` is the return type of the enclosing function.
    fn check_stmt(&mut self, stmt: &Stmt, ret: Option<&Type>)
        requires
            old(self).wf(),
        ensures
            final(self).went_on(*old(self)),
            match *stmt {
                Stmt::Let { name, .. } | Stmt::Const { name, .. } => entry_of(
                    final(self).symbols.scopes@[old(self).symbols.current_scope as int].symbols@,
                    name@,
                ) matches Some(SymEntry { kind: SymKind::Variable(_), .. }),
                Stmt::Struct { .. } | Stmt::Enum { .. } | Stmt::Trait { .. } | Stmt::Use { .. } | Stmt::Type { .. } =>
                    *final(self) == *old(self),
                _ => true,
            },
            stmt_simple(*stmt) ==> final(self).errors@ == old(self).errors@,
            stmt_simple(*stmt) ==> final(self).type_map.entries() == old(self).type_map.entries() + stmt_types(*stmt),
            match *stmt {
                Stmt::Let { type_ann: Some(dt), init: Some(e), .. } | Stmt::Const { type_ann: Some(dt), init: e, .. } =>
                    operator_expr(e) && plain(dt) ==> {
                        let ty = operator_check(e).0;
                        let n = old(self).errors@.len() + operator_check(e).1;
                        &&& plain_compatible(ty, dt) ==> final(self).errors@.len() == n
                        &&& !plain_compatible(ty, dt) ==> final(self).errors@.len() == n + 1
                            && type_error_is(final(self).errors@.last(), old(self).current_span,
                                "type mismatch: "@ + "expected '"@ + type_name_text(dt) + "', got '"@
                                + type_name_text(ty) + "'"@)
                    },
                Stmt::Return(Some(e)) => match ret {
                    Some(rt) => operator_expr(e) ==> {
                        let ty = operator_check(e).0;
                        let n = old(self).errors@.len() + operator_check(e).1;
                        &&& compatible(old(self).symbols, ty, *rt) ==> final(self).errors@.len() == n
                        &&& !compatible(old(self).symbols, ty, *rt) ==> final(self).errors@.len() == n + 1
                            && type_error_is(final(self).errors@.last(), old(self).current_span,
                                "return type mismatch: "@ + "expected '"@ + type_name_text(*rt) + "', got '"@
                                + type_name_text(ty) + "'"@)
                    },
                    None => true,
                },
                Stmt::Expr(e) => operator_expr(e) ==> {
                    &&& final(self).errors@.len() == old(self).errors@.len() + operator_check(e).1
                    &&& final(self).symbols == old(self).symbols
                },
                _ => true,
            },
        decreases stmt, 2nat,
    {
        match stmt {
            Stmt::Let { name, type_ann, init, .. } => {
                let _ = self.symbols.remove_from_current_scope(name.as_str());
                let init_ty = match init {
                    Some(e) => {
                        let ty = self.check_expr(e);
                        match type_ann {
                            Some(dt) => {
                                proof {
                                    if operator_expr(*e) && plain(*dt) {
                                        lemma_operator_plain(*e);
                                        lemma_plain_compatible(self.symbols, ty, *dt);
                                    }
                                }
                                self.expect_compatible(&ty, dt, "type mismatch: ");
                            },
                            None => {},
                        }
                        ty
                    },
                    None => Type::Unit,
                };
                let _ = self.symbols.insert_into_current_scope(name.as_str(), SymKind::Variable(init_ty));
            },
            Stmt::Const { name, type_ann, init, .. } => {
                let ty = self.check_expr(init);
                match type_ann {
                    Some(dt) => {
                        proof {
                            if operator_expr(*init) && plain(*dt) {
                                lemma_operator_plain(*init);
                                lemma_plain_compatible(self.symbols, ty, *dt);
                            }
                        }
                        self.expect_compatible(&ty, dt, "type mismatch: ");
                    },
                    None => {},
                }
                let _ = self.symbols.insert_into_current_scope(name.as_str(), SymKind::Variable(ty));
            },
            Stmt::Expr(e) => {
                let _ = self.check_expr(e);
            },
            Stmt::Return(Some(e)) => {
                let ty = self.check_expr(e);
                match ret {
                    Some(rt) => self.expect_compatible(&ty, rt, "return type mismatch: "),
                    None => {},
                }
            },
            Stmt::Return(None) => {
                match ret {
                    Some(rt) => self.expect_compatible(&Type::Unit, rt, "return type mismatch: "),
                    None => {},
                }
            },
            Stmt::Fn { type_params, params, return_type, body, .. } => {
                let none: Vec<TypeParam> = Vec::new();
                self.check_fn(&none, type_params, params, return_type, body, None);
            },
            Stmt::Impl { self_type, type_params, methods, .. } => self.check_methods(type_params, self_type, methods),
            Stmt::Mod { body, .. } => {
                self.symbols.enter_scope();
                let ghost inner = *self;
                self.check_stmts(body, ret);
                self.symbols.exit_scope();
                proof {
                    self.lemma_back_out(*old(self), inner);
                }
            },
            _ => {},
        }
    }

    /// After a scope entered from `start` (reaching `inner`) and left again,
    /// the checker went on from `start`.
    proof fn lemma_back_out(&self, start: Self, inner: Self)
        requires
            start.wf(),
            inner.symbols.scopes@.len() == start.symbols.scopes@.len() + 1,
            inner.symbols.scopes@.take(start.symbols.scopes@.len() as int) == start.symbols.scopes@,
            inner.symbols.current_scope == start.symbols.scopes@.len(),
            inner.symbols.scopes@.last().parent == Some(start.symbols.current_scope),
            start.errors@.len() <= inner.errors@.len(),
            self.wf(),
            self.symbols.current_scope == start.symbols.current_scope,
            inner.errors@.len() <= self.errors@.len(),
            parents_kept(self.symbols, inner.symbols),
            forall|i: int| 0 <= i < start.errors@.len() ==> #[trigger] inner.errors@[i] == start.errors@[i],
            forall|i: int| 0 <= i < inner.errors@.len() ==> #[trigger] self.errors@[i] == inner.errors@[i],
        ensures
            self.went_on(start),
    {
        assert forall|i: int| 0 <= i < start.symbols.scopes@.len() implies (#[trigger] self.symbols.scopes@[i]).parent
            == start.symbols.scopes@[i].parent by {
            assert(inner.symbols.scopes@[i] == inner.symbols.scopes@.take(start.symbols.scopes@.len() as int)[i]);
        }
    }

    fn check_methods(&mut self, impl_params: &Vec<TypeParam>, self_type: &String, methods: &Vec<Spanned<Stmt>>)
        requires
            old(self).wf(),
        ensures
            final(self).went_on(*old(self)),
        decreases methods, 2nat,
    {
        let mut k: usize = 0;
        while k < methods.len()
            invariant
                k <= methods@.len(),
                self.went_on(*old(self)),
            decreases methods@.len() - k,
        {
            self.check_method(impl_params, self_type, methods, k);
            k = k + 1;
        }
    }


    /// The `k`-th method of an impl block, if it is a function.
    fn check_method(&mut self, impl_params: &Vec<TypeParam>, self_type: &String, methods: &Vec<Spanned<Stmt>>, k: usize)
        requires
            old(self).wf(),
            k < methods@.len(),
        ensures
            final(self).went_on(*old(self)),
            !(methods@[k as int].node is Fn) ==> *final(self) == *old(self),
        decreases methods, 1nat,
    {
        proof {
            assert(decreases_to!(methods => methods@[k as int].node));
        }
        match &methods[k].node {
            Stmt::Fn { type_params, params, return_type, body, .. } => {
                self.check_fn(impl_params, type_params, params, return_type, body, Some(self_type));
            },
            _ => {},
        }
    }

    /// A function body in a scope of its own: the generic parameters (of the
    /// impl block, then of the function) and the parameters are defined first
    /// (`self` without a type is of the impl's type); the value of a final
    /// expression must fit the return type.
    fn check_fn(
        &mut self,
        outer_params: &Vec<TypeParam>,
        type_params: &Vec<TypeParam>,
        params: &Vec<Param>,
        return_type: &Option<Type>,
        body: &Vec<Spanned<Stmt>>,
        self_type: Option<&String>,
    )
        requires
            old(self).wf(),
        ensures
            final(self).went_on(*old(self)),
        decreases body, 3nat,
    {
        self.symbols.enter_scope();
        let ghost inner = *self;
        self.define_type_params(outer_params);
        self.define_type_params(type_params);
        let mut k: usize = 0;
        while k < params.len()
            invariant
                k <= params@.len(),
                self.went_on(inner),
            decreases params@.len() - k,
        {
            let p = &params[k];
            let ty = match (&p.type_ann, self_type) {
                (None, Some(t)) => {
                    if is_word(&p.name, "self") {
                        Type::Named(t.clone())
                    } else {
                        Type::Unit
                    }
                },
                (Some(t), _) => t.clone(),
                (None, None) => Type::Unit,
            };
            match self_type {
                Some(_) => self.define_if_new(&p.name, SymKind::Variable(ty)),
                None => {
                    let _ = self.symbols.remove_from_current_scope(p.name.as_str());
                    let _ = self.symbols.define(p.name.as_str(), SymKind::Variable(ty));
                },
            }
            k = k + 1;
        }
        let expected = match return_type {
            Some(t) => Some(t),
            None => None,
        };
        self.check_stmts(body, expected);
        let n = body.len();
        if n > 0 {
            proof {
                assert(decreases_to!(body => body@[n - 1].node));
            }
            match &body[n - 1].node {
                Stmt::Expr(e) => {
                    let ty = self.check_expr(e);
                    match expected {
                        Some(rt) => {
                            if !types_compatible(&self.symbols, &ty, rt) {
                                let m = expected_got("function return type mismatch: ", rt, &ty);
                                self.error_at(body[n - 1].span, m);
                            }
                        },
                        None => {},
                    }
                },
                _ => {},
            }
        }
        self.symbols.exit_scope();
        proof {
            self.lemma_back_out(*old(self), inner);
        }
    }

    /// Define each generic parameter that no definition reaches yet.
    fn define_type_params(&mut self, tps: &Vec<TypeParam>)
        requires
            old(self).wf(),
        ensures
            final(self).went_on(*old(self)),
            final(self).errors@ == old(self).errors@,
            final(self).current_span == old(self).current_span,
            forall|i: int| 0 <= i < tps@.len() ==> (#[trigger] final(self).symbols.resolves(tps@[i].name@)) is Some,
            forall|n: Seq<char>| (#[trigger] old(self).symbols.resolves(n)) is Some
                ==> final(self).symbols.resolves(n) == old(self).symbols.resolves(n),
    {
        let mut k: usize = 0;
        while k < tps.len()
            invariant
                k <= tps@.len(),
                self.went_on(*old(self)),
                self.errors@ == old(self).errors@,
                self.current_span == old(self).current_span,
                forall|i: int| 0 <= i < k ==> (#[trigger] self.symbols.resolves(tps@[i].name@)) is Some,
                forall|n: Seq<char>| (#[trigger] old(self).symbols.resolves(n)) is Some
                    ==> self.symbols.resolves(n) == old(self).symbols.resolves(n),
            decreases tps@.len() - k,
        {
            let n = tps[k].name.clone();
            let ghost before = self.symbols;
            self.define_if_new(&n, SymKind::TypeParam(n.clone()));
            proof {
                if before.resolves(n@) is None {
                    let e = SymEntry { id: before.symbols@.len() as usize, kind: SymKind::TypeParam(n) };
                    assert forall|m: Seq<char>| m != n@ implies #[trigger] self.symbols.resolves(m) == before.resolves(m) by {
                        lemma_entry_set_other(before, self.symbols, n@, Some(e), m, before.current_scope as int);
                    }
                    lemma_entry_set_same(before, self.symbols, n@, e);
                }
                assert forall|i: int| 0 <= i < k + 1 implies (#[trigger] self.symbols.resolves(tps@[i].name@)) is Some by {
                    if i < k && tps@[i].name@ != n@ {
                        assert(before.resolves(tps@[i].name@) is Some);
                    }
                }
            }
            k = k + 1;
        }
    }

    /// Check statements in order, in the current scope.
    fn check_stmts(&mut self, stmts: &Vec<Spanned<Stmt>>, ret: Option<&Type>)
        requires
            old(self).wf(),
        ensures
            final(self).went_on(*old(self)),
            stmts@.len() > 0 ==> binds_last(final(self).symbols, old(self).symbols.current_scope as int, stmts@.last().node),
        decreases stmts, 1nat,
    {
        let mut k: usize = 0;
        while k < stmts.len()
            invariant
                k <= stmts@.len(),
                self.went_on(*old(self)),
                k > 0 ==> binds_last(self.symbols, old(self).symbols.current_scope as int, stmts@[k - 1].node),
            decreases stmts@.len() - k,
        {
            proof {
                assert(decreases_to!(stmts => stmts@[k as int].node));
            }
            self.check_stmt(&stmts[k].node, ret);
            k = k + 1;
        }
    }
}

impl TypeChecker {
    /// Infer the type of an expression, recording it and the errors found.
    fn check_expr(&mut self, expr: &Expr) -> (ty: Type)
        requires
            old(self).wf(),
        ensures
            final(self).went_on(*old(self)),
            literal_type(*expr) matches Some(t) ==> ty == t && final(self).errors@ == old(self).errors@,
            simple_type(*expr) matches Some(t) ==> ty == t && final(self).errors@ == old(self).errors@,
            simple_type(*expr) is Some ==> final(self).type_map.entries() == old(self).type_map.entries() + simple_types(*expr),
            operator_expr(*expr) ==> {
                &&& ty == operator_check(*expr).0
                &&& final(self).errors@.len() == old(self).errors@.len() + operator_check(*expr).1
                &&& final(self).symbols == old(self).symbols
                &&& final(self).current_span == old(self).current_span
            },
        decreases expr, 1nat,
    {
        let ty = match expr {
            Expr::Int(_) => Type::I64,
            Expr::Float(_) => Type::F64,
            Expr::Str(_) => Type::Str,
            Expr::Bool(_) => Type::Bool,
            Expr::Unit => Type::Unit,
            Expr::Ident(name) => self.check_ident(name),
            Expr::Binary { .. } => self.check_binary(expr),
            Expr::Unary { .. } => self.check_unary(expr),
            Expr::Call { .. } => {
                let (t, record) = self.check_call(expr);
                if !record {
                    return t;
                }
                t
            },
            Expr::EnumCtor { .. } => {
                let (t, record) = self.check_enum_ctor(expr);
                if !record {
                    return t;
                }
                t
            },
            Expr::MethodCall { .. } => self.check_method_call(expr),
            Expr::Field { .. } => self.check_field(expr),
            Expr::Index { obj, index } => {
                let ot = self.check_expr(obj);
                let _ = self.check_expr(index);
                match ot {
                    Type::Array(inner) => *inner,
                    Type::Str => Type::Str,
                    _ => Type::Unit,
                }
            },
            Expr::Block(stmts) => self.check_block(stmts),
            Expr::If { .. } => self.check_if(expr),
            Expr::While { cond, body } => {
                let ct = self.check_expr(cond);
                if !matches!(ct, Type::Bool | Type::Unit) {
                    self.error("while condition must be bool".to_string());
                }
                let _ = self.check_expr(body);
                Type::Unit
            },
            Expr::For { .. } => self.check_for(expr),
            Expr::Loop(body) => {
                let _ = self.check_expr(body);
                Type::Unit
            },
            Expr::Match { .. } => self.check_match(expr),
            Expr::Return(Some(inner)) => {
                let _ = self.check_expr(inner);
                Type::Unit
            },
            Expr::Return(None) => Type::Unit,
            Expr::Break | Expr::Continue => Type::Unit,
            Expr::Yield(inner) => {
                let _ = self.check_expr(inner);
                Type::Unit
            },
            Expr::StructLit { .. } => self.check_struct_lit(expr),
            Expr::Array(elems) => {
                let inner = self.check_exprs(elems);
                Type::Array(Box::new(inner))
            },
            Expr::Range { start, end, .. } => {
                let _ = self.check_expr(start);
                let _ = self.check_expr(end);
                Type::Unit
            },
            Expr::Lambda { .. } => self.check_lambda(expr),
        };
        let ghost pre = self.type_map.entries();
        let recorded = ty.clone();
        self.type_map.set(recorded);
        proof {
            if simple_type(*expr) is Some {
                lemma_simple_type_prim(self.symbols, *expr);
                assert(recorded == ty);
                match expr {
                    Expr::Binary { lhs, rhs, .. } => {
                        assert(simple_types(*expr) == (simple_types(**lhs) + simple_types(**rhs)).push(ty));
                        assert(self.type_map.entries() =~= old(self).type_map.entries() + simple_types(*expr));
                    },
                    Expr::Unary { expr: inner, .. } => {
                        assert(self.type_map.entries() =~= old(self).type_map.entries() + simple_types(*expr));
                    },
                    _ => {
                        assert(self.type_map.entries() =~= old(self).type_map.entries() + simple_types(*expr));
                    },
                }
            }
        }
        ty
    }

    /// Check each expression; the type of the first (`()` when there is none).
    fn check_exprs(&mut self, v: &Vec<Expr>) -> (first: Type)
        requires
            old(self).wf(),
        ensures
            final(self).went_on(*old(self)),
            v@.len() == 0 ==> first == Type::Unit && *final(self) == *old(self),
            v@.len() > 0 && literal_type(v@[0]) is Some ==> first == literal_type(v@[0])->0,
        decreases v, 0nat,
    {
        let mut first = Type::Unit;
        let mut k: usize = 0;
        while k < v.len()
            invariant
                k <= v@.len(),
                self.went_on(*old(self)),
                k == 0 ==> first == Type::Unit && *self == *old(self),
                k > 0 && literal_type(v@[0]) is Some ==> first == literal_type(v@[0])->0,
            decreases v@.len() - k,
        {
            proof {
                assert(decreases_to!(v => v@[k as int]));
            }
            let t = self.check_expr(&v[k]);
            if k == 0 {
                first = t;
            }
            k = k + 1;
        }
        first
    }

    /// A name used as a value: a variable's type, a function's type, or the
    /// enum of a variant without fields.
    fn check_ident(&mut self, name: &String) -> (ty: Type)
        requires
            old(self).wf(),
        ensures
            final(self).went_on(*old(self)),
            final(self).symbols == old(self).symbols,
            ident_checked(old(self).symbols.resolves(name@), name@, ty, old(self).errors@, final(self).errors@,
                old(self).current_span),
    {
        let found: Option<Option<Type>> = match self.symbols.lookup(name.as_str()) {
            Some(entry) => match &entry.kind {
                SymKind::Variable(t) => Some(Some(t.clone())),
                SymKind::Function(sig) => {
                    let mut ps: Vec<Type> = Vec::new();
                    let mut i: usize = 0;
                    while i < sig.params.len()
                        invariant
                            i <= sig.params@.len(),
                            ps@.len() == i,
                            forall|j: int| 0 <= j < i ==> #[trigger] type_same(sig.params@[j].1, ps@[j]),
                        decreases sig.params@.len() - i,
                    {
                        ps.push(sig.params[i].1.clone());
                        i = i + 1;
                    }
                    let ret = match &sig.return_type {
                        Some(t) => t.clone(),
                        None => Type::Unit,
                    };
                    Some(Some(Type::Fn { params: ps, ret: Box::new(ret) }))
                },
                SymKind::EnumConstructor { enum_name, fields, .. } => {
                    if fields.len() == 0 {
                        Some(Some(Type::Named(enum_name.clone())))
                    } else {
                        Some(None)
                    }
                },
                _ => Some(None),
            },
            None => None,
        };
        let ghost e = self.symbols.resolves(name@);
        match found {
            Some(Some(t)) => {
                proof {
                    assert(ident_type(e, t));
                }
                t
            },
            Some(None) => {
                self.error(named_msg("", name.as_str(), " is not a variable"));
                Type::Unit
            },
            None => {
                self.error(named_msg("undefined name ", name.as_str(), ""));
                proof {
                    reveal_strlit("undefined name ");
                    reveal_strlit("undefined name '");
                    reveal_strlit("'");
                    reveal_strlit("");
                    assert("undefined name "@ + "'"@ + name@ + "'"@ + ""@ =~= "undefined name '"@ + name@ + "'"@);
                }
                Type::Unit
            },
        }
    }

    fn check_binary(&mut self, expr: &Expr) -> (ty: Type)
        requires
            old(self).wf(),
        ensures
            final(self).went_on(*old(self)),
            match *expr {
                Expr::Binary { op, .. } => match op {
                    BinOp::Eq | BinOp::Ne | BinOp::Lt | BinOp::Le | BinOp::Gt | BinOp::Ge | BinOp::And | BinOp::Or =>
                        ty == Type::Bool,
                    _ => true,
                },
                _ => ty == Type::Unit && *final(self) == *old(self),
            },
            *expr is Binary && simple_type(*expr) is Some ==> ty == simple_type(*expr)->0 && final(self).errors@ == old(self).errors@,
            match *expr {
                Expr::Binary { lhs, rhs, .. } => simple_type(*expr) is Some ==> final(self).type_map.entries()
                    == old(self).type_map.entries() + simple_types(*lhs) + simple_types(*rhs),
                _ => true,
            },
            *expr is Binary && operator_expr(*expr) ==> {
                &&& ty == operator_check(*expr).0
                &&& final(self).errors@.len() == old(self).errors@.len() + operator_check(*expr).1
                &&& final(self).symbols == old(self).symbols
                &&& final(self).current_span == old(self).current_span
            },
        decreases expr, 0nat,
    {
        match expr {
            Expr::Binary { op, lhs, rhs } => {
                let lt = self.check_expr(lhs);
                let rt = self.check_expr(rhs);
                proof {
                    if operator_expr(*expr) {
                        lemma_operator_plain(**lhs);
                        lemma_operator_plain(**rhs);
                        lemma_plain_compatible(self.symbols, lt, rt);
                    }
                    if simple_type(*expr) is Some {
                        lemma_simple_type_prim(self.symbols, **lhs);
                    }
                }
                match op {
                    BinOp::Assign => {
                        if !types_compatible(&self.symbols, &rt, &lt) {
                            self.error(versus("assignment type mismatch: ", &lt, &rt));
                        }
                        lt
                    },
                    BinOp::Eq | BinOp::Ne | BinOp::Lt | BinOp::Le | BinOp::Gt | BinOp::Ge => {
                        if !types_compatible(&self.symbols, &lt, &rt) {
                            self.error(versus("type mismatch in comparison: ", &lt, &rt));
                        }
                        Type::Bool
                    },
                    BinOp::And | BinOp::Or => {
                        if !matches!(lt, Type::Bool) {
                            self.error("logical operator requires bool operands".to_string());
                        }
                        Type::Bool
                    },
                    _ => {
                        if !types_compatible(&self.symbols, &lt, &rt) {
                            self.error(versus("type mismatch in arithmetic: ", &lt, &rt));
                        }
                        lt
                    },
                }
            },
            _ => Type::Unit,
        }
    }

    fn check_unary(&mut self, expr: &Expr) -> (ty: Type)
        requires
            old(self).wf(),
        ensures
            final(self).went_on(*old(self)),
            match *expr {
                Expr::Unary { op, .. } => match op {
                    UnOp::Not => ty == Type::Bool,
                    UnOp::Neg => numeric(ty) || last_msg(final(self).errors@, "negation requires numeric type"@),
                    UnOp::BitNot => numeric(ty) || last_msg(final(self).errors@, "bitwise not requires numeric type"@),
                },
                _ => ty == Type::Unit && *final(self) == *old(self),
            },
            *expr is Unary && simple_type(*expr) is Some ==> ty == simple_type(*expr)->0 && final(self).errors@ == old(self).errors@,
            match *expr {
                Expr::Unary { expr: inner, .. } => simple_type(*expr) is Some ==> final(self).type_map.entries()
                    == old(self).type_map.entries() + simple_types(*inner),
                _ => true,
            },
            *expr is Unary && operator_expr(*expr) ==> {
                &&& ty == operator_check(*expr).0
                &&& final(self).errors@.len() == old(self).errors@.len() + operator_check(*expr).1
                &&& final(self).symbols == old(self).symbols
                &&& final(self).current_span == old(self).current_span
            },
        decreases expr, 0nat,
    {
        match expr {
            Expr::Unary { op, expr: inner } => {
                let it = self.check_expr(inner);

                match op {
                    UnOp::Neg => {
                        if !matches!(it, Type::I64 | Type::F32 | Type::F64) {
                            self.error("negation requires numeric type".to_string());
                        }
                        it
                    },
                    UnOp::Not => {
                        if !matches!(it, Type::Bool) {
                            self.error("logical not requires bool".to_string());
                        }
                        Type::Bool
                    },
                    UnOp::BitNot => {
                        if !matches!(it, Type::I64 | Type::F32 | Type::F64) {
                            self.error("bitwise not requires numeric type".to_string());
                        }
                        it
                    },
                }
            },
            _ => Type::Unit,
        }
    }

    /// Arguments of a variant constructor against its field types: the
    /// counts must agree, then each argument must fit its field.
    fn check_ctor_args(&mut self, label: &String, fields: &Vec<Type>, args: &Vec<Expr>) -> (ok: bool)
        requires
            old(self).wf(),
        ensures
            final(self).went_on(*old(self)),
            ok == (args@.len() == fields@.len()),
            !ok ==> final(self).symbols == old(self).symbols && final(self).errors@.drop_last() == old(self).errors@
                && last_msg(final(self).errors@, ""@ + "'"@ + label@ + "'"@ + " expects "@ + decimal(fields@.len() as nat)
                + " arguments, got "@ + decimal(args@.len() as nat)),
        decreases args, 0nat,
    {
        if args.len() != fields.len() {
            let mut m = named_msg("", label.as_str(), " expects ");
            push_decimal(&mut m, fields.len() as u64);
            push_str_chars(&mut m, " arguments, got ");
            push_decimal(&mut m, args.len() as u64);
            self.error(m);
            proof {
                assert(old(self).errors@ =~= self.errors@.drop_last());
            }
            return false;
        }
        let mut k: usize = 0;
        while k < args.len()
            invariant
                k <= args@.len() == fields@.len(),
                self.went_on(*old(self)),
            decreases args@.len() - k,
        {
            proof {
                assert(decreases_to!(args => args@[k as int]));
            }
            let arg_ty = self.check_expr(&args[k]);
            if !types_compatible(&self.symbols, &arg_ty, &fields[k]) {
                let prefix = named_msg("argument type mismatch for ", label.as_str(), ": ");
                self.error(expected_got(prefix.as_str(), &fields[k], &arg_ty));
            }
            k = k + 1;
        }
        true
    }

    fn check_call(&mut self, expr: &Expr) -> (r: (Type, bool))
        requires
            old(self).wf(),
        ensures
            final(self).went_on(*old(self)),
            match *expr {
                Expr::Call { func, args } => match (*func, old(self).symbols.resolves(call_name(*func))) {
                    (Expr::Ident(_), Some(SymEntry { kind: SymKind::EnumConstructor { enum_name, fields, .. }, .. })) =>
                        !r.1 && r.0 == if args@.len() == fields@.len() { Type::Named(enum_name) } else { Type::Unit },
                    _ => r.1,
                },
                _ => r == (Type::Unit, true) && *final(self) == *old(self),
            },
        decreases expr, 0nat,
    {
        match expr {
            Expr::Call { func, args } => {
                let ctor: Option<(String, String, Vec<Type>)> = match &**func {
                    Expr::Ident(name) => match self.symbols.lookup(name.as_str()) {
                        Some(entry) => match &entry.kind {
                            SymKind::EnumConstructor { enum_name, variant_name, fields, .. } => Some(
                                (enum_name.clone(), variant_name.clone(), clone_types(fields)),
                            ),
                            _ => None,
                        },
                        None => None,
                    },
                    _ => None,
                };
                match ctor {
                    Some((enum_name, variant_name, fields)) => {
                        if self.check_ctor_args(&variant_name, &fields, args) {
                            (Type::Named(enum_name), false)
                        } else {
                            (Type::Unit, false)
                        }
                    },
                    None => {
                        let ft = self.check_expr(func);
                        let t = match ft {
                            Type::Fn { params, ret } => {
                                if params.len() > 0 {
                                    if params.len() != args.len() {
                                        self.error(counts_msg("expected ", params.len(), " arguments, got ", args.len()));
                                    }
                                    self.check_args_against(&params, args);
                                } else {
                                    let _ = self.check_exprs(args);
                                }
                                *ret
                            },
                            Type::Unit => {
                                let _ = self.check_exprs(args);
                                Type::Unit
                            },
                            _ => {
                                let _ = self.check_exprs(args);
                                self.error("calling non-function type".to_string());
                                Type::Unit
                            },
                        };
                        (t, true)
                    },
                }
            },
            _ => (Type::Unit, true),
        }
    }

    /// Each argument against the parameter type at its position, where there
    /// is one: `argument <i> type mismatch: expected '<t>', got '<u>'`.
    fn check_args_against(&mut self, params: &Vec<Type>, args: &Vec<Expr>)
        requires
            old(self).wf(),
        ensures
            final(self).went_on(*old(self)),
        decreases args, 0nat,
    {
        let mut k: usize = 0;
        while k < args.len()
            invariant
                k <= args@.len(),
                self.went_on(*old(self)),
            decreases args@.len() - k,
        {
            proof {
                assert(decreases_to!(args => args@[k as int]));
            }
            let arg_ty = self.check_expr(&args[k]);
            if k < params.len() {
                if !types_compatible(&self.symbols, &arg_ty, &params[k]) {
                    let mut prefix = String::new();
                    push_str_chars(&mut prefix, "argument ");
                    push_decimal(&mut prefix, k as u64);
                    push_str_chars(&mut prefix, " type mismatch: ");
                    self.error(expected_got(prefix.as_str(), &params[k], &arg_ty));
                }
            }
            k = k + 1;
        }
    }

    fn check_enum_ctor(&mut self, expr: &Expr) -> (r: (Type, bool))
        requires
            old(self).wf(),
        ensures
            final(self).went_on(*old(self)),
            match *expr {
                Expr::EnumCtor { enum_name, variant_name, args } => match old(self).symbols.resolves(
                    enum_name@ + "::"@ + variant_name@,
                ) {
                    Some(SymEntry { kind: SymKind::EnumConstructor { fields, .. }, .. }) => !r.1 && r.0
                        == if args@.len() == fields@.len() { Type::Named(enum_name) } else { Type::Unit },
                    _ => r == (Type::Unit, true) && last_msg(final(self).errors@,
                        "no enum constructor "@ + "'"@ + enum_name@ + "::"@ + variant_name@ + "'"@ + ""@),
                },
                _ => r == (Type::Unit, true) && *final(self) == *old(self),
            },
        decreases expr, 0nat,
    {
        match expr {
            Expr::EnumCtor { enum_name, variant_name, args } => {
                let q = qualified(enum_name, variant_name);
                let fields: Option<Vec<Type>> = match self.symbols.lookup(q.as_str()) {
                    Some(entry) => match &entry.kind {
                        SymKind::EnumConstructor { fields, .. } => Some(clone_types(fields)),
                        _ => None,
                    },
                    None => None,
                };
                match fields {
                    Some(fields) => {
                        if args.len() != fields.len() {
                            let mut m = named_msg("", q.as_str(), " expects ");
                            push_decimal(&mut m, fields.len() as u64);
                            push_str_chars(&mut m, " arguments, got ");
                            push_decimal(&mut m, args.len() as u64);
                            self.error(m);
                            let _ = self.check_exprs(args);
                            return (Type::Unit, false);
                        }
                        let _ = self.check_ctor_args(&q, &fields, args);
                        (Type::Named(enum_name.clone()), false)
                    },
                    None => {
                        let _ = self.check_exprs(args);
                        self.error(named_msg("no enum constructor ", q.as_str(), ""));
                        proof {
                            assert("no enum constructor "@ + "'"@ + q@ + "'"@ + ""@ =~= "no enum constructor "@ + "'"@ + enum_name@
                                + "::"@ + variant_name@ + "'"@ + ""@);
                        }
                        (Type::Unit, true)
                    },
                }
            },
            _ => (Type::Unit, true),
        }
    }

    fn check_method_call(&mut self, expr: &Expr) -> (ty: Type)
        requires
            old(self).wf(),
        ensures
            final(self).went_on(*old(self)),
            !(*expr is MethodCall) ==> ty == Type::Unit && *final(self) == *old(self),
        decreases expr, 0nat,
    {
        match expr {
            Expr::MethodCall { obj, method, args } => {
                let obj_ty = self.check_expr(obj);
                match &obj_ty {
                    Type::Named(struct_name) => {
                        let q = qualified(struct_name, method);
                        let info: Option<Option<(Type, Vec<Type>)>> = match self.symbols.lookup(q.as_str()) {
                            Some(entry) => match &entry.kind {
                                SymKind::Function(sig) => {
                                    let has_self = sig.params.len() > 0 && is_word(&sig.params[0].0, "self");
                                    let mut tys: Vec<Type> = Vec::new();
                                    let mut i: usize = if has_self { 1 } else { 0 };
                                    while i < sig.params.len()
                                        invariant
                                            i <= sig.params@.len(),
                                        decreases sig.params@.len() - i,
                                    {
                                        tys.push(sig.params[i].1.clone());
                                        i = i + 1;
                                    }
                                    let ret = match &sig.return_type {
                                        Some(t) => t.clone(),
                                        None => Type::Unit,
                                    };
                                    Some(Some((ret, tys)))
                                },
                                _ => Some(None),
                            },
                            None => None,
                        };
                        match info {
                            Some(Some((ret_ty, param_tys))) => {
                                if args.len() != param_tys.len() {
                                    let mut m = named_msg("method ", q.as_str(), " expects ");
                                    push_decimal(&mut m, param_tys.len() as u64);
                                    push_str_chars(&mut m, " argument(s), got ");
                                    push_decimal(&mut m, args.len() as u64);
                                    self.error(m);
                                }
                                self.check_method_args(&q, &param_tys, args);
                                ret_ty
                            },
                            Some(None) => {
                                self.error(named_msg("", q.as_str(), " is not a function"));
                                Type::Unit
                            },
                            None => {
                                let mut m = named_msg("no method named ", method.as_str(), " on struct ");
                                push_str_chars(&mut m, "'");
                                push_str_chars(&mut m, struct_name.as_str());
                                push_str_chars(&mut m, "'");
                                self.error(m);
                                Type::Unit
                            },
                        }
                    },
                    Type::Unit => {
                        let _ = self.check_exprs(args);
                        Type::Unit
                    },
                    _ => {
                        let _ = self.check_exprs(args);
                        let mut m = String::new();
                        push_str_chars(&mut m, "cannot call method on type '");
                        push_type_name(&mut m, &obj_ty);
                        push_str_chars(&mut m, "'");
                        self.error(m);
                        Type::Unit
                    },
                }
            },
            _ => Type::Unit,
        }
    }

    fn check_method_args(&mut self, q: &String, params: &Vec<Type>, args: &Vec<Expr>)
        requires
            old(self).wf(),
        ensures
            final(self).went_on(*old(self)),
        decreases args, 0nat,
    {
        let mut k: usize = 0;
        while k < args.len()
            invariant
                k <= args@.len(),
                self.went_on(*old(self)),
            decreases args@.len() - k,
        {
            proof {
                assert(decreases_to!(args => args@[k as int]));
            }
            let arg_ty = self.check_expr(&args[k]);
            if k < params.len() {
                if !types_compatible(&self.symbols, &arg_ty, &params[k]) {
                    let mut prefix = String::new();
                    push_str_chars(&mut prefix, "argument ");
                    push_decimal(&mut prefix, k as u64);
                    push_str_chars(&mut prefix, " type mismatch for '");
                    push_str_chars(&mut prefix, q.as_str());
                    push_str_chars(&mut prefix, "': ");
                    self.error(expected_got(prefix.as_str(), &params[k], &arg_ty));
                }
            }
            k = k + 1;
        }
    }

    fn check_field(&mut self, expr: &Expr) -> (ty: Type)
        requires
            old(self).wf(),
        ensures
            final(self).went_on(*old(self)),
            !(*expr is Field) ==> ty == Type::Unit && *final(self) == *old(self),
        decreases expr, 0nat,
    {
        match expr {
            Expr::Field { obj, field } => {
                let obj_ty = self.check_expr(obj);
                match &obj_ty {
                    Type::Named(struct_name) => {
                        let found: Option<Option<Option<Type>>> = match self.symbols.lookup(struct_name.as_str()) {
                            Some(entry) => match &entry.kind {
                                SymKind::Struct(def) => Some(Some(field_type(&def.fields, field))),
                                _ => Some(None),
                            },
                            None => None,
                        };
                        match found {
                            Some(Some(Some(t))) => t,
                            Some(Some(None)) => {
                                let mut m = named_msg("struct ", struct_name.as_str(), " has no field ");
                                push_str_chars(&mut m, "'");
                                push_str_chars(&mut m, field.as_str());
                                push_str_chars(&mut m, "'");
                                self.error(m);
                                Type::Unit
                            },
                            Some(None) => {
                                self.error(named_msg("", struct_name.as_str(), " is not a struct"));
                                Type::Unit
                            },
                            None => {
                                self.error(named_msg("undefined struct ", struct_name.as_str(), ""));
                                Type::Unit
                            },
                        }
                    },
                    Type::Unit => Type::Unit,
                    _ => {
                        let mut m = String::new();
                        push_str_chars(&mut m, "cannot access field on type '");
                        push_type_name(&mut m, &obj_ty);
                        push_str_chars(&mut m, "'");
                        self.error(m);
                        Type::Unit
                    },
                }
            },
            _ => Type::Unit,
        }
    }

    /// A block in a scope of its own; its value is that of a final expression.
    fn check_block(&mut self, stmts: &Vec<Spanned<Stmt>>) -> (ty: Type)
        requires
            old(self).wf(),
        ensures
            final(self).went_on(*old(self)),
            stmts@.len() == 0 || !(stmts@.last().node is Expr) ==> ty == Type::Unit,
        decreases stmts, 2nat,
    {
        self.symbols.enter_scope();
        let ghost inner = *self;
        self.check_stmts(stmts, None);
        let n = stmts.len();
        let result = if n > 0 {
            proof {
                assert(decreases_to!(stmts => stmts@[n - 1].node));
            }
            match &stmts[n - 1].node {
                Stmt::Expr(e) => self.check_expr(e),
                _ => Type::Unit,
            }
        } else {
            Type::Unit
        };
        self.symbols.exit_scope();
        proof {
            self.lemma_back_out(*old(self), inner);
        }
        result
    }

    fn check_if(&mut self, expr: &Expr) -> (ty: Type)
        requires
            old(self).wf(),
        ensures
            final(self).went_on(*old(self)),
            match *expr {
                Expr::If { else_, .. } => else_ is None ==> ty == Type::Unit,
                _ => ty == Type::Unit && *final(self) == *old(self),
            },
        decreases expr, 0nat,
    {
        match expr {
            Expr::If { cond, then, else_ } => {
                let ct = self.check_expr(cond);
                if !matches!(ct, Type::Bool | Type::Unit) {
                    self.error("if condition must be bool".to_string());
                }
                let tt = self.check_expr(then);
                match else_ {
                    Some(e) => {
                        let et = self.check_expr(e);
                        if types_compatible(&self.symbols, &tt, &et) {
                            tt
                        } else {
                            self.error("if/else branches must have compatible types".to_string());
                            Type::Unit
                        }
                    },
                    None => Type::Unit,
                }
            },
            _ => Type::Unit,
        }
    }

    /// A `for` loop: the variable gets the type of a range's start, of an
    /// array's elements, `str` over a string, `()` otherwise, in a scope of
    /// its own for the body.
    fn check_for(&mut self, expr: &Expr) -> (ty: Type)
        requires
            old(self).wf(),
        ensures
            final(self).went_on(*old(self)),
            ty == Type::Unit,
            !(*expr is For) ==> *final(self) == *old(self),
        decreases expr, 0nat,
    {
        match expr {
            Expr::For { var, iter, body } => {
                let iter_ty = self.check_expr(iter);
                let ghost start = *self;
                self.symbols.enter_scope();
                let ghost inner = *self;
                let loop_ty = match &**iter {
                    Expr::Range { start, .. } => self.check_expr(start),
                    _ => match iter_ty {
                        Type::Array(inner_ty) => *inner_ty,
                        Type::Str => Type::Str,
                        _ => Type::Unit,
                    },
                };
                self.rebind(var, loop_ty);
                let _ = self.check_expr(body);
                self.symbols.exit_scope();
                proof {
                    self.lemma_back_out(start, inner);
                }
                Type::Unit
            },
            _ => Type::Unit,
        }
    }

    fn check_struct_lit(&mut self, expr: &Expr) -> (ty: Type)
        requires
            old(self).wf(),
        ensures
            final(self).went_on(*old(self)),
            match *expr {
                Expr::StructLit { name, .. } => {
                    &&& ty == Type::Named(name)
                    &&& old(self).symbols.resolves(name@) is None ==> final(self).errors@.drop_last() == old(self).errors@
                        && last_msg(final(self).errors@, "undefined struct "@ + "'"@ + name@ + "'"@ + ""@)
                    &&& (old(self).symbols.resolves(name@) is Some && !(old(self).symbols.resolves(name@)->0.kind is Struct))
                        ==> final(self).errors@.drop_last() == old(self).errors@
                        && last_msg(final(self).errors@, ""@ + "'"@ + name@ + "'"@ + " is not a struct"@)
                },
                _ => ty == Type::Unit && *final(self) == *old(self),
            },
        decreases expr, 0nat,
    {
        match expr {
            Expr::StructLit { name, fields, spread } => {
                let def_fields: Option<Option<Vec<StructField>>> = match self.symbols.lookup(name.as_str()) {
                    Some(entry) => match &entry.kind {
                        SymKind::Struct(def) => Some(Some(def.fields.clone())),
                        _ => Some(None),
                    },
                    None => None,
                };
                match def_fields {
                    Some(Some(dfs)) => {
                        self.check_lit_fields(name, &dfs, fields);
                        match spread {
                            Some(s) => {
                                let spread_ty = self.check_expr(s);
                                let expected = Type::Named(name.clone());
                                if !types_equal(&spread_ty, &expected) {
                                    let mut m = String::new();
                                    push_str_chars(&mut m, "spread expression has type '");
                                    push_type_name(&mut m, &spread_ty);
                                    push_str_chars(&mut m, "' but expected struct '");
                                    push_str_chars(&mut m, name.as_str());
                                    push_str_chars(&mut m, "'");
                                    self.error(m);
                                }
                            },
                            None => {},
                        }
                    },
                    Some(None) => self.error(named_msg("", name.as_str(), " is not a struct")),
                    None => self.error(named_msg("undefined struct ", name.as_str(), "")),
                }
                Type::Named(name.clone())
            },
            _ => Type::Unit,
        }
    }

    /// The fields of a struct literal: each must be a field of the struct.
    fn check_lit_fields(&mut self, name: &String, defs: &Vec<StructField>, fields: &Vec<(String, Expr)>)
        requires
            old(self).wf(),
        ensures
            final(self).went_on(*old(self)),
            forall|k: int| 0 <= k < fields@.len() && !has_field(defs@, #[trigger] fields@[k].0@) ==> exists|w: int|
                old(self).errors@.len() <= w < final(self).errors@.len() && #[trigger] no_field_msg(final(self).errors@[w], name@,
                    fields@[k].0@),
        decreases fields, 0nat,
    {
        let mut k: usize = 0;
        while k < fields.len()
            invariant
                k <= fields@.len(),
                self.went_on(*old(self)),
                forall|j: int| 0 <= j < k && !has_field(defs@, #[trigger] fields@[j].0@) ==> exists|w: int|
                    old(self).errors@.len() <= w < self.errors@.len() && #[trigger] no_field_msg(self.errors@[w], name@,
                        fields@[j].0@),
            decreases fields@.len() - k,
        {
            proof {
                assert(decreases_to!(fields => fields@[k as int].1));
            }
            let ghost e0 = *self;
            if field_type(defs, &fields[k].0).is_none() {
                let mut m = named_msg("struct ", name.as_str(), " has no field ");
                push_str_chars(&mut m, "'");
                push_str_chars(&mut m, fields[k].0.as_str());
                push_str_chars(&mut m, "'");
                self.error(m);
                proof {
                    let w = self.errors@.len() - 1;
                    assert(no_field_msg(self.errors@[w], name@, fields@[k as int].0@));
                }
            }
            let ghost e1 = *self;
            let _ = self.check_expr(&fields[k].1);
            proof {
                assert forall|j: int| 0 <= j < k + 1 && !has_field(defs@, #[trigger] fields@[j].0@) implies exists|w: int|
                    old(self).errors@.len() <= w < self.errors@.len() && #[trigger] no_field_msg(self.errors@[w], name@,
                        fields@[j].0@) by {
                    if j < k {
                        let w = choose|w: int| old(self).errors@.len() <= w < e0.errors@.len() && #[trigger] no_field_msg(e0.errors@[w], name@,
                            fields@[j].0@);
                        assert(e1.errors@[w] == e0.errors@[w]);
                        assert(self.errors@[w] == e1.errors@[w]);
                    } else {
                        let w = e1.errors@.len() - 1;
                        assert(no_field_msg(e1.errors@[w], name@, fields@[j].0@));
                        assert(self.errors@[w] == e1.errors@[w]);
                    }
                }
            }
            k = k + 1;
        }
    }

    /// A closure: its parameters (typed `()` when unannotated) in a scope of
    /// their own; its type is a function type.
    fn check_lambda(&mut self, expr: &Expr) -> (ty: Type)
        requires
            old(self).wf(),
        ensures
            final(self).went_on(*old(self)),
            match *expr {
                Expr::Lambda { params, .. } => ty matches Type::Fn { params: ps, .. } && ps@.len() == params@.len()
                    && forall|i: int| 0 <= i < ps@.len() ==> #[trigger] annotated(params@[i].type_ann, ps@[i]),
                _ => ty == Type::Unit && *final(self) == *old(self),
            },
        decreases expr, 0nat,
    {
        match expr {
            Expr::Lambda { params, body, .. } => {
                self.symbols.enter_scope();
                let ghost inner = *self;
                let mut tys: Vec<Type> = Vec::new();
                let mut k: usize = 0;
                while k < params.len()
                    invariant
                        k <= params@.len(),
                        self.went_on(inner),
                        tys@.len() == k,
                        forall|i: int| 0 <= i < k ==> #[trigger] annotated(params@[i].type_ann, tys@[i]),
                    decreases params@.len() - k,
                {
                    let ty = match &params[k].type_ann {
                        Some(t) => t.clone(),
                        None => Type::Unit,
                    };
                    let var_ty = ty.clone();
                    tys.push(ty);
                    self.define_if_new(&params[k].name, SymKind::Variable(var_ty));
                    k = k + 1;
                }
                let ret = self.check_expr(body);
                self.symbols.exit_scope();
                proof {
                    self.lemma_back_out(*old(self), inner);
                }
                Type::Fn { params: tys, ret: Box::new(ret) }
            },
            _ => Type::Unit,
        }
    }
}

/// The type of the field called `name`, if the struct has one.
fn field_type(fields: &Vec<StructField>, name: &String) -> (r: Option<Type>)
    ensures
        r is Some <==> exists|i: int| 0 <= i < fields@.len() && fields@[i].name@ == name@,
{
    let mut k: usize = 0;
    while k < fields.len()
        invariant
            k <= fields@.len(),
            forall|i: int| 0 <= i < k ==> fields@[i].name@ != name@,
        decreases fields@.len() - k,
    {
        if fields[k].name == *name {
            return Some(fields[k].type_ann.clone());
        }
        k = k + 1;
    }
    None
}

/// Whether `names` holds `name`.
fn holds_name(names: &Vec<String>, name: &String) -> (b: bool)
    ensures
        b == exists|i: int| 0 <= i < names@.len() && names@[i]@ == name@,
{
    let mut k: usize = 0;
    while k < names.len()
        invariant
            k <= names@.len(),
            forall|i: int| 0 <= i < k ==> names@[i]@ != name@,
        decreases names@.len() - k,
    {
        if names[k] == *name {
            return true;
        }
        k = k + 1;
    }
    false
}

/// The field types of the variant called `name`, if the enum has one.
fn variant_fields(def: &EnumDef, name: &String) -> (r: Option<Vec<Type>>)
    ensures
        match r {
            Some(v) => exists|k: int| 0 <= k < def.variants@.len() && #[trigger] def.variants@[k].0@ == name@
                && (forall|j: int| 0 <= j < k ==> def.variants@[j].0@ != name@)
                && types_same(def.variants@[k].1@, v@),
            None => forall|k: int| 0 <= k < def.variants@.len() ==> #[trigger] def.variants@[k].0@ != name@,
        },
{
    let mut k: usize = 0;
    while k < def.variants.len()
        invariant
            k <= def.variants@.len(),
            forall|j: int| 0 <= j < k ==> #[trigger] def.variants@[j].0@ != name@,
        decreases def.variants@.len() - k,
    {
        if def.variants[k].0 == *name {
            return Some(clone_types(&def.variants[k].1));
        }
        k = k + 1;
    }
    None
}

impl TypeChecker {
    /// A `match`: the arms are checked against the enum being matched (when
    /// it is one), must cover all its variants unless one arm catches
    /// everything, and must have compatible types; the match has the type of
    /// the first arm.
    fn check_match(&mut self, expr: &Expr) -> (ty: Type)
        requires
            old(self).wf(),
        ensures
            final(self).went_on(*old(self)),
            match *expr {
                Expr::Match { arms, .. } => arms@.len() == 0 ==> ty == Type::Unit,
                _ => ty == Type::Unit && *final(self) == *old(self),
            },
        decreases expr, 0nat,
    {
        match expr {
            Expr::Match { expr: target, arms } => {
                let mt = self.check_expr(target);
                let enum_name: Option<String> = match &mt {
                    Type::Named(n) => Some(n.clone()),
                    Type::Result(_, _) => Some("Result".to_string()),
                    Type::Option(_) => Some("Option".to_string()),
                    _ => None,
                };
                let enum_def: Option<EnumDef> = match enum_name {
                    Some(n) => match self.symbols.lookup(n.as_str()) {
                        Some(entry) => match &entry.kind {
                            SymKind::Enum(def) => Some(def.clone()),
                            _ => None,
                        },
                        None => None,
                    },
                    None => None,
                };
                let arm_types = self.check_arms(arms, &mt, &enum_def);
                match &enum_def {
                    Some(def) => self.check_exhaustive(def, arms),
                    None => {},
                }
                let first = if arm_types.len() > 0 { arm_types[0].clone() } else { Type::Unit };
                let mut k: usize = 0;
                while k < arm_types.len()
                    invariant
                        k <= arm_types@.len(),
                        self.went_on(*old(self)),
                    decreases arm_types@.len() - k,
                {
                    if !types_compatible(&self.symbols, &first, &arm_types[k]) {
                        self.error("match arms must have compatible types".to_string());
                    }
                    k = k + 1;
                }
                first
            },
            _ => Type::Unit,
        }
    }

    fn check_arms(&mut self, arms: &Vec<MatchArm>, mt: &Type, enum_def: &Option<EnumDef>) -> (tys: Vec<Type>)
        requires
            old(self).wf(),
        ensures
            final(self).went_on(*old(self)),
            tys@.len() == arms@.len(),
        decreases arms, 1nat,
    {
        let mut tys: Vec<Type> = Vec::new();
        let mut k: usize = 0;
        while k < arms.len()
            invariant
                k <= arms@.len(),
                tys@.len() == k,
                self.went_on(*old(self)),
            decreases arms@.len() - k,
        {
            proof {
                assert(decreases_to!(arms => arms@[k as int]));
            }
            let t = self.check_arm(&arms[k], mt, enum_def);
            tys.push(t);
            k = k + 1;
        }
        tys
    }

    /// One arm: a pattern that binds names gets a scope of its own. Bindings
    /// of an enum variant take its field types (for `Ok`, `Err` and `Some`
    /// those of the matched `Result` or `Option`); their number must be the
    /// number of fields. The arm's type is its body's.
    fn check_arm(&mut self, arm: &MatchArm, mt: &Type, enum_def: &Option<EnumDef>) -> (ty: Type)
        requires
            old(self).wf(),
        ensures
            final(self).went_on(*old(self)),
            literal_type(*arm.body) matches Some(t) ==> ty == t,
        decreases arm, 0nat,
    {
        let enters = match &arm.pattern {
            Pattern::Ident(_) | Pattern::EnumVariant { .. } => true,
            _ => false,
        };
        let ghost start = *self;
        if enters {
            self.symbols.enter_scope();
        }
        let ghost inner = *self;
        match &arm.pattern {
            Pattern::Ident(name) => self.define_if_new(name, SymKind::Variable(Type::Unit)),
            Pattern::EnumVariant { variant_name, bindings, .. } => {
                match enum_def {
                    Some(def) => match variant_fields(def, variant_name) {
                        Some(field_types) => {
                            if bindings.len() != field_types.len() {
                                let mut m = named_msg("", variant_name.as_str(), " has ");
                                push_decimal(&mut m, field_types.len() as u64);
                                push_str_chars(&mut m, " fields, but pattern has ");
                                push_decimal(&mut m, bindings.len() as u64);
                                push_str_chars(&mut m, " bindings");
                                self.error(m);
                            }
                            self.bind_variant_fields(variant_name, bindings, &field_types, mt);
                        },
                        None => self.error(named_msg("", variant_name.as_str(), " is not a variant of this enum")),
                    },
                    None => {
                        if matches!(mt, Type::Unit) {
                            let mut b: usize = 0;
                            while b < bindings.len()
                                invariant
                                    b <= bindings@.len(),
                                    self.went_on(inner),
                                decreases bindings@.len() - b,
                            {
                                if bindings[b].as_str().as_bytes().len() > 0 {
                                    self.rebind_defined(&bindings[b], Type::Unit);
                                }
                                b = b + 1;
                            }
                        } else {
                            self.error("cannot match enum variant on non-enum type".to_string());
                        }
                    },
                }
            },
            _ => {},
        }
        match &arm.guard {
            Some(g) => {
                let _ = self.check_expr(g);
            },
            None => {},
        }
        let t = self.check_expr(&arm.body);
        if enters {
            self.symbols.exit_scope();
            proof {
                self.lemma_back_out(start, inner);
            }
        }
        t
    }

    /// Remove `name` from the current scope and define it again as a
    /// variable of type `ty`.
    fn rebind_defined(&mut self, name: &String, ty: Type)
        requires
            old(self).wf(),
        ensures
            final(self).went_on(*old(self)),
            final(self).errors@ == old(self).errors@,
            final(self).current_span == old(self).current_span,
            entry_set(old(self).symbols, final(self).symbols, name@,
                Some(SymEntry { id: old(self).symbols.symbols@.len() as usize, kind: SymKind::Variable(ty) })),
    {
        let _ = self.symbols.remove_from_current_scope(name.as_str());
        let ghost mid = self.symbols;
        let _ = self.symbols.define(name.as_str(), SymKind::Variable(ty));
        proof {
            let cur = mid.current_scope as int;
            let bs = mid.scopes@[cur].symbols@;
            let fs = self.symbols.scopes@[cur].symbols@;
            assert forall|n: Seq<char>| #[trigger] entry_of(fs, n)
                == if n == name@ { Some(SymEntry { id: mid.symbols@.len() as usize, kind: SymKind::Variable(ty) }) } else { entry_of(bs, n) } by {
                assert(fs.drop_last() =~= bs);
            }
        }
    }

    /// Give each non-`_` binding of a variant pattern its field's type.
    fn bind_variant_fields(&mut self, variant_name: &String, bindings: &Vec<String>, field_types: &Vec<Type>, mt: &Type)
        requires
            old(self).wf(),
        ensures
            final(self).went_on(*old(self)),
            forall|i: int| 0 <= i < bindings@.len() && encode_utf8(bindings@[i]@).len() > 0 ==> entry_of(
                final(self).symbols.scopes@[old(self).symbols.current_scope as int].symbols@,
                #[trigger] bindings@[i]@,
            ) matches Some(SymEntry { kind: SymKind::Variable(_), .. }),
    {
        let mut i: usize = 0;
        while i < bindings.len()
            invariant
                i <= bindings@.len(),
                self.went_on(*old(self)),
                forall|b: int| 0 <= b < i && encode_utf8(bindings@[b]@).len() > 0 ==> entry_of(
                    self.symbols.scopes@[old(self).symbols.current_scope as int].symbols@,
                    #[trigger] bindings@[b]@,
                ) matches Some(SymEntry { kind: SymKind::Variable(_), .. }),
            decreases bindings@.len() - i,
        {
            if bindings[i].as_str().as_bytes().len() > 0 {
                let from_field = if i < field_types.len() { field_types[i].clone() } else { Type::Unit };
                let ty = match mt {
                    Type::Result(ok, err) => {
                        if is_word(variant_name, "Ok") {
                            (**ok).clone()
                        } else if is_word(variant_name, "Err") {
                            (**err).clone()
                        } else {
                            from_field
                        }
                    },
                    Type::Option(some) => {
                        if is_word(variant_name, "Some") {
                            (**some).clone()
                        } else {
                            from_field
                        }
                    },
                    _ => from_field,
                };
                self.rebind_defined(&bindings[i], ty);
            }
            i = i + 1;
        }
    }

    /// Every variant of the enum must be covered by an arm, unless an arm
    /// catches everything (`_`, or a name that is no field-less variant).
    fn check_exhaustive(&mut self, def: &EnumDef, arms: &Vec<MatchArm>)
        requires
            old(self).wf(),
        ensures
            final(self).went_on(*old(self)),
            final(self).symbols == old(self).symbols,
            final(self).errors@.take(old(self).errors@.len() as int) == old(self).errors@,
            has_catch_all(def, arms@) ==> final(self).errors@ == old(self).errors@,
            !has_catch_all(def, arms@) ==> {
                &&& forall|v: int| 0 <= v < def.variants@.len() && !variant_covered(def, arms@, def.variants@[v].0@)
                    ==> #[trigger] reported_in(final(self).errors@, old(self).errors@.len() as int, def.variants@[v].0@)
                &&& forall|j: int| old(self).errors@.len() <= j < final(self).errors@.len()
                    ==> #[trigger] reported(def, arms@, final(self).errors@[j])
            },
    {
        let mut covered: Vec<String> = Vec::new();
        let mut has_wildcard = false;
        let mut k: usize = 0;
        while k < arms.len()
            invariant
                k <= arms@.len(),
                has_wildcard == catch_all_upto(def, arms@, k as int),
                forall|n: Seq<char>| #[trigger] in_names(covered@, n) == covered_upto(def, arms@, k as int, n),
            decreases arms@.len() - k,
        {
            let ghost c0 = covered@;
            let ghost w0 = has_wildcard;
            match &arms[k].pattern {
                Pattern::EnumVariant { variant_name, .. } => {
                    if !holds_name(&covered, variant_name) {
                        covered.push(variant_name.clone());
                    }
                },
                Pattern::Ident(name) => {
                    let mut is_unit_variant = false;
                    let mut v: usize = 0;
                    while v < def.variants.len()
                        invariant
                            v <= def.variants@.len(),
                            is_unit_variant == unit_upto(def, v as int, name@),
                        decreases def.variants@.len() - v,
                    {
                        proof {
                            lemma_unit_upto_step(def, v as int, name@);
                        }
                        if def.variants[v].1.len() == 0 && def.variants[v].0 == *name {
                            is_unit_variant = true;
                        }
                        v = v + 1;
                    }
                    if is_unit_variant {
                        if !holds_name(&covered, name) {
                            covered.push(name.clone());
                        }
                    } else {
                        has_wildcard = true;
                    }
                },
                Pattern::Wildcard => {
                    has_wildcard = true;
                },
                _ => {},
            }
            proof {
                lemma_catch_all_upto_step(def, arms@, k as int);
                assert forall|n: Seq<char>| #[trigger] in_names(covered@, n) == covered_upto(def, arms@, k + 1, n) by {
                    lemma_covered_upto_step(def, arms@, k as int, n);
                    assert(in_names(c0, n) == covered_upto(def, arms@, k as int, n));
                    if covered@.len() > c0.len() {
                        lemma_in_names_push(c0, covered@.last(), n);
                        assert(covered@ == c0.push(covered@.last()));
                    }
                }
            }
            k = k + 1;
        }
        if !has_wildcard {
            let mut v: usize = 0;
            while v < def.variants.len()
                invariant
                    v <= def.variants@.len(),
                    self.went_on(*old(self)),
                    self.symbols == old(self).symbols,
                    !has_catch_all(def, arms@),
                    self.errors@.take(old(self).errors@.len() as int) == old(self).errors@,
                    forall|n: Seq<char>| #[trigger] in_names(covered@, n) == variant_covered(def, arms@, n),
                    forall|w: int| 0 <= w < v && !variant_covered(def, arms@, def.variants@[w].0@)
                        ==> #[trigger] reported_in(self.errors@, old(self).errors@.len() as int, def.variants@[w].0@),
                    forall|j: int| old(self).errors@.len() <= j < self.errors@.len()
                        ==> #[trigger] reported(def, arms@, self.errors@[j]),
                decreases def.variants@.len() - v,
            {
                let ghost e0 = self.errors@;
                proof {
                    assert(in_names(covered@, def.variants@[v as int].0@) == variant_covered(def, arms@, def.variants@[v as int].0@));
                }
                if !holds_name(&covered, &def.variants[v].0) {
                    self.error(named_msg("non-exhaustive match: missing variant ", def.variants[v].0.as_str(), ""));
                    proof {
                        assert(self.errors@.take(old(self).errors@.len() as int) =~= old(self).errors@) by {
                            assert(self.errors@.drop_last() == e0);
                            assert(e0.take(old(self).errors@.len() as int) == old(self).errors@);
                        }
                        let last = self.errors@.len() - 1;
                        let n = def.variants@[v as int].0@;
                        assert(missing_msg(self.errors@[last], n));
                        assert(reported(def, arms@, self.errors@[last]));
                        assert forall|j: int| old(self).errors@.len() <= j < self.errors@.len()
                            implies #[trigger] reported(def, arms@, self.errors@[j]) by {
                            if j < last {
                                assert(self.errors@[j] == e0[j]);
                                assert(reported(def, arms@, e0[j]));
                            }
                        }
                        assert forall|w: int| 0 <= w < v + 1 && !variant_covered(def, arms@, def.variants@[w].0@)
                            implies #[trigger] reported_in(self.errors@, old(self).errors@.len() as int, def.variants@[w].0@) by {
                            let m = def.variants@[w].0@;
                            if w < v {
                                assert(reported_in(e0, old(self).errors@.len() as int, m));
                                let j = choose|j: int| old(self).errors@.len() <= j < e0.len() && #[trigger] missing_msg(e0[j], m);
                                assert(self.errors@[j] == e0[j]);
                                assert(missing_msg(self.errors@[j], m));
                            } else {
                                assert(missing_msg(self.errors@[last], m));
                            }
                        }
                    }
                }
                v = v + 1;
            }
        }
    }
}

/// Check a resolved program against its symbol table, which the checker
/// refines (variables get the types of their values). The types of the
/// expressions when no error was found; every type error otherwise.
/// A statement that type-checks without error wherever it stands: an
/// expression statement of a literal, a `let` or `const` without a declared
/// type whose value, if any, is a literal, or a declaration that holds no code.
pub open spec fn stmt_simple(s: Stmt) -> bool {
    match s {
        Stmt::Expr(e) => simple_type(e) is Some,
        Stmt::Let { type_ann, init, .. } => type_ann is None && match init {
            Some(e) => simple_type(e) is Some,
            None => true,
        },
        Stmt::Const { type_ann, init, .. } => type_ann is None && simple_type(init) is Some,
        Stmt::Struct { .. } | Stmt::Enum { .. } | Stmt::Trait { .. } | Stmt::Use { .. } | Stmt::Type { .. } => true,
        _ => false,
    }
}

pub fn check(program: &Program, symbols: &mut SymbolTable) -> (r: Result<TypeMap, Error>)
    requires
        old(symbols).wf(),
    ensures
        final(symbols).wf(),
        program.stmts@.len() == 0 ==> (r matches Ok(m) && m.entries().len() == 0) && *final(symbols) == *old(symbols),
        (forall|i: int| 0 <= i < program.stmts@.len() ==> stmt_simple(#[trigger] program.stmts@[i].node))
            ==> (r matches Ok(m) && m.entries() == program_types(program.stmts@)),
        (forall|i: int| 0 <= i < program.stmts@.len() ==> operator_stmt(#[trigger] program.stmts@[i].node)) ==> {
            &&& (r is Ok <==> program_faults(program.stmts@) == 0)
            &&& r matches Err(Error::ParseMultiple { errors }) ==> errors@.len() == program_faults(program.stmts@)
        },
        match r {
            Ok(_) => true,
            Err(e) => e matches Error::ParseMultiple { errors } && errors@.len() > 0
                && forall|i: int| 0 <= i < errors@.len() ==> (#[trigger] errors@[i]) is TypeError,
        },
{
    let mut table = SymbolTable::new();
    std::mem::swap(&mut table, symbols);
    let mut checker = TypeChecker { symbols: table, type_map: TypeMap::new(), errors: Vec::new(), current_span: Span::new(0, 0) };
    let mut k: usize = 0;
    while k < program.stmts.len()
        invariant
            k <= program.stmts@.len(),
            checker.wf(),
            program.stmts@.len() == 0 ==> checker.symbols == *old(symbols) && checker.errors@.len() == 0
                && checker.type_map.entries().len() == 0,
            (forall|i: int| 0 <= i < program.stmts@.len() ==> stmt_simple(#[trigger] program.stmts@[i].node))
                ==> checker.errors@.len() == 0
                    && checker.type_map.entries() == program_types(program.stmts@.take(k as int)),
            (forall|i: int| 0 <= i < program.stmts@.len() ==> operator_stmt(#[trigger] program.stmts@[i].node))
                ==> checker.symbols == *old(symbols)
                    && checker.errors@.len() == program_faults(program.stmts@.take(k as int)),
        decreases program.stmts@.len() - k,
    {
        proof {
            if forall|i: int| 0 <= i < program.stmts@.len() ==> stmt_simple(#[trigger] program.stmts@[i].node) {
                assert(stmt_simple(program.stmts@[k as int].node));
            }
            assert(program.stmts@.take(k as int + 1).drop_last() =~= program.stmts@.take(k as int));
            if forall|i: int| 0 <= i < program.stmts@.len() ==> operator_stmt(#[trigger] program.stmts@[i].node) {
                assert(operator_stmt(program.stmts@[k as int].node));
            }
        }
        checker.current_span = program.stmts[k].span;
        checker.check_stmt(&program.stmts[k].node, None);
        k = k + 1;
    }
    std::mem::swap(symbols, &mut checker.symbols);
    proof {
        assert(program.stmts@.take(program.stmts@.len() as int) =~= program.stmts@);
    }
    if checker.errors.len() == 0 {
        Ok(checker.type_map)
    } else {
        Err(Error::ParseMultiple { errors: checker.errors })
    }
}

} // verus!
