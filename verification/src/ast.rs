//! The syntax tree of Zen programs: declarations, statements, expressions,
//! patterns, type annotations and operators.
use vstd::prelude::*;
use crate::span::Spanned;
use crate::token::{TokenKind, TokenKindView};

verus! {

/// Visibility of a declaration.
#[derive(Debug, Clone, Copy, PartialEq, Eq, Structural)]
pub enum Vis {
    Public,
    Private,
}

impl Vis {
    pub fn is_pub(&self) -> (b: bool)
        ensures
            b == (*self == Vis::Public),
    {
        match self {
            Vis::Public => true,
            Vis::Private => false,
        }
    }
}

/// A generic type parameter declaration, e.g. `<T>` or `<T: SomeTrait>`.
#[derive(Debug, PartialEq)]
pub struct TypeParam {
    pub name: String,
    /// Trait bounds.
    pub bounds: Vec<Type>,
}

/// A type annotation of the source language.
#[derive(Debug, PartialEq)]
pub enum Type {
    /// `i64` — 64-bit signed integer.
    I64,
    /// `f32` — 32-bit float (stored as `f64` at runtime).
    F32,
    /// `f64` — 64-bit float.
    F64,
    /// `bool` — boolean.
    Bool,
    /// `str` — string.
    Str,
    /// `()` — unit type.
    Unit,
    /// `any` — dynamically typed, compatible with everything.
    Any,
    /// A named type reference, e.g. `MyStruct` or `Option`.
    Named(String),
    /// A generic type parameter, e.g. `T` in `fn foo<T>(x: T)`.
    Generic(String),
    /// `[T]` — homogenous array.
    Array(Box<Type>),
    /// Function type (used for first-class function values).
    Fn { params: Vec<Type>, ret: Box<Type> },
    /// `Option<T>`.
    Option(Box<Type>),
    /// `Result<T, E>`.
    Result(Box<Type>, Box<Type>),
}

/// Binary operator — arithmetic, comparison, logical, bitwise, assignment.
#[derive(Debug, Clone, Copy, PartialEq, Eq, Structural)]
pub enum BinOp {
    Add,
    Sub,
    Mul,
    Div,
    Mod,
    Eq,
    Ne,
    Lt,
    Le,
    Gt,
    Ge,
    And,
    Or,
    BitAnd,
    BitOr,
    BitXor,
    Shl,
    Shr,
    Assign,
}

/// Unary operator — negation, logical not, bitwise not.
#[derive(Debug, Clone, Copy, PartialEq, Eq, Structural)]
pub enum UnOp {
    Neg,
    Not,
    BitNot,
}

/// The binary operator a token stands for, if any.
pub open spec fn binop_of(k: TokenKindView) -> Option<BinOp> {
    match k {
        TokenKindView::Plus => Some(BinOp::Add),
        TokenKindView::Minus => Some(BinOp::Sub),
        TokenKindView::Star => Some(BinOp::Mul),
        TokenKindView::Slash => Some(BinOp::Div),
        TokenKindView::Percent => Some(BinOp::Mod),
        TokenKindView::EqEq => Some(BinOp::Eq),
        TokenKindView::Ne => Some(BinOp::Ne),
        TokenKindView::Lt => Some(BinOp::Lt),
        TokenKindView::Le => Some(BinOp::Le),
        TokenKindView::Gt => Some(BinOp::Gt),
        TokenKindView::Ge => Some(BinOp::Ge),
        TokenKindView::AndAnd => Some(BinOp::And),
        TokenKindView::OrOr => Some(BinOp::Or),
        TokenKindView::And => Some(BinOp::BitAnd),
        TokenKindView::Or => Some(BinOp::BitOr),
        TokenKindView::Caret => Some(BinOp::BitXor),
        TokenKindView::Shl => Some(BinOp::Shl),
        TokenKindView::Shr => Some(BinOp::Shr),
        TokenKindView::Eq => Some(BinOp::Assign),
        _ => None,
    }
}

/// How an infix operator is written in source text.
pub open spec fn operator_text(op: BinOp) -> Seq<char> {
    match op {
        BinOp::Add => "+"@,
        BinOp::Sub => "-"@,
        BinOp::Mul => "*"@,
        BinOp::Div => "/"@,
        BinOp::Mod => "%"@,
        BinOp::Eq => "=="@,
        BinOp::Ne => "!="@,
        BinOp::Lt => "<"@,
        BinOp::Le => "<="@,
        BinOp::Gt => ">"@,
        BinOp::Ge => ">="@,
        BinOp::And => "&&"@,
        BinOp::Or => "||"@,
        BinOp::BitAnd => "&"@,
        BinOp::BitOr => "|"@,
        BinOp::BitXor => "^"@,
        BinOp::Shl => "<<"@,
        BinOp::Shr => ">>"@,
        BinOp::Assign => "="@,
    }
}

/// The operator an infix token stands for is the one written the way the
/// token is spelled: `<` stands for less-than, `&&` for logical and, `&` for
/// bitwise and, and so on.
pub proof fn lemma_infix_token_spelling(k: TokenKindView)
    requires
        binop_of(k) is Some,
    ensures
        crate::token::spelling_of(k) == operator_text(binop_of(k)->0),
{
}

/// The prefix operator a token stands for is the one written that way: `-`
/// negates, `!` is logical not, `~` is bitwise not.
pub proof fn lemma_prefix_token_spelling(k: TokenKindView)
    requires
        unop_of(k) is Some,
    ensures
        unop_of(k) == Some(UnOp::Neg) ==> crate::token::spelling_of(k) == "-"@,
        unop_of(k) == Some(UnOp::Not) ==> crate::token::spelling_of(k) == "!"@,
        unop_of(k) == Some(UnOp::BitNot) ==> crate::token::spelling_of(k) == "~"@,
{
}

/// The unary operator a token stands for, if any.
pub open spec fn unop_of(k: TokenKindView) -> Option<UnOp> {
    match k {
        TokenKindView::Minus => Some(UnOp::Neg),
        TokenKindView::Bang => Some(UnOp::Not),
        TokenKindView::Tilde => Some(UnOp::BitNot),
        _ => None,
    }
}

impl BinOp {
    pub fn from_token(kind: &TokenKind) -> (r: Option<BinOp>)
        ensures
            r == binop_of(kind@),
    {
        match kind {
            TokenKind::Plus => Some(BinOp::Add),
            TokenKind::Minus => Some(BinOp::Sub),
            TokenKind::Star => Some(BinOp::Mul),
            TokenKind::Slash => Some(BinOp::Div),
            TokenKind::Percent => Some(BinOp::Mod),
            TokenKind::EqEq => Some(BinOp::Eq),
            TokenKind::Ne => Some(BinOp::Ne),
            TokenKind::Lt => Some(BinOp::Lt),
            TokenKind::Le => Some(BinOp::Le),
            TokenKind::Gt => Some(BinOp::Gt),
            TokenKind::Ge => Some(BinOp::Ge),
            TokenKind::AndAnd => Some(BinOp::And),
            TokenKind::OrOr => Some(BinOp::Or),
            TokenKind::And => Some(BinOp::BitAnd),
            TokenKind::Or => Some(BinOp::BitOr),
            TokenKind::Caret => Some(BinOp::BitXor),
            TokenKind::Shl => Some(BinOp::Shl),
            TokenKind::Shr => Some(BinOp::Shr),
            TokenKind::Eq => Some(BinOp::Assign),
            _ => None,
        }
    }
}

impl UnOp {
    pub fn from_token(kind: &TokenKind) -> (r: Option<UnOp>)
        ensures
            r == unop_of(kind@),
    {
        match kind {
            TokenKind::Minus => Some(UnOp::Neg),
            TokenKind::Bang => Some(UnOp::Not),
            TokenKind::Tilde => Some(UnOp::BitNot),
            _ => None,
        }
    }
}

/// `a` and `b` are the same type: the same variant, the same names, and the
/// same types inside, list by list.
pub open spec fn type_same(a: Type, b: Type) -> bool
    decreases a, 1nat,
{
    match a {
        Type::Array(x) => b matches Type::Array(y) && type_same(*x, *y),
        Type::Fn { params, ret } => b matches Type::Fn { params: p2, ret: r2 } && types_same(params@, p2@)
            && type_same(*ret, *r2),
        Type::Option(x) => b matches Type::Option(y) && type_same(*x, *y),
        Type::Result(x1, x2) => b matches Type::Result(y1, y2) && type_same(*x1, *y1) && type_same(*x2, *y2),
        _ => a == b,
    }
}

/// `type_same` for two lists of types, place by place.
pub open spec fn types_same(a: Seq<Type>, b: Seq<Type>) -> bool
    decreases a, 0nat,
{
    if a.len() == 0 {
        b.len() == 0
    } else {
        b.len() == a.len() && types_same(a.drop_last(), b.drop_last()) && type_same(a.last(), b.last())
    }
}

impl Clone for Type {
    fn clone(&self) -> (r: Type)
        ensures
            type_same(*self, r),
        decreases self,
    {
        match self {
            Type::I64 => Type::I64,
            Type::F32 => Type::F32,
            Type::F64 => Type::F64,
            Type::Bool => Type::Bool,
            Type::Str => Type::Str,
            Type::Unit => Type::Unit,
            Type::Any => Type::Any,
            Type::Named(n) => Type::Named(n.clone()),
            Type::Generic(n) => Type::Generic(n.clone()),
            Type::Array(inner) => Type::Array(Box::new((**inner).clone())),
            Type::Fn { params, ret } => Type::Fn { params: clone_types(params), ret: Box::new((**ret).clone()) },
            Type::Option(inner) => Type::Option(Box::new((**inner).clone())),
            Type::Result(ok, err) => Type::Result(Box::new((**ok).clone()), Box::new((**err).clone())),
        }
    }
}

/// A copy of a list of types.
pub fn clone_types(v: &Vec<Type>) -> (r: Vec<Type>)
    ensures
        r@.len() == v@.len(),
        types_same(v@, r@),
    decreases v,
{
    let mut r: Vec<Type> = Vec::new();
    let mut i: usize = 0;
    proof {
        assert(v@.take(0).len() == 0);
    }
    while i < v.len()
        invariant
            i <= v@.len(),
            r@.len() == i,
            types_same(v@.take(i as int), r@),
        decreases v@.len() - i,
    {
        proof {
            assert(decreases_to!(v => v@[i as int]));
        }
        let t = v[i].clone();
        let ghost r0 = r@;
        r.push(t);
        proof {
            assert(v@.take(i + 1).drop_last() =~= v@.take(i as int));
            assert(r@.drop_last() =~= r0);
            assert(v@.take(i + 1).last() == v@[i as int]);
        }
        i = i + 1;
    }
    proof {
        assert(v@.take(v@.len() as int) =~= v@);
    }
    r
}

/// `type_same` for two type parameters: the same name and the same bounds.
pub open spec fn type_param_same(a: TypeParam, b: TypeParam) -> bool {
    a.name@ == b.name@ && types_same(a.bounds@, b.bounds@)
}

impl Clone for TypeParam {
    fn clone(&self) -> (r: TypeParam)
        ensures
            type_param_same(*self, r),
    {
        TypeParam { name: self.name.clone(), bounds: clone_types(&self.bounds) }
    }
}

/// A named field in a struct declaration.
#[derive(Debug, Clone)]
pub struct StructField {
    pub name: String,
    pub type_ann: Type,
}

/// A pattern of a `match` arm (and of `if let` / `while let`).
#[derive(Debug, Clone)]
pub enum Pattern {
    /// `_` — matches anything, does not bind.
    Wildcard,
    /// `name` — matches anything, binds it to `name`.
    Ident(String),
    /// An integer literal.
    Int(i64),
    /// A float literal, as written (without `_` separators).
    Float(String),
    /// A string literal.
    Str(String),
    /// A boolean literal.
    Bool(bool),
    /// An enum variant, `Some(v)` or `E::Some(v)`; an empty binding is `_`.
    EnumVariant { enum_name: Option<String>, variant_name: String, bindings: Vec<String> },
}

/// A function parameter with an optional type annotation.
#[derive(Debug, Clone)]
pub struct Param {
    pub name: String,
    pub type_ann: Option<Type>,
}

/// A variant of an enum declaration.
#[derive(Debug, Clone)]
pub struct EnumVariant {
    pub name: String,
    pub fields: Vec<Type>,
}

/// One arm of a `match` expression.
#[derive(Debug)]
pub struct MatchArm {
    pub pattern: Pattern,
    /// The guard after `if`, if any.
    pub guard: Option<Box<Expr>>,
    pub body: Box<Expr>,
}

/// A statement or declaration.
#[derive(Debug)]
pub enum Stmt {
    /// `let [mut] name [: type] [= expr];`
    Let { mutable: bool, name: String, type_ann: Option<Type>, init: Option<Expr> },
    /// `[pub] const name [: type] = expr;`
    Const { vis: Vis, name: String, type_ann: Option<Type>, init: Expr },
    /// `[pub] [opaque] type Name<T> = Alias;`
    Type { vis: Vis, opaque: bool, name: String, type_params: Vec<TypeParam>, alias: Type },
    /// An expression used as a statement.
    Expr(Expr),
    /// `return [expr];`
    Return(Option<Expr>),
    /// `[pub] fn name<T>(params) [-> type] { body }`
    Fn {
        vis: Vis,
        name: String,
        type_params: Vec<TypeParam>,
        params: Vec<Param>,
        return_type: Option<Type>,
        body: Vec<Spanned<Stmt>>,
    },
    /// `[pub] struct Name<T> { field: type, ... }`
    Struct { vis: Vis, name: String, type_params: Vec<TypeParam>, fields: Vec<StructField> },
    /// `[pub] enum Name<T> { Variant(types...), ... }`
    Enum { vis: Vis, name: String, type_params: Vec<TypeParam>, variants: Vec<EnumVariant> },
    /// `impl<T> [Trait for] Type { methods }`
    Impl { self_type: String, type_params: Vec<TypeParam>, trait_name: Option<String>, methods: Vec<Spanned<Stmt>> },
    /// `[pub] trait Name<T> { fn sig(...) -> T; ... }`; the methods have empty bodies.
    Trait { vis: Vis, name: String, type_params: Vec<TypeParam>, methods: Vec<Spanned<Stmt>> },
    /// `[pub] use a::b::c;`
    Use { vis: Vis, path: Vec<String> },
    /// `[pub] mod name { ... }` or `mod name;`
    Mod { vis: Vis, name: String, body: Vec<Spanned<Stmt>> },
}

/// An expression.
#[derive(Debug)]
pub enum Expr {
    Int(i64),
    /// A float literal, as written (without `_` separators).
    Float(String),
    Str(String),
    Bool(bool),
    Unit,
    Ident(String),
    Binary { op: BinOp, lhs: Box<Expr>, rhs: Box<Expr> },
    Unary { op: UnOp, expr: Box<Expr> },
    Call { func: Box<Expr>, args: Vec<Expr> },
    MethodCall { obj: Box<Expr>, method: String, args: Vec<Expr> },
    Field { obj: Box<Expr>, field: String },
    Index { obj: Box<Expr>, index: Box<Expr> },
    Block(Vec<Spanned<Stmt>>),
    If { cond: Box<Expr>, then: Box<Expr>, else_: Option<Box<Expr>> },
    While { cond: Box<Expr>, body: Box<Expr> },
    For { var: String, iter: Box<Expr>, body: Box<Expr> },
    Loop(Box<Expr>),
    Match { expr: Box<Expr>, arms: Vec<MatchArm> },
    Return(Option<Box<Expr>>),
    Break,
    Continue,
    Yield(Box<Expr>),
    /// `Point { x: 1, y }` or `Point { ..base }`.
    StructLit { name: String, fields: Vec<(String, Expr)>, spread: Option<Box<Expr>> },
    Array(Vec<Expr>),
    Range { start: Box<Expr>, end: Box<Expr>, inclusive: bool },
    Lambda { params: Vec<Param>, return_type: Option<Type>, body: Box<Expr> },
    /// `E::Variant(args)`.
    EnumCtor { enum_name: String, variant_name: String, args: Vec<Expr> },
}

/// A whole program: its top-level statements.
#[derive(Debug)]
pub struct Program {
    pub stmts: Vec<Spanned<Stmt>>,
}

impl Program {
    pub fn new() -> (p: Program)
        ensures
            p.stmts@.len() == 0,
    {
        Program { stmts: Vec::new() }
    }
}


/// `opt_type_same` for optional type annotations.
pub open spec fn opt_type_same(a: Option<Type>, b: Option<Type>) -> bool {
    match a {
        Some(x) => b matches Some(y) && type_same(x, y),
        None => b is None,
    }
}

/// The same parameters, place by place: names and annotations.
pub open spec fn params_same(a: Seq<Param>, b: Seq<Param>) -> bool {
    &&& a.len() == b.len()
    &&& forall|i: int| 0 <= i < a.len() ==> #[trigger] a[i].name@ == b[i].name@ && opt_type_same(a[i].type_ann, b[i].type_ann)
}

/// The same type parameters, place by place.
pub open spec fn type_params_same(a: Seq<TypeParam>, b: Seq<TypeParam>) -> bool {
    &&& a.len() == b.len()
    &&& forall|i: int| 0 <= i < a.len() ==> #[trigger] type_param_same(a[i], b[i])
}

/// The same struct fields, place by place.
pub open spec fn struct_fields_same(a: Seq<StructField>, b: Seq<StructField>) -> bool {
    &&& a.len() == b.len()
    &&& forall|i: int| 0 <= i < a.len() ==> #[trigger] a[i].name@ == b[i].name@ && type_same(a[i].type_ann, b[i].type_ann)
}

/// The same enum variants, place by place.
pub open spec fn variants_same(a: Seq<EnumVariant>, b: Seq<EnumVariant>) -> bool {
    &&& a.len() == b.len()
    &&& forall|i: int| 0 <= i < a.len() ==> #[trigger] a[i].name@ == b[i].name@ && types_same(a[i].fields@, b[i].fields@)
}

/// The same strings, place by place.
pub open spec fn names_same(a: Seq<String>, b: Seq<String>) -> bool {
    &&& a.len() == b.len()
    &&& forall|i: int| 0 <= i < a.len() ==> #[trigger] a[i]@ == b[i]@
}

/// `a` and `b` are the same pattern.
pub open spec fn pattern_same(a: Pattern, b: Pattern) -> bool {
    match a {
        Pattern::EnumVariant { enum_name, variant_name, bindings } => b matches Pattern::EnumVariant {
            enum_name: e2,
            variant_name: v2,
            bindings: b2,
        } && enum_name == e2 && variant_name == v2 && names_same(bindings@, b2@),
        _ => a == b,
    }
}

/// `a` and `b` are the same expression: the same variant, the same values
/// and names, and the same parts, list by list.
pub open spec fn expr_same(a: Expr, b: Expr) -> bool
    decreases a, 2nat,
{
    match a {
        Expr::Binary { op, lhs, rhs } => b matches Expr::Binary { op: o2, lhs: l2, rhs: r2 } && op == o2
            && expr_same(*lhs, *l2) && expr_same(*rhs, *r2),
        Expr::Unary { op, expr } => b matches Expr::Unary { op: o2, expr: e2 } && op == o2 && expr_same(*expr, *e2),
        Expr::Call { func, args } => b matches Expr::Call { func: f2, args: a2 } && expr_same(*func, *f2)
            && exprs_same(args@, a2@),
        Expr::MethodCall { obj, method, args } => b matches Expr::MethodCall { obj: o2, method: m2, args: a2 }
            && expr_same(*obj, *o2) && method == m2 && exprs_same(args@, a2@),
        Expr::Field { obj, field } => b matches Expr::Field { obj: o2, field: f2 } && expr_same(*obj, *o2) && field == f2,
        Expr::Index { obj, index } => b matches Expr::Index { obj: o2, index: i2 } && expr_same(*obj, *o2)
            && expr_same(*index, *i2),
        Expr::Block(stmts) => b matches Expr::Block(s2) && stmts_same(stmts@, s2@),
        Expr::If { cond, then, else_ } => b matches Expr::If { cond: c2, then: t2, else_: e2 } && expr_same(*cond, *c2)
            && expr_same(*then, *t2) && match else_ {
                Some(x) => e2 matches Some(y) && expr_same(*x, *y),
                None => e2 is None,
            },
        Expr::While { cond, body } => b matches Expr::While { cond: c2, body: b2 } && expr_same(*cond, *c2)
            && expr_same(*body, *b2),
        Expr::For { var, iter, body } => b matches Expr::For { var: v2, iter: i2, body: b2 } && var == v2
            && expr_same(*iter, *i2) && expr_same(*body, *b2),
        Expr::Loop(body) => b matches Expr::Loop(b2) && expr_same(*body, *b2),
        Expr::Match { expr, arms } => b matches Expr::Match { expr: e2, arms: a2 } && expr_same(*expr, *e2)
            && arms_same(arms@, a2@),
        Expr::Return(x) => b matches Expr::Return(y) && match x {
            Some(x) => y matches Some(y) && expr_same(*x, *y),
            None => y is None,
        },
        Expr::Yield(x) => b matches Expr::Yield(y) && expr_same(*x, *y),
        Expr::StructLit { name, fields, spread } => b matches Expr::StructLit { name: n2, fields: f2, spread: s2 }
            && name == n2 && fields_same(fields@, f2@) && match spread {
                Some(x) => s2 matches Some(y) && expr_same(*x, *y),
                None => s2 is None,
            },
        Expr::Array(items) => b matches Expr::Array(i2) && exprs_same(items@, i2@),
        Expr::Range { start, end, inclusive } => b matches Expr::Range { start: s2, end: e2, inclusive: c2 }
            && expr_same(*start, *s2) && expr_same(*end, *e2) && inclusive == c2,
        Expr::Lambda { params, return_type, body } => b matches Expr::Lambda { params: p2, return_type: r2, body: b2 }
            && params_same(params@, p2@) && opt_type_same(return_type, r2) && expr_same(*body, *b2),
        Expr::EnumCtor { enum_name, variant_name, args } => b matches Expr::EnumCtor {
            enum_name: e2,
            variant_name: v2,
            args: a2,
        } && enum_name == e2 && variant_name == v2 && exprs_same(args@, a2@),
        _ => a == b,
    }
}

/// `expr_same` for two lists, place by place.
pub open spec fn exprs_same(a: Seq<Expr>, b: Seq<Expr>) -> bool
    decreases a, 0nat,
{
    if a.len() == 0 {
        b.len() == 0
    } else {
        b.len() == a.len() && exprs_same(a.drop_last(), b.drop_last()) && expr_same(a.last(), b.last())
    }
}

/// The same named field values, place by place.
pub open spec fn fields_same(a: Seq<(String, Expr)>, b: Seq<(String, Expr)>) -> bool
    decreases a, 0nat,
{
    if a.len() == 0 {
        b.len() == 0
    } else {
        b.len() == a.len() && fields_same(a.drop_last(), b.drop_last()) && a.last().0 == b.last().0
            && expr_same(a.last().1, b.last().1)
    }
}

/// The same match arms, place by place: patterns, guards and bodies.
pub open spec fn arms_same(a: Seq<MatchArm>, b: Seq<MatchArm>) -> bool
    decreases a, 0nat,
{
    if a.len() == 0 {
        b.len() == 0
    } else {
        &&& b.len() == a.len()
        &&& arms_same(a.drop_last(), b.drop_last())
        &&& pattern_same(a.last().pattern, b.last().pattern)
        &&& expr_same(*a.last().body, *b.last().body)
        &&& match a.last().guard {
            Some(x) => b.last().guard matches Some(y) && expr_same(*x, *y),
            None => b.last().guard is None,
        }
    }
}

/// The same located statements, place by place: statements and spans.
pub open spec fn stmts_same(a: Seq<Spanned<Stmt>>, b: Seq<Spanned<Stmt>>) -> bool
    decreases a, 0nat,
{
    if a.len() == 0 {
        b.len() == 0
    } else {
        b.len() == a.len() && stmts_same(a.drop_last(), b.drop_last()) && a.last().span == b.last().span
            && stmt_same(a.last().node, b.last().node)
    }
}

/// `a` and `b` are the same statement.
pub open spec fn stmt_same(a: Stmt, b: Stmt) -> bool
    decreases a, 2nat,
{
    match a {
        Stmt::Let { mutable, name, type_ann, init } => b matches Stmt::Let { mutable: m2, name: n2, type_ann: t2, init: i2 }
            && mutable == m2 && name == n2 && opt_type_same(type_ann, t2) && match init {
                Some(x) => i2 matches Some(y) && expr_same(x, y),
                None => i2 is None,
            },
        Stmt::Const { vis, name, type_ann, init } => b matches Stmt::Const { vis: v2, name: n2, type_ann: t2, init: i2 }
            && vis == v2 && name == n2 && opt_type_same(type_ann, t2) && expr_same(init, i2),
        Stmt::Type { vis, opaque, name, type_params, alias } => b matches Stmt::Type {
            vis: v2,
            opaque: o2,
            name: n2,
            type_params: p2,
            alias: a2,
        } && vis == v2 && opaque == o2 && name == n2 && type_params_same(type_params@, p2@) && type_same(alias, a2),
        Stmt::Expr(x) => b matches Stmt::Expr(y) && expr_same(x, y),
        Stmt::Return(x) => b matches Stmt::Return(y) && match x {
            Some(x) => y matches Some(y) && expr_same(x, y),
            None => y is None,
        },
        Stmt::Fn { vis, name, type_params, params, return_type, body } => b matches Stmt::Fn {
            vis: v2,
            name: n2,
            type_params: tp2,
            params: p2,
            return_type: r2,
            body: b2,
        } && vis == v2 && name == n2 && type_params_same(type_params@, tp2@) && params_same(params@, p2@)
            && opt_type_same(return_type, r2) && stmts_same(body@, b2@),
        Stmt::Struct { vis, name, type_params, fields } => b matches Stmt::Struct {
            vis: v2,
            name: n2,
            type_params: tp2,
            fields: f2,
        } && vis == v2 && name == n2 && type_params_same(type_params@, tp2@) && struct_fields_same(fields@, f2@),
        Stmt::Enum { vis, name, type_params, variants } => b matches Stmt::Enum {
            vis: v2,
            name: n2,
            type_params: tp2,
            variants: w2,
        } && vis == v2 && name == n2 && type_params_same(type_params@, tp2@) && variants_same(variants@, w2@),
        Stmt::Impl { self_type, type_params, trait_name, methods } => b matches Stmt::Impl {
            self_type: s2,
            type_params: tp2,
            trait_name: t2,
            methods: m2,
        } && self_type == s2 && type_params_same(type_params@, tp2@) && trait_name == t2 && stmts_same(methods@, m2@),
        Stmt::Trait { vis, name, type_params, methods } => b matches Stmt::Trait {
            vis: v2,
            name: n2,
            type_params: tp2,
            methods: m2,
        } && vis == v2 && name == n2 && type_params_same(type_params@, tp2@) && stmts_same(methods@, m2@),
        Stmt::Use { vis, path } => b matches Stmt::Use { vis: v2, path: p2 } && vis == v2 && names_same(path@, p2@),
        Stmt::Mod { vis, name, body } => b matches Stmt::Mod { vis: v2, name: n2, body: b2 } && vis == v2 && name == n2
            && stmts_same(body@, b2@),
    }
}

/// A copy of a pattern.
pub fn copy_pattern(p: &Pattern) -> (r: Pattern)
    ensures
        pattern_same(*p, r),
{
    match p {
        Pattern::Wildcard => Pattern::Wildcard,
        Pattern::Ident(n) => Pattern::Ident(n.clone()),
        Pattern::Int(v) => Pattern::Int(*v),
        Pattern::Float(v) => Pattern::Float(v.clone()),
        Pattern::Str(v) => Pattern::Str(v.clone()),
        Pattern::Bool(v) => Pattern::Bool(*v),
        Pattern::EnumVariant { enum_name, variant_name, bindings } => Pattern::EnumVariant {
            enum_name: enum_name.clone(),
            variant_name: variant_name.clone(),
            bindings: copy_strings(bindings),
        },
    }
}

/// A copy of a list of strings.
fn copy_strings(v: &Vec<String>) -> (r: Vec<String>)
    ensures
        names_same(v@, r@),
{
    let mut r: Vec<String> = Vec::new();
    let mut i: usize = 0;
    while i < v.len()
        invariant
            i <= v@.len(),
            r@.len() == i,
            forall|j: int| 0 <= j < i ==> #[trigger] r@[j]@ == v@[j]@,
        decreases v@.len() - i,
    {
        r.push(v[i].clone());
        i = i + 1;
    }
    r
}

/// A copy of a list of struct fields.
fn copy_struct_fields(v: &Vec<StructField>) -> (r: Vec<StructField>)
    ensures
        struct_fields_same(v@, r@),
{
    let mut r: Vec<StructField> = Vec::new();
    let mut i: usize = 0;
    while i < v.len()
        invariant
            i <= v@.len(),
            r@.len() == i,
            forall|j: int| 0 <= j < i ==> #[trigger] v@[j].name@ == r@[j].name@ && type_same(v@[j].type_ann, r@[j].type_ann),
        decreases v@.len() - i,
    {
        r.push(StructField { name: v[i].name.clone(), type_ann: v[i].type_ann.clone() });
        i = i + 1;
    }
    r
}

/// A copy of a list of enum variants.
fn copy_variants(v: &Vec<EnumVariant>) -> (r: Vec<EnumVariant>)
    ensures
        variants_same(v@, r@),
{
    let mut r: Vec<EnumVariant> = Vec::new();
    let mut i: usize = 0;
    while i < v.len()
        invariant
            i <= v@.len(),
            r@.len() == i,
            forall|j: int| 0 <= j < i ==> #[trigger] v@[j].name@ == r@[j].name@ && types_same(v@[j].fields@, r@[j].fields@),
        decreases v@.len() - i,
    {
        r.push(EnumVariant { name: v[i].name.clone(), fields: clone_types(&v[i].fields) });
        i = i + 1;
    }
    r
}

fn copy_type_params(v: &Vec<TypeParam>) -> (r: Vec<TypeParam>)
    ensures
        type_params_same(v@, r@),
{
    let mut r: Vec<TypeParam> = Vec::new();
    let mut i: usize = 0;
    while i < v.len()
        invariant
            i <= v@.len(),
            r@.len() == i,
            forall|j: int| 0 <= j < i ==> #[trigger] type_param_same(v@[j], r@[j]),
        decreases v@.len() - i,
    {
        r.push(v[i].clone());
        i = i + 1;
    }
    r
}

fn copy_opt_type(t: &Option<Type>) -> (r: Option<Type>)
    ensures
        opt_type_same(*t, r),
{
    match t {
        Some(t) => Some(t.clone()),
        None => None,
    }
}

fn copy_params(v: &Vec<Param>) -> (r: Vec<Param>)
    ensures
        params_same(v@, r@),
{
    let mut r: Vec<Param> = Vec::new();
    let mut i: usize = 0;
    while i < v.len()
        invariant
            i <= v@.len(),
            r@.len() == i,
            forall|j: int| 0 <= j < i ==> #[trigger] v@[j].name@ == r@[j].name@ && opt_type_same(v@[j].type_ann, r@[j].type_ann),
        decreases v@.len() - i,
    {
        r.push(Param { name: v[i].name.clone(), type_ann: copy_opt_type(&v[i].type_ann) });
        i = i + 1;
    }
    r
}

/// A copy of an expression.
pub fn copy_expr(e: &Expr) -> (r: Expr)
    ensures
        expr_same(*e, r),
    decreases e, 0nat,
{
    match e {
        Expr::Int(v) => Expr::Int(*v),
        Expr::Float(v) => Expr::Float(v.clone()),
        Expr::Str(v) => Expr::Str(v.clone()),
        Expr::Bool(v) => Expr::Bool(*v),
        Expr::Unit => Expr::Unit,
        Expr::Ident(n) => Expr::Ident(n.clone()),
        Expr::Binary { op, lhs, rhs } => Expr::Binary {
            op: *op,
            lhs: Box::new(copy_expr(lhs)),
            rhs: Box::new(copy_expr(rhs)),
        },
        Expr::Unary { op, expr } => Expr::Unary { op: *op, expr: Box::new(copy_expr(expr)) },
        Expr::Call { func, args } => Expr::Call { func: Box::new(copy_expr(func)), args: copy_exprs(args) },
        Expr::MethodCall { obj, method, args } => Expr::MethodCall {
            obj: Box::new(copy_expr(obj)),
            method: method.clone(),
            args: copy_exprs(args),
        },
        Expr::Field { obj, field } => Expr::Field { obj: Box::new(copy_expr(obj)), field: field.clone() },
        Expr::Index { obj, index } => Expr::Index {
            obj: Box::new(copy_expr(obj)),
            index: Box::new(copy_expr(index)),
        },
        Expr::Block(stmts) => Expr::Block(copy_stmts(stmts)),
        Expr::If { cond, then, else_ } => Expr::If {
            cond: Box::new(copy_expr(cond)),
            then: Box::new(copy_expr(then)),
            else_: match else_ {
                Some(x) => Some(Box::new(copy_expr(x))),
                None => None,
            },
        },
        Expr::While { cond, body } => Expr::While {
            cond: Box::new(copy_expr(cond)),
            body: Box::new(copy_expr(body)),
        },
        Expr::For { var, iter, body } => Expr::For {
            var: var.clone(),
            iter: Box::new(copy_expr(iter)),
            body: Box::new(copy_expr(body)),
        },
        Expr::Loop(body) => Expr::Loop(Box::new(copy_expr(body))),
        Expr::Match { expr, arms } => Expr::Match { expr: Box::new(copy_expr(expr)), arms: copy_arms(arms) },
        Expr::Return(x) => Expr::Return(
            match x {
                Some(x) => Some(Box::new(copy_expr(x))),
                None => None,
            },
        ),
        Expr::Break => Expr::Break,
        Expr::Continue => Expr::Continue,
        Expr::Yield(x) => Expr::Yield(Box::new(copy_expr(x))),
        Expr::StructLit { name, fields, spread } => Expr::StructLit {
            name: name.clone(),
            fields: copy_fields(fields),
            spread: match spread {
                Some(x) => Some(Box::new(copy_expr(x))),
                None => None,
            },
        },
        Expr::Array(items) => Expr::Array(copy_exprs(items)),
        Expr::Range { start, end, inclusive } => Expr::Range {
            start: Box::new(copy_expr(start)),
            end: Box::new(copy_expr(end)),
            inclusive: *inclusive,
        },
        Expr::Lambda { params, return_type, body } => Expr::Lambda {
            params: copy_params(params),
            return_type: copy_opt_type(return_type),
            body: Box::new(copy_expr(body)),
        },
        Expr::EnumCtor { enum_name, variant_name, args } => Expr::EnumCtor {
            enum_name: enum_name.clone(),
            variant_name: variant_name.clone(),
            args: copy_exprs(args),
        },
    }
}

fn copy_exprs(v: &Vec<Expr>) -> (r: Vec<Expr>)
    ensures
        exprs_same(v@, r@),
    decreases v, 1nat,
{
    let mut r: Vec<Expr> = Vec::new();
    let mut i: usize = 0;
    proof {
        assert(v@.take(0).len() == 0);
    }
    while i < v.len()
        invariant
            i <= v@.len(),
            exprs_same(v@.take(i as int), r@),
        decreases v@.len() - i,
    {
        proof {
            assert(decreases_to!(v => v@[i as int]));
        }
        let ghost r0 = r@;
        r.push(copy_expr(&v[i]));
        proof {
            assert(v@.take(i + 1).drop_last() =~= v@.take(i as int));
            assert(r@.drop_last() =~= r0);
            assert(v@.take(i + 1).last() == v@[i as int]);
        }
        i = i + 1;
    }
    proof {
        assert(v@.take(v@.len() as int) =~= v@);
    }
    r
}

fn copy_fields(v: &Vec<(String, Expr)>) -> (r: Vec<(String, Expr)>)
    ensures
        fields_same(v@, r@),
    decreases v, 1nat,
{
    let mut r: Vec<(String, Expr)> = Vec::new();
    let mut i: usize = 0;
    proof {
        assert(v@.take(0).len() == 0);
    }
    while i < v.len()
        invariant
            i <= v@.len(),
            fields_same(v@.take(i as int), r@),
        decreases v@.len() - i,
    {
        proof {
            assert(decreases_to!(v => v@[i as int].1));
        }
        let ghost r0 = r@;
        r.push((v[i].0.clone(), copy_expr(&v[i].1)));
        proof {
            assert(v@.take(i + 1).drop_last() =~= v@.take(i as int));
            assert(r@.drop_last() =~= r0);
            assert(v@.take(i + 1).last() == v@[i as int]);
        }
        i = i + 1;
    }
    proof {
        assert(v@.take(v@.len() as int) =~= v@);
    }
    r
}

fn copy_arms(v: &Vec<MatchArm>) -> (r: Vec<MatchArm>)
    ensures
        arms_same(v@, r@),
    decreases v, 1nat,
{
    let mut r: Vec<MatchArm> = Vec::new();
    let mut i: usize = 0;
    proof {
        assert(v@.take(0).len() == 0);
    }
    while i < v.len()
        invariant
            i <= v@.len(),
            arms_same(v@.take(i as int), r@),
        decreases v@.len() - i,
    {
        let arm = &v[i];
        proof {
            assert(decreases_to!(v => v@[i as int].body));
            assert(v@[i as int].guard is Some ==> decreases_to!(v => v@[i as int].guard->0));
        }
        let guard = match &arm.guard {
            Some(g) => Some(Box::new(copy_expr(g))),
            None => None,
        };
        let ghost r0 = r@;
        r.push(MatchArm { pattern: copy_pattern(&arm.pattern), guard, body: Box::new(copy_expr(&arm.body)) });
        proof {
            assert(v@.take(i + 1).drop_last() =~= v@.take(i as int));
            assert(r@.drop_last() =~= r0);
            assert(v@.take(i + 1).last() == v@[i as int]);
        }
        i = i + 1;
    }
    proof {
        assert(v@.take(v@.len() as int) =~= v@);
    }
    r
}

/// A copy of a list of located statements.
pub fn copy_stmts(v: &Vec<Spanned<Stmt>>) -> (r: Vec<Spanned<Stmt>>)
    ensures
        stmts_same(v@, r@),
    decreases v, 1nat,
{
    let mut r: Vec<Spanned<Stmt>> = Vec::new();
    let mut i: usize = 0;
    proof {
        assert(v@.take(0).len() == 0);
    }
    while i < v.len()
        invariant
            i <= v@.len(),
            stmts_same(v@.take(i as int), r@),
        decreases v@.len() - i,
    {
        proof {
            assert(decreases_to!(v => v@[i as int].node));
        }
        let ghost r0 = r@;
        r.push(Spanned { node: copy_stmt(&v[i].node), span: v[i].span });
        proof {
            assert(v@.take(i + 1).drop_last() =~= v@.take(i as int));
            assert(r@.drop_last() =~= r0);
            assert(v@.take(i + 1).last() == v@[i as int]);
        }
        i = i + 1;
    }
    proof {
        assert(v@.take(v@.len() as int) =~= v@);
    }
    r
}

/// A copy of a statement.
pub fn copy_stmt(s: &Stmt) -> (r: Stmt)
    ensures
        stmt_same(*s, r),
    decreases s, 0nat,
{
    match s {
        Stmt::Let { mutable, name, type_ann, init } => Stmt::Let {
            mutable: *mutable,
            name: name.clone(),
            type_ann: copy_opt_type(type_ann),
            init: match init {
                Some(x) => Some(copy_expr(x)),
                None => None,
            },
        },
        Stmt::Const { vis, name, type_ann, init } => Stmt::Const {
            vis: *vis,
            name: name.clone(),
            type_ann: copy_opt_type(type_ann),
            init: copy_expr(init),
        },
        Stmt::Type { vis, opaque, name, type_params, alias } => Stmt::Type {
            vis: *vis,
            opaque: *opaque,
            name: name.clone(),
            type_params: copy_type_params(type_params),
            alias: alias.clone(),
        },
        Stmt::Expr(x) => Stmt::Expr(copy_expr(x)),
        Stmt::Return(x) => Stmt::Return(
            match x {
                Some(x) => Some(copy_expr(x)),
                None => None,
            },
        ),
        Stmt::Fn { vis, name, type_params, params, return_type, body } => Stmt::Fn {
            vis: *vis,
            name: name.clone(),
            type_params: copy_type_params(type_params),
            params: copy_params(params),
            return_type: copy_opt_type(return_type),
            body: copy_stmts(body),
        },
        Stmt::Struct { vis, name, type_params, fields } => Stmt::Struct {
            vis: *vis,
            name: name.clone(),
            type_params: copy_type_params(type_params),
            fields: copy_struct_fields(fields),
        },
        Stmt::Enum { vis, name, type_params, variants } => Stmt::Enum {
            vis: *vis,
            name: name.clone(),
            type_params: copy_type_params(type_params),
            variants: copy_variants(variants),
        },
        Stmt::Impl { self_type, type_params, trait_name, methods } => Stmt::Impl {
            self_type: self_type.clone(),
            type_params: copy_type_params(type_params),
            trait_name: trait_name.clone(),
            methods: copy_stmts(methods),
        },
        Stmt::Trait { vis, name, type_params, methods } => Stmt::Trait {
            vis: *vis,
            name: name.clone(),
            type_params: copy_type_params(type_params),
            methods: copy_stmts(methods),
        },
        Stmt::Use { vis, path } => Stmt::Use { vis: *vis, path: copy_strings(path) },
        Stmt::Mod { vis, name, body } => Stmt::Mod { vis: *vis, name: name.clone(), body: copy_stmts(body) },
    }
}

} // verus!
