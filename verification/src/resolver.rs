//! Name resolution: builds the symbol table of a program and reports every
//! name used where no definition reaches it, and every name defined twice in
//! one scope.
use vstd::prelude::*;
use crate::ast::{clone_types, type_param_same, type_params_same, Expr, MatchArm, Param, Pattern, Program, Stmt, Type, TypeParam};
use crate::error::Error;
use crate::span::{SourceLocation, Span, Spanned};
use crate::stdlib::native_fn_sigs;
use crate::symbol::{entry_of, entry_set, lookup_from, EnumDef, FnSignature, StructDef, SymEntry, SymKind, SymbolTable, TraitDef};
use crate::text::push_str_chars;

verus! {

/// `<before>'<name>'<after>`.
fn quoted(before: &str, name: &str, after: &str) -> (s: String)
    ensures
        s@ == before@ + "'"@ + name@ + "'"@ + after@,
{
    let mut s = String::new();
    push_str_chars(&mut s, before);
    push_str_chars(&mut s, "'");
    push_str_chars(&mut s, name);
    push_str_chars(&mut s, "'");
    push_str_chars(&mut s, after);
    s
}

/// `<a>::<b>`: the name of a variant qualified by its enum.
fn quoted_path(a: &String, b: &String) -> (q: String)
    ensures
        q@ == a@ + "::"@ + b@,
{
    let mut q = a.clone();
    push_str_chars(&mut q, "::");
    push_str_chars(&mut q, b.as_str());
    q
}

/// The declared type of a parameter, `()` when it has none.
fn param_type(p: &Param) -> (t: Type) {
    match &p.type_ann {
        Some(t) => t.clone(),
        None => Type::Unit,
    }
}

fn copy_type_params(v: &Vec<TypeParam>) -> (r: Vec<TypeParam>)
    ensures
        type_params_same(v@, r@),
{
    let mut r: Vec<TypeParam> = Vec::new();
    let mut i: usize = 0;
    while i < v.len()
        invariant
            i <= v@.len(),
            r@.len() == i,
            forall|j: int| 0 <= j < i ==> #[trigger] type_param_same(v@[j], r@[j]),
        decreases v@.len() - i,
    {
        r.push(v[i].clone());
        i = i + 1;
    }
    r
}

/// The signature a function declaration gives, under the name `name`.
fn signature_of(name: String, type_params: &Vec<TypeParam>, params: &Vec<Param>, return_type: &Option<Type>) -> (sig: FnSignature)
    ensures
        sig.name == name,
        sig.params@.len() == params@.len(),
        forall|i: int| 0 <= i < params@.len() ==> (#[trigger] sig.params@[i]).0@ == params@[i].name@,
{
    let mut ps: Vec<(String, Type)> = Vec::new();
    let mut i: usize = 0;
    while i < params.len()
        invariant
            i <= params@.len(),
            ps@.len() == i,
            forall|j: int| 0 <= j < i ==> (#[trigger] ps@[j]).0@ == params@[j].name@,
        decreases params@.len() - i,
    {
        ps.push((params[i].name.clone(), param_type(&params[i])));
        i = i + 1;
    }
    let ret = match return_type {
        Some(t) => Some(t.clone()),
        None => None,
    };
    FnSignature { name, type_params: copy_type_params(type_params), params: ps, return_type: ret }
}

/// `after` has every scope of `before`, each nested where it was.
pub open spec fn parents_kept(after: SymbolTable, before: SymbolTable) -> bool {
    &&& before.scopes@.len() <= after.scopes@.len()
    &&& forall|i: int| 0 <= i < before.scopes@.len() ==> (#[trigger] after.scopes@[i]).parent == before.scopes@[i].parent
}

/// Every scope of `before` is still there, holding every name it held.
pub open spec fn grown(before: SymbolTable, after: SymbolTable) -> bool {
    &&& before.scopes@.len() <= after.scopes@.len()
    &&& forall|i: int, n: Seq<char>| 0 <= i < before.scopes@.len() && (#[trigger] entry_of(before.scopes@[i].symbols@, n)) is Some
        ==> entry_of(after.scopes@[i].symbols@, n) is Some
}

/// Every scope of `before` is still there, holding every name it held.
pub open spec fn kept_in(before: SymbolTable, after: SymbolTable, i: int) -> bool {
    forall|n: Seq<char>| (#[trigger] entry_of(before.scopes@[i].symbols@, n)) is Some ==> entry_of(after.scopes@[i].symbols@, n) is Some
}

/// `after` is `before` after declarations were registered in the current
/// scope: the same scope current, the current scope only added to, every
/// other scope of `before` as it was.
pub open spec fn reg_kept(before: SymbolTable, after: SymbolTable) -> bool {
    &&& after.current_scope == before.current_scope
    &&& after.scopes@.len() >= before.scopes@.len()
    &&& forall|i: int| 0 <= i < before.scopes@.len() && i != before.current_scope ==> #[trigger] after.scopes@[i] == before.scopes@[i]
    &&& kept_in(before, after, before.current_scope as int)
}

proof fn lemma_reg_kept_trans(a: SymbolTable, b: SymbolTable, c: SymbolTable)
    requires
        reg_kept(a, b),
        reg_kept(b, c),
    ensures
        reg_kept(a, c),
{
    assert forall|i: int| 0 <= i < a.scopes@.len() && i != a.current_scope implies #[trigger] c.scopes@[i] == a.scopes@[i] by {
        assert(b.scopes@[i] == a.scopes@[i]);
    }
    let cur = a.current_scope as int;
    assert forall|n: Seq<char>| (#[trigger] entry_of(a.scopes@[cur].symbols@, n)) is Some implies entry_of(c.scopes@[cur].symbols@, n) is Some by {
        assert(entry_of(b.scopes@[cur].symbols@, n) is Some);
    }
}

proof fn lemma_kept_in_trans(a: SymbolTable, b: SymbolTable, c: SymbolTable, cur: int)
    requires
        kept_in(a, b, cur),
        kept_in(b, c, cur),
    ensures
        kept_in(a, c, cur),
{
    assert forall|n: Seq<char>| (#[trigger] entry_of(a.scopes@[cur].symbols@, n)) is Some implies entry_of(c.scopes@[cur].symbols@, n) is Some by {
        assert(entry_of(b.scopes@[cur].symbols@, n) is Some);
    }
}

proof fn lemma_grown_kept_in(a: SymbolTable, b: SymbolTable, cur: int)
    requires
        grown(a, b),
        0 <= cur < a.scopes@.len(),
    ensures
        kept_in(a, b, cur),
{
    assert forall|n: Seq<char>| (#[trigger] entry_of(a.scopes@[cur].symbols@, n)) is Some implies entry_of(b.scopes@[cur].symbols@, n) is Some by {
        assert(entry_of(a.scopes@[cur].symbols@, n) is Some);
    }
}

proof fn lemma_reg_kept_refl(a: SymbolTable)
    ensures
        reg_kept(a, a),
{
}

/// The names a declaration registers are defined in scope `cur` of `t`: a
/// function, struct, trait or module by its name; an enum by its name, each
/// variant by its name and as `Enum::Variant`; each method of an impl block
/// as `Type::method`.
pub open spec fn declared(t: SymbolTable, cur: int, s: Stmt) -> bool {
    let holds = |n: Seq<char>| entry_of(t.scopes@[cur].symbols@, n) is Some;
    match s {
        Stmt::Fn { name, .. } => holds(name@),
        Stmt::Struct { name, .. } => holds(name@),
        Stmt::Trait { name, .. } => holds(name@),
        Stmt::Mod { name, .. } => holds(name@),
        Stmt::Enum { name, variants, .. } => {
            &&& holds(name@)
            &&& forall|k: int| 0 <= k < variants@.len() ==> (#[trigger] entry_of(t.scopes@[cur].symbols@, variants@[k].name@)) is Some
            &&& forall|k: int| 0 <= k < variants@.len()
                ==> (#[trigger] entry_of(t.scopes@[cur].symbols@, name@ + "::"@ + variants@[k].name@)) is Some
        },
        Stmt::Impl { self_type, methods, .. } => forall|k: int| 0 <= k < methods@.len()
            ==> (#[trigger] method_registered(t, cur, self_type@, methods@[k].node)),
        _ => true,
    }
}

/// A method of an impl block for `ty` is defined in scope `cur` as `ty::name`.
pub open spec fn method_registered(t: SymbolTable, cur: int, ty: Seq<char>, m: Stmt) -> bool {
    match m {
        Stmt::Fn { name, .. } => entry_of(t.scopes@[cur].symbols@, ty + "::"@ + name@) is Some,
        _ => true,
    }
}

proof fn lemma_declared_kept(t: SymbolTable, t2: SymbolTable, cur: int, s: Stmt)
    requires
        declared(t, cur, s),
        kept_in(t, t2, cur),
    ensures
        declared(t2, cur, s),
{
    match s {
        Stmt::Fn { name, .. } => assert(entry_of(t.scopes@[cur].symbols@, name@) is Some),
        Stmt::Struct { name, .. } => assert(entry_of(t.scopes@[cur].symbols@, name@) is Some),
        Stmt::Trait { name, .. } => assert(entry_of(t.scopes@[cur].symbols@, name@) is Some),
        Stmt::Mod { name, .. } => assert(entry_of(t.scopes@[cur].symbols@, name@) is Some),
        Stmt::Enum { name, variants, .. } => {
            assert(entry_of(t.scopes@[cur].symbols@, name@) is Some);
            assert forall|k: int| 0 <= k < variants@.len() implies (#[trigger] entry_of(t2.scopes@[cur].symbols@, variants@[k].name@)) is Some by {
                assert(entry_of(t.scopes@[cur].symbols@, variants@[k].name@) is Some);
            }
            assert forall|k: int| 0 <= k < variants@.len() implies (#[trigger] entry_of(t2.scopes@[cur].symbols@, name@ + "::"@ + variants@[k].name@)) is Some by {
                assert(entry_of(t.scopes@[cur].symbols@, name@ + "::"@ + variants@[k].name@) is Some);
            }
        },
        Stmt::Impl { self_type, methods, .. } => {
            assert forall|k: int| 0 <= k < methods@.len() implies #[trigger] method_registered(t2, cur, self_type@, methods@[k].node) by {
                assert(method_registered(t, cur, self_type@, methods@[k].node));
                match methods@[k].node {
                    Stmt::Fn { name, .. } => assert(entry_of(t.scopes@[cur].symbols@, self_type@ + "::"@ + name@) is Some),
                    _ => {},
                }
            }
        },
        _ => {},
    }
}

/// After a `let` or `const` of `name` was resolved, `name` is defined in
/// scope `cur`.
pub open spec fn binding_defined(t: SymbolTable, cur: int, s: Stmt) -> bool {
    match s {
        Stmt::Let { name, .. } => entry_of(t.scopes@[cur].symbols@, name@) is Some,
        Stmt::Const { name, .. } => entry_of(t.scopes@[cur].symbols@, name@) is Some,
        _ => true,
    }
}

/// Walks a program, filling a symbol table and collecting errors.
pub struct Resolver {
    symbols: SymbolTable,
    errors: Vec<Error>,
    current_span: Span,
}

impl Resolver {
    pub closed spec fn wf(&self) -> bool {
        &&& self.symbols.wf()
        &&& forall|i: int| 0 <= i < self.errors@.len() ==> (#[trigger] self.errors@[i]) is Resolve
    }

    /// The table built so far.
    pub closed spec fn table(&self) -> SymbolTable {
        self.symbols
    }

    /// The errors found so far.
    pub closed spec fn errs(&self) -> Seq<Error> {
        self.errors@
    }

    /// `self` is `before` after more of the program was read: still well
    /// formed, the same scope open, no error forgotten.
    pub closed spec fn went_on(&self, before: Self) -> bool {
        &&& self.wf()
        &&& self.symbols.current_scope == before.symbols.current_scope
        &&& before.errors@.len() <= self.errors@.len()
        &&& parents_kept(self.symbols, before.symbols)
        &&& forall|i: int| 0 <= i < before.errors@.len() ==> #[trigger] self.errors@[i] == before.errors@[i]
        &&& grown(before.symbols, self.symbols)
    }

    /// `self` is `before` after a use of `name` was checked: the table is
    /// unchanged; an `undefined name` error was added exactly when no
    /// definition of `name` reaches the current scope.
    /// Two steps each of which kept the errors before it: what the second
    /// added follows what the first added.
    proof fn lemma_flat_step(&self, s0: Self, s1: Self)
        requires
            s1.went_on(s0),
            self.went_on(s1),
        ensures
            self.errors@.skip(s0.errors@.len() as int) == s1.errors@.skip(s0.errors@.len() as int)
                + self.errors@.skip(s1.errors@.len() as int),
    {
        assert(self.errors@.skip(s0.errors@.len() as int) =~= s1.errors@.skip(s0.errors@.len() as int)
            + self.errors@.skip(s1.errors@.len() as int));
    }

    pub closed spec fn checked(&self, before: Self, name: Seq<char>) -> bool {
        &&& self.symbols == before.symbols
        &&& before.symbols.resolves(name) is Some ==> self.errors@ == before.errors@
        &&& before.symbols.resolves(name) is None ==> {
            &&& self.errors@.len() == before.errors@.len() + 1
            &&& self.errors@.take(before.errors@.len() as int) == before.errors@
            &&& self.errors@.last() matches Error::Resolve { msg, .. } && msg@ == "undefined name '"@ + name + "'"@
        }
    }

    pub fn new() -> (r: Resolver)
        ensures
            r.wf(),
            r.table().symbols@.len() == 0,
            r.table().current_scope == 0,
            r.table().scopes@.len() == 1,
            r.table().scopes@[0].symbols@.len() == 0,
            r.errs().len() == 0,
    {
        Resolver { symbols: SymbolTable::new(), errors: Vec::new(), current_span: Span::new(0, 0) }
    }

    fn set_span(&mut self, span: Span)
        requires
            old(self).wf(),
        ensures
            final(self).wf(),
            final(self).symbols == old(self).symbols,
            final(self).errors@ == old(self).errors@,
    {
        self.current_span = span;
    }

    /// Record an error at the statement being resolved.
    fn error(&mut self, msg: String)
        requires
            old(self).wf(),
        ensures
            final(self).wf(),
            final(self).symbols == old(self).symbols,
            final(self).errors@.len() == old(self).errors@.len() + 1,
            final(self).errors@.take(old(self).errors@.len() as int) == old(self).errors@,
            final(self).errors@.last() matches Error::Resolve { location, msg: m } && m == msg
                && location.span == old(self).current_span,
            final(self).current_span == old(self).current_span,
    {
        self.errors.push(Error::Resolve { location: SourceLocation::new(None, self.current_span, 0, 0), msg });
    }

    /// Define `name` in the current scope, recording an error when the scope
    /// already holds it.
    fn define_or_report(&mut self, name: &str, kind: SymKind)
        requires
            old(self).wf(),
        ensures
            final(self).went_on(*old(self)),
            final(self).symbols.scopes@.len() == old(self).symbols.scopes@.len(),
            final(self).current_span == old(self).current_span,
            entry_of(old(self).symbols.scopes@[old(self).symbols.current_scope as int].symbols@, name@) is Some ==> {
                &&& final(self).symbols == old(self).symbols
                &&& final(self).errors@.len() == old(self).errors@.len() + 1
                &&& final(self).errors@.drop_last() == old(self).errors@
                &&& final(self).errors@.last() matches Error::Resolve { location, msg } && location.span == old(self).current_span
                    && msg@ == "duplicate definition of '"@ + name@ + "'"@
            },
            entry_of(old(self).symbols.scopes@[old(self).symbols.current_scope as int].symbols@, name@) is None ==> {
                &&& final(self).errors@ == old(self).errors@
                &&& entry_set(old(self).symbols, final(self).symbols, name@,
                    Some(SymEntry { id: old(self).symbols.symbols@.len() as usize, kind }))
            },
            reg_kept(old(self).symbols, final(self).symbols),
            entry_of(final(self).symbols.scopes@[old(self).symbols.current_scope as int].symbols@, name@) is Some,
    {
        let ghost before = self.symbols;
        match self.symbols.define(name, kind) {
            Ok(_) => {
                proof {
                    let cur = before.current_scope as int;
                    let bs = before.scopes@[cur].symbols@;
                    let fs = self.symbols.scopes@[cur].symbols@;
                    assert forall|n: Seq<char>| #[trigger] entry_of(fs, n)
                        == if n == name@ { Some(SymEntry { id: before.symbols@.len() as usize, kind }) } else { entry_of(bs, n) } by {
                        assert(fs.drop_last() =~= bs);
                    }
                }
            },
            Err(e) => {
                self.error(e);
                proof {
                    assert(self.errors@.drop_last() =~= old(self).errors@);
                }
            },
        }
    }

    /// Resolve a whole program: first register its declarations, then
    /// resolve what they hold. Fails with every error found.
    fn resolve_program(&mut self, program: &Program) -> (r: Result<(), Error>)
        requires
            old(self).wf(),
        ensures
            final(self).wf(),
            r matches Err(e) ==> (e matches Error::ParseMultiple { errors } && errors@.len() > 0
                && forall|i: int| 0 <= i < errors@.len() ==> (#[trigger] errors@[i]) is Resolve),
            old(self).errs().len() > 0 ==> r is Err,
            r is Ok ==> final(self).errs().len() == 0,
            program.stmts@.len() == 0 && old(self).errs().len() == 0 ==> r is Ok && final(self).table() == old(self).table(),
            final(self).table().current_scope == old(self).table().current_scope,
            kept_in(old(self).table(), final(self).table(), old(self).table().current_scope as int),
            forall|k: int| 0 <= k < program.stmts@.len()
                ==> #[trigger] declared(final(self).table(), old(self).table().current_scope as int, program.stmts@[k].node),
            old(self).errs().len() == 0 && name_free_program(program.stmts@) ==> r is Ok,
            old(self).errs().len() == 0 && flat_program(program.stmts@) ==> {
                &&& final(self).table() == old(self).table()
                &&& (r is Ok <==> program_unresolved(old(self).table(), program.stmts@).len() == 0)
                &&& r matches Err(Error::ParseMultiple { errors })
                    ==> reports_undefined(errors@, program_unresolved(old(self).table(), program.stmts@))
            },
    {
        let ghost cur = self.symbols.current_scope as int;
        let mut i: usize = 0;
        while i < program.stmts.len()
            invariant
                self.wf(),
                i <= program.stmts@.len(),
                self.errors@.len() >= old(self).errors@.len(),
                program.stmts@.len() == 0 ==> self.symbols == old(self).symbols && self.errors@ == old(self).errors@,
                name_free_program(program.stmts@) ==> self.errors@ == old(self).errors@,
                flat_program(program.stmts@) ==> self.errors@ == old(self).errors@ && self.symbols == old(self).symbols,
                cur == old(self).symbols.current_scope,
                self.symbols.current_scope == cur,
                kept_in(old(self).symbols, self.symbols, cur),
                forall|j: int| 0 <= j < i ==> #[trigger] declared(self.symbols, cur, program.stmts@[j].node),
            decreases program.stmts@.len() - i,
        {
            self.set_span(program.stmts[i].span);
            let ghost t0 = self.symbols;
            self.register_top_level(&program.stmts[i].node);
            proof {
                lemma_kept_in_trans(old(self).symbols, t0, self.symbols, cur);
                assert forall|j: int| 0 <= j < i + 1 implies #[trigger] declared(self.symbols, cur, program.stmts@[j].node) by {
                    if j < i {
                        lemma_declared_kept(t0, self.symbols, cur, program.stmts@[j].node);
                    }
                }
            }
            i = i + 1;
        }
        let mut i: usize = 0;
        while i < program.stmts.len()
            invariant
                self.wf(),
                self.errors@.len() >= old(self).errors@.len(),
                program.stmts@.len() == 0 ==> self.symbols == old(self).symbols && self.errors@ == old(self).errors@,
                name_free_program(program.stmts@) ==> self.errors@ == old(self).errors@,
                cur == old(self).symbols.current_scope,
                self.symbols.current_scope == cur,
                kept_in(old(self).symbols, self.symbols, cur),
                forall|j: int| 0 <= j < program.stmts@.len() ==> #[trigger] declared(self.symbols, cur, program.stmts@[j].node),
                i <= program.stmts@.len(),
                old(self).errors@.len() == 0 && flat_program(program.stmts@) ==> {
                    &&& self.symbols == old(self).symbols
                    &&& reports_undefined(self.errors@, program_unresolved(old(self).symbols, program.stmts@.take(i as int)))
                },
            decreases program.stmts@.len() - i,
        {
            self.set_span(program.stmts[i].span);
            let ghost t0 = self.symbols;
            let ghost e0 = self.errors@;
            self.resolve_decl(&program.stmts[i].node);
            proof {
                if old(self).errors@.len() == 0 && flat_program(program.stmts@) {
                    let st = program.stmts@[i as int];
                    assert(flat_stmt(st.node));
                    let t = program.stmts@.take(i + 1);
                    assert(t.drop_last() =~= program.stmts@.take(i as int));
                    assert(t.last() == st);
                    if let Stmt::Expr(e) = st.node {
                        assert(self.errors@ =~= e0 + self.errors@.skip(e0.len() as int));
                        lemma_reports_concat(e0, program_unresolved(old(self).symbols, program.stmts@.take(i as int)),
                            self.errors@.skip(e0.len() as int), unresolved_uses(old(self).symbols, e));
                    }
                }
                if name_free_program(program.stmts@) {
                    let st = program.stmts@[i as int];
                    assert(name_free_stmt(st.node));
                    if let Stmt::Expr(e) = st.node {
                        lemma_clean_uses_no_name(t0, e);
                        assert(self.errors@.skip(e0.len() as int).len() == 0);
                        assert(self.errors@ =~= e0);
                    }
                }
                lemma_grown_kept_in(t0, self.symbols, cur);
                lemma_kept_in_trans(old(self).symbols, t0, self.symbols, cur);
                assert forall|j: int| 0 <= j < program.stmts@.len() implies #[trigger] declared(self.symbols, cur, program.stmts@[j].node) by {
                    lemma_declared_kept(t0, self.symbols, cur, program.stmts@[j].node);
                }
            }
            i = i + 1;
        }
        proof {
            assert(program.stmts@.take(program.stmts@.len() as int) =~= program.stmts@);
        }
        if self.errors.len() == 0 {
            Ok(())
        } else {
            let mut errors: Vec<Error> = Vec::new();
            std::mem::swap(&mut errors, &mut self.errors);
            Err(Error::ParseMultiple { errors })
        }
    }

    /// First pass: register a declaration (functions, structs, enums and
    /// their variants, by name and as `Enum::Variant`, traits, impl methods as
    /// `Type::method`, and modules with what they declare).
    fn register_top_level(&mut self, stmt: &Stmt)
        requires
            old(self).wf(),
        ensures
            final(self).went_on(*old(self)),
            reg_kept(old(self).symbols, final(self).symbols),
            declared(final(self).symbols, old(self).symbols.current_scope as int, *stmt),
            *stmt is Expr ==> *final(self) == *old(self),
        decreases stmt, 1nat,
    {
        let ghost cur = self.symbols.current_scope as int;
        proof {
            lemma_reg_kept_refl(self.symbols);
        }
        match stmt {
            Stmt::Fn { name, type_params, params, return_type, .. } => {
                let sig = signature_of(name.clone(), type_params, params, return_type);
                self.define_or_report(name.as_str(), SymKind::Function(sig));
            },
            Stmt::Struct { name, type_params, fields, .. } => {
                let def = StructDef { name: name.clone(), type_params: copy_type_params(type_params), fields: fields.clone() };
                self.define_or_report(name.as_str(), SymKind::Struct(def));
            },
            Stmt::Enum { name, type_params, variants, .. } => {
                let mut v: Vec<(String, Vec<Type>)> = Vec::new();
                let mut k: usize = 0;
                while k < variants.len()
                    invariant
                        k <= variants@.len(),
                    decreases variants@.len() - k,
                {
                    v.push((variants[k].name.clone(), clone_types(&variants[k].fields)));
                    k = k + 1;
                }
                let def = EnumDef { name: name.clone(), type_params: copy_type_params(type_params), variants: v };
                self.define_or_report(name.as_str(), SymKind::Enum(def));
                let mut k: usize = 0;
                while k < variants.len()
                    invariant
                        k <= variants@.len(),
                        self.went_on(*old(self)),
                        reg_kept(old(self).symbols, self.symbols),
                        cur == old(self).symbols.current_scope,
                        entry_of(self.symbols.scopes@[cur].symbols@, name@) is Some,
                        forall|j: int| 0 <= j < k ==> (#[trigger] entry_of(self.symbols.scopes@[cur].symbols@, variants@[j].name@)) is Some,
                        forall|j: int| 0 <= j < k
                            ==> (#[trigger] entry_of(self.symbols.scopes@[cur].symbols@, name@ + "::"@ + variants@[j].name@)) is Some,
                    decreases variants@.len() - k,
                {
                    #[verifier::truncate]
                    let tag = k as u16;
                    let cons = SymKind::EnumConstructor {
                        enum_name: name.clone(),
                        variant_name: variants[k].name.clone(),
                        tag,
                        fields: clone_types(&variants[k].fields),
                    };
                    let ghost t0 = self.symbols;
                    self.define_or_report(variants[k].name.as_str(), cons);
                    let ghost t1 = self.symbols;
                    let full = quoted_path(name, &variants[k].name);
                    let cons2 = SymKind::EnumConstructor {
                        enum_name: name.clone(),
                        variant_name: variants[k].name.clone(),
                        tag,
                        fields: clone_types(&variants[k].fields),
                    };
                    self.define_or_report(full.as_str(), cons2);
                    proof {
                        lemma_reg_kept_trans(old(self).symbols, t0, t1);
                        lemma_reg_kept_trans(old(self).symbols, t1, self.symbols);
                        assert(entry_of(t0.scopes@[cur].symbols@, name@) is Some);
                        assert(entry_of(t1.scopes@[cur].symbols@, name@) is Some);
                        assert(entry_of(t1.scopes@[cur].symbols@, variants@[k as int].name@) is Some);
                        assert forall|j: int| 0 <= j < k + 1 implies (#[trigger] entry_of(self.symbols.scopes@[cur].symbols@, variants@[j].name@)) is Some by {
                            if j < k {
                                assert(entry_of(t0.scopes@[cur].symbols@, variants@[j].name@) is Some);
                                assert(entry_of(t1.scopes@[cur].symbols@, variants@[j].name@) is Some);
                            }
                        }
                        assert forall|j: int| 0 <= j < k + 1
                            implies (#[trigger] entry_of(self.symbols.scopes@[cur].symbols@, name@ + "::"@ + variants@[j].name@)) is Some by {
                            if j < k {
                                assert(entry_of(t0.scopes@[cur].symbols@, name@ + "::"@ + variants@[j].name@) is Some);
                                assert(entry_of(t1.scopes@[cur].symbols@, name@ + "::"@ + variants@[j].name@) is Some);
                            }
                        }
                    }
                    k = k + 1;
                }
            },
            Stmt::Trait { name, type_params, methods, .. } => {
                let mut sigs: Vec<FnSignature> = Vec::new();
                let mut k: usize = 0;
                while k < methods.len()
                    invariant
                        k <= methods@.len(),
                    decreases methods@.len() - k,
                {
                    match &methods[k].node {
                        Stmt::Fn { name: m, type_params: tp, params, return_type, .. } => {
                            sigs.push(signature_of(m.clone(), tp, params, return_type));
                        },
                        _ => {},
                    }
                    k = k + 1;
                }
                let def = TraitDef { name: name.clone(), type_params: copy_type_params(type_params), method_sigs: sigs };
                self.define_or_report(name.as_str(), SymKind::Trait(def));
            },
            Stmt::Impl { self_type, methods, .. } => {
                let mut k: usize = 0;
                while k < methods.len()
                    invariant
                        k <= methods@.len(),
                        self.went_on(*old(self)),
                        reg_kept(old(self).symbols, self.symbols),
                        cur == old(self).symbols.current_scope,
                        forall|j: int| 0 <= j < k ==> #[trigger] method_registered(self.symbols, cur, self_type@, methods@[j].node),
                    decreases methods@.len() - k,
                {
                    let ghost t0 = self.symbols;
                    match &methods[k].node {
                        Stmt::Fn { name, type_params, params, return_type, .. } => {
                            let mut full = self_type.clone();
                            push_str_chars(&mut full, "::");
                            push_str_chars(&mut full, name.as_str());
                            let sig = signature_of(full.clone(), type_params, params, return_type);
                            self.define_or_report(full.as_str(), SymKind::Function(sig));
                            proof {
                                lemma_reg_kept_trans(old(self).symbols, t0, self.symbols);
                            }
                        },
                        _ => {},
                    }
                    proof {
                        assert forall|j: int| 0 <= j < k + 1 implies #[trigger] method_registered(self.symbols, cur, self_type@, methods@[j].node) by {
                            if j < k {
                                assert(method_registered(t0, cur, self_type@, methods@[j].node));
                                match methods@[j].node {
                                    Stmt::Fn { name, .. } => assert(entry_of(t0.scopes@[cur].symbols@, self_type@ + "::"@ + name@) is Some),
                                    _ => {},
                                }
                            }
                        }
                    }
                    k = k + 1;
                }
            },
            Stmt::Mod { name, body, .. } => {
                let entry_scope = self.symbols.current_scope;
                let ghost s0 = self.symbols;
                self.symbols.enter_scope();
                let ghost s1 = self.symbols;
                let module_scope = self.symbols.current_scope;
                match self.symbols.define_in(entry_scope, name.as_str(), SymKind::Module(module_scope)) {
                    Ok(_) => {},
                    Err(e) => self.error(e),
                }
                let ghost s2 = self.symbols;
                self.register_all(body);
                let ghost s3 = self.symbols;
                self.symbols.exit_scope();
                proof {
                    assert(s1.scopes@[cur] == s0.scopes@[cur]);
                    assert(s3.scopes@[cur] == s2.scopes@[cur]);
                    assert forall|i: int| 0 <= i < s0.scopes@.len() && i != cur implies #[trigger] self.symbols.scopes@[i] == s0.scopes@[i] by {
                        assert(s1.scopes@[i] == s0.scopes@[i]);
                        assert(s2.scopes@[i] == s1.scopes@[i]);
                        assert(s3.scopes@[i] == s2.scopes@[i]);
                    }
                    assert forall|n: Seq<char>| (#[trigger] entry_of(s0.scopes@[cur].symbols@, n)) is Some
                        implies entry_of(self.symbols.scopes@[cur].symbols@, n) is Some by {
                        if n != name@ {
                            assert(entry_of(s1.scopes@[cur].symbols@, n) is Some);
                        }
                    }
                }
            },
            _ => {},
        }
    }

    /// Register each of the statements.
    fn register_all(&mut self, stmts: &Vec<Spanned<Stmt>>)
        requires
            old(self).wf(),
        ensures
            final(self).went_on(*old(self)),
            reg_kept(old(self).symbols, final(self).symbols),
            forall|k: int| 0 <= k < stmts@.len()
                ==> #[trigger] declared(final(self).symbols, old(self).symbols.current_scope as int, stmts@[k].node),
        decreases stmts, 0nat,
    {
        let ghost cur = self.symbols.current_scope as int;
        proof {
            lemma_reg_kept_refl(self.symbols);
        }
        let mut k: usize = 0;
        while k < stmts.len()
            invariant
                k <= stmts@.len(),
                self.went_on(*old(self)),
                reg_kept(old(self).symbols, self.symbols),
                cur == old(self).symbols.current_scope,
                forall|j: int| 0 <= j < k ==> #[trigger] declared(self.symbols, cur, stmts@[j].node),
            decreases stmts@.len() - k,
        {
            proof {
                assert(decreases_to!(stmts => stmts@[k as int].node));
            }
            let ghost t0 = self.symbols;
            self.register_top_level(&stmts[k].node);
            proof {
                lemma_reg_kept_trans(old(self).symbols, t0, self.symbols);
                assert forall|j: int| 0 <= j < k + 1 implies #[trigger] declared(self.symbols, cur, stmts@[j].node) by {
                    if j < k {
                        lemma_declared_kept(t0, self.symbols, cur, stmts@[j].node);
                    }
                }
            }
            k = k + 1;
        }
    }
}

impl Resolver {
    /// What an identifier reported before stays reported.
    proof fn lemma_idents_kept(&self, mid: Self, start: Self, es: Seq<Expr>)
        requires
            self.went_on(mid),
            mid.went_on(start),
            forall|j: int| 0 <= j < es.len() ==> #[trigger] ident_reported(es[j], mid.symbols, mid.errors@,
                start.errors@.len() as int),
        ensures
            forall|j: int| 0 <= j < es.len() ==> #[trigger] ident_reported(es[j], self.symbols, self.errors@,
                start.errors@.len() as int),
    {
        assert forall|j: int| 0 <= j < es.len() implies #[trigger] ident_reported(es[j], self.symbols, self.errors@,
            start.errors@.len() as int) by {
            assert(ident_reported(es[j], mid.symbols, mid.errors@, start.errors@.len() as int));
            match es[j] {
                Expr::Ident(n) => {
                    if self.symbols.resolves(n@) is None {
                        if mid.symbols.resolves(n@) is Some {
                            self.lemma_resolves_kept(mid, n@);
                        }
                        let w = choose|w: int| start.errors@.len() <= w < mid.errors@.len() && #[trigger] undefined_error(mid.errors@[w], n@);
                        assert(self.errors@[w] == mid.errors@[w]);
                    }
                },
                _ => {},
            }
        }
    }

    /// What one identifier reported stays reported.
    proof fn lemma_ident_kept(&self, mid: Self, start: Self, e: Expr)
        requires
            self.went_on(mid),
            mid.went_on(start),
            ident_reported(e, mid.symbols, mid.errors@, start.errors@.len() as int),
        ensures
            ident_reported(e, self.symbols, self.errors@, start.errors@.len() as int),
    {
        let es = seq![e];
        assert(es[0] == e);
        self.lemma_idents_kept(mid, start, es);
        assert(ident_reported(es[0], self.symbols, self.errors@, start.errors@.len() as int));
    }

    /// A report from a later position is one from an earlier position.
    proof fn lemma_from_earlier(&self, mid: Self, start: Self, e: Expr)
        requires
            mid.went_on(start),
            ident_reported(e, self.symbols, self.errors@, mid.errors@.len() as int),
        ensures
            ident_reported(e, self.symbols, self.errors@, start.errors@.len() as int),
    {
        match e {
            Expr::Ident(n) => {
                if self.symbols.resolves(n@) is None {
                    let w = choose|w: int| mid.errors@.len() <= w < self.errors@.len() && #[trigger] undefined_error(self.errors@[w], n@);
                    assert(start.errors@.len() <= w);
                }
            },
            _ => {},
        }
    }

    /// A checked identifier that does not resolve afterwards was reported.
    proof fn lemma_checked_reported(&self, mid: Self, start: Self, e: Expr)
        requires
            self.went_on(mid),
            mid.went_on(start),
            match e {
                Expr::Ident(n) => self.checked(mid, n@),
                _ => true,
            },
        ensures
            ident_reported(e, self.symbols, self.errors@, start.errors@.len() as int),
    {
        match e {
            Expr::Ident(n) => {
                if mid.symbols.resolves(n@) is None {
                    let w = self.errors@.len() - 1;
                    assert(undefined_error(self.errors@[w], n@));
                }
            },
            _ => {},
        }
    }

    /// A name that resolves stays resolved as the resolver goes on.
    proof fn lemma_resolves_kept(&self, before: Self, n: Seq<char>)
        requires
            self.went_on(before),
            before.symbols.resolves(n) is Some,
        ensures
            self.symbols.resolves(n) is Some,
    {
        lemma_lookup_grown(before.symbols, self.symbols, before.symbols.current_scope as int, n);
    }

    /// Second pass: resolve what a statement holds. `let` and `const` define
    /// their name in the current scope after their value is resolved.
    fn resolve_decl(&mut self, stmt: &Stmt)
        requires
            old(self).wf(),
        ensures
            final(self).went_on(*old(self)),
            match *stmt {
                Stmt::Let { name, .. } => entry_of(final(self).symbols.scopes@[old(self).symbols.current_scope as int].symbols@,
                    name@) is Some,
                Stmt::Const { name, .. } => entry_of(final(self).symbols.scopes@[old(self).symbols.current_scope as int].symbols@,
                    name@) is Some,
                Stmt::Expr(Expr::Ident(n)) => final(self).checked(*old(self), n@),
                Stmt::Struct { .. } | Stmt::Enum { .. } | Stmt::Trait { .. } | Stmt::Type { .. } => *final(self) == *old(self),
                _ => true,
            },
            match *stmt {
                Stmt::Expr(e) => flat_expr(e) ==> {
                    &&& final(self).symbols == old(self).symbols
                    &&& reports_undefined(final(self).errors@.skip(old(self).errors@.len() as int),
                        unresolved_uses(old(self).symbols, e))
                },
                _ => true,
            },
        decreases stmt, 1nat,
    {
        match stmt {
            Stmt::Fn { params, body, .. } => {
                self.symbols.enter_scope();
                let ghost inner = *self;
                let mut k: usize = 0;
                while k < params.len()
                    invariant
                        k <= params@.len(),
                        self.went_on(inner),
                    decreases params@.len() - k,
                {
                    self.define_or_report(params[k].name.as_str(), SymKind::Variable(param_type(&params[k])));
                    k = k + 1;
                }
                self.resolve_block(body);
                self.symbols.exit_scope();
            },
            Stmt::Impl { trait_name, methods, .. } => {
                match trait_name {
                    Some(t) => {
                        let found = match self.symbols.lookup(t.as_str()) {
                            Some(e) => match e.kind {
                                SymKind::Trait(_) => true,
                                _ => false,
                            },
                            None => false,
                        };
                        if !found {
                            self.error(quoted("cannot find trait ", t.as_str(), ""));
                        }
                    },
                    None => {},
                }
                self.resolve_decls(methods);
            },
            Stmt::Let { name, type_ann, init, .. } => {
                match init {
                    Some(e) => self.resolve_expr(e),
                    None => {},
                }
                let ty = match type_ann {
                    Some(t) => t.clone(),
                    None => Type::Unit,
                };
                self.define_or_report(name.as_str(), SymKind::Variable(ty));
            },
            Stmt::Const { name, type_ann, init, .. } => {
                self.resolve_expr(init);
                let ty = match type_ann {
                    Some(t) => t.clone(),
                    None => Type::Unit,
                };
                self.define_or_report(name.as_str(), SymKind::Variable(ty));
            },
            Stmt::Expr(e) => self.resolve_expr(e),
            Stmt::Return(Some(e)) => self.resolve_expr(e),
            Stmt::Use { path, .. } => {
                if path.len() == 1 {
                    if self.symbols.lookup(path[0].as_str()).is_none() {
                        self.error(quoted("cannot resolve ", path[0].as_str(), ""));
                    }
                } else if path.len() > 1 {
                    let module_name = &path[0];
                    let item_name = &path[path.len() - 1];
                    let scope = match self.symbols.lookup(module_name.as_str()) {
                        Some(e) => match e.kind {
                            SymKind::Module(s) => Ok(s),
                            _ => Err(true),
                        },
                        None => Err(false),
                    };
                    match scope {
                        Ok(scope_idx) => {
                            if scope_idx < self.symbols.scopes.len() {
                                let item = match self.symbols.lookup_in_scope(scope_idx, item_name.as_str()) {
                                    Some(e) => Some(e.kind.clone()),
                                    None => None,
                                };
                                match item {
                                    Some(kind) => {
                                        let ghost t0 = self.symbols;
                                        let _ = self.symbols.define(item_name.as_str(), kind);
                                        proof {
                                            lemma_define_grown(t0, self.symbols, item_name@, SymEntry { id: t0.symbols@.len() as usize, kind });
                                        }
                                    },
                                    None => {
                                        let mut m = quoted("cannot find ", item_name.as_str(), " in module ");
                                        push_str_chars(&mut m, "'");
                                        push_str_chars(&mut m, module_name.as_str());
                                        push_str_chars(&mut m, "'");
                                        self.error(m);
                                    },
                                }
                            }
                        },
                        Err(true) => self.error(quoted("", module_name.as_str(), " is not a module")),
                        Err(false) => self.error(quoted("cannot find module ", module_name.as_str(), "")),
                    }
                }
            },
            Stmt::Mod { name, body, .. } => {
                let scope = match self.symbols.lookup(name.as_str()) {
                    Some(e) => match e.kind {
                        SymKind::Module(s) => Some(s),
                        _ => None,
                    },
                    None => None,
                };
                match scope {
                    Some(scope_idx) => {
                        if scope_idx < self.symbols.scopes.len() {
                            let prev_scope = self.symbols.current_scope;
                            self.symbols.current_scope = scope_idx;
                            self.resolve_decls(body);
                            self.symbols.current_scope = prev_scope;
                        }
                    },
                    None => {},
                }
            },
            _ => {},
        }
    }

    /// Resolve a block's statements in a scope of their own.
    fn resolve_block(&mut self, stmts: &Vec<Spanned<Stmt>>)
        requires
            old(self).wf(),
        ensures
            final(self).went_on(*old(self)),
        decreases stmts, 1nat,
    {
        self.symbols.enter_scope();
        self.resolve_decls(stmts);
        self.symbols.exit_scope();
    }

    /// Resolve each of the statements, in the current scope.
    fn resolve_decls(&mut self, stmts: &Vec<Spanned<Stmt>>)
        requires
            old(self).wf(),
        ensures
            final(self).went_on(*old(self)),
            stmts@.len() > 0 ==> binding_defined(final(self).symbols, old(self).symbols.current_scope as int, stmts@.last().node),
            forall|k: int| 0 <= k < stmts@.len() ==> #[trigger] stmt_ident_reported(stmts@[k].node, final(self).symbols,
                final(self).errors@, old(self).errors@.len() as int),
        decreases stmts, 0nat,
    {
        let mut k: usize = 0;
        while k < stmts.len()
            invariant
                k <= stmts@.len(),
                self.went_on(*old(self)),
                k > 0 ==> binding_defined(self.symbols, old(self).symbols.current_scope as int, stmts@[k - 1].node),
                forall|j: int| 0 <= j < k ==> #[trigger] stmt_ident_reported(stmts@[j].node, self.symbols, self.errors@,
                    old(self).errors@.len() as int),
            decreases stmts@.len() - k,
        {
            proof {
                assert(decreases_to!(stmts => stmts@[k as int].node));
            }
            let ghost mid = *self;
            self.resolve_decl(&stmts[k].node);
            proof {
                assert forall|j: int| 0 <= j < k + 1 implies #[trigger] stmt_ident_reported(stmts@[j].node, self.symbols,
                    self.errors@, old(self).errors@.len() as int) by {
                    match stmts@[j].node {
                        Stmt::Expr(e) => {
                            if j < k {
                                assert(stmt_ident_reported(stmts@[j].node, mid.symbols, mid.errors@, old(self).errors@.len() as int));
                                self.lemma_ident_kept(mid, *old(self), e);
                            } else {
                                self.lemma_checked_reported(mid, *old(self), e);
                            }
                        },
                        _ => {},
                    }
                }
            }
            k = k + 1;
        }
    }

    /// Resolve the names an expression uses; closures, `for` loops and match
    /// arms that bind names get a scope of their own.
    fn resolve_expr(&mut self, expr: &Expr)
        requires
            old(self).wf(),
        ensures
            final(self).went_on(*old(self)),
            match *expr {
                Expr::Ident(n) => final(self).checked(*old(self), n@),
                _ => true,
            },
            flat_expr(*expr) ==> {
                &&& final(self).symbols == old(self).symbols
                &&& reports_undefined(final(self).errors@.skip(old(self).errors@.len() as int),
                    unresolved_uses(old(self).symbols, *expr))
            },
            match *expr {
                Expr::Lambda { params, body, .. } => match *body {
                    Expr::Ident(n) => {
                        &&& params_distinct(params@) && param_named(params@, n@) ==> final(self).errors@ == old(self).errors@
                        &&& !param_named(params@, n@) && final(self).symbols.resolves(n@) is None
                            ==> undefined_reported(final(self).errors@, old(self).errors@.len() as int, n@)
                    },
                    _ => true,
                },
                Expr::For { var, iter, body } => match *body {
                    Expr::Ident(n) => flat_expr(*iter) && unresolved_uses(old(self).symbols, *iter).len() == 0
                        && n@ == var@ ==> final(self).errors@ == old(self).errors@,
                    _ => true,
                },
                _ => true,
            },
            match *expr {
                Expr::Lambda { params, body, .. } => params_distinct(params@) && flat_expr(*body) ==> reports_undefined(
                    final(self).errors@.skip(old(self).errors@.len() as int),
                    unresolved_under(final(self).symbols, |m: Seq<char>| param_named(params@, m), *body),
                ),
                Expr::For { var, iter, body } => flat_expr(*iter) && flat_expr(*body) ==> reports_undefined(
                    final(self).errors@.skip(old(self).errors@.len() as int),
                    unresolved_uses(old(self).symbols, *iter)
                        + unresolved_under(final(self).symbols, |m: Seq<char>| m == var@, *body),
                ),
                _ => true,
            },
        decreases expr, 2nat,
    {
        match expr {
            Expr::Ident(name) => {
                self.check_name(name);
                proof {
                    let k = old(self).errors@.len() as int;
                    if old(self).symbols.resolves(name@) is None {
                        assert(self.errors@.skip(k) =~= seq![self.errors@.last()]);
                    } else {
                        assert(self.errors@.skip(k) =~= Seq::<Error>::empty());
                    }
                }
            },
            Expr::Binary { lhs, rhs, .. } => {
                let ghost s0 = *self;
                self.resolve_expr(lhs);
                let ghost s1 = *self;
                self.resolve_expr(rhs);
                proof {
                    self.lemma_flat_step(s0, s1);
                    if flat_expr(*expr) {
                        lemma_reports_concat(s1.errors@.skip(s0.errors@.len() as int), unresolved_uses(s0.symbols, **lhs),
                            self.errors@.skip(s1.errors@.len() as int), unresolved_uses(s1.symbols, **rhs));
                    }
                }
            },
            Expr::Unary { expr: inner, .. } => self.resolve_expr(inner),
            Expr::Call { func, args } => {
                let ghost s0 = *self;
                self.resolve_expr(func);
                let ghost s1 = *self;
                self.resolve_exprs(args);
                proof {
                    self.lemma_flat_step(s0, s1);
                    if flat_expr(*expr) {
                        lemma_reports_concat(s1.errors@.skip(s0.errors@.len() as int), unresolved_uses(s0.symbols, **func),
                            self.errors@.skip(s1.errors@.len() as int), unresolved_list(s1.symbols, args@));
                    }
                }
            },
            Expr::MethodCall { obj, args, .. } => {
                let ghost s0 = *self;
                self.resolve_expr(obj);
                let ghost s1 = *self;
                self.resolve_exprs(args);
                proof {
                    self.lemma_flat_step(s0, s1);
                    if flat_expr(*expr) {
                        lemma_reports_concat(s1.errors@.skip(s0.errors@.len() as int), unresolved_uses(s0.symbols, **obj),
                            self.errors@.skip(s1.errors@.len() as int), unresolved_list(s1.symbols, args@));
                    }
                }
            },
            Expr::Field { obj, .. } => self.resolve_expr(obj),
            Expr::Index { obj, index } => {
                let ghost s0 = *self;
                self.resolve_expr(obj);
                let ghost s1 = *self;
                self.resolve_expr(index);
                proof {
                    self.lemma_flat_step(s0, s1);
                    if flat_expr(*expr) {
                        lemma_reports_concat(s1.errors@.skip(s0.errors@.len() as int), unresolved_uses(s0.symbols, **obj),
                            self.errors@.skip(s1.errors@.len() as int), unresolved_uses(s1.symbols, **index));
                    }
                }
            },
            Expr::Block(stmts) => self.resolve_block(stmts),
            Expr::If { cond, then, else_ } => {
                self.resolve_expr(cond);
                self.resolve_expr(then);
                match else_ {
                    Some(e) => self.resolve_expr(e),
                    None => {},
                }
            },
            Expr::While { cond, body } => {
                self.resolve_expr(cond);
                self.resolve_expr(body);
            },
            Expr::For { var, iter, body } => {
                self.resolve_expr(iter);
                let ghost mid = *self;
                let bound = vec![(var.clone(), Type::Unit)];
                proof {
                    assert(bound@[0].0@ == var@);
                    assert(bound_distinct(bound@));
                    match &**body {
                        Expr::Ident(n) => {
                            if n@ == var@ {
                                assert(scoped_name(bound@, n@));
                            }
                            if flat_expr(**iter) && unresolved_uses(old(self).symbols, **iter).len() == 0 {
                                assert(self.errors@.skip(old(self).errors@.len() as int).len() == 0);
                                assert(self.errors@ =~= old(self).errors@);
                            }
                        },
                        _ => {},
                    }
                }
                let ghost s1 = *self;
                proof {
                    assert((|m: Seq<char>| scoped_name(bound@, m)) =~= (|m: Seq<char>| m == var@)) by {
                        assert forall|m: Seq<char>| scoped_name(bound@, m) == (m == var@) by {
                            if m == var@ {
                                assert(bound@[0].0@ == m);
                            }
                        }
                    }
                }
                self.resolve_scoped(bound, body);
                proof {
                    self.lemma_flat_step(*old(self), s1);
                    if flat_expr(**iter) && flat_expr(**body) {
                        lemma_reports_concat(s1.errors@.skip(old(self).errors@.len() as int),
                            unresolved_uses(old(self).symbols, **iter),
                            self.errors@.skip(s1.errors@.len() as int),
                            unresolved_under(self.symbols, |m: Seq<char>| m == var@, **body));
                    }
                }
            },
            Expr::Loop(body) => self.resolve_expr(body),
            Expr::Match { expr: target, arms } => {
                self.resolve_expr(target);
                self.resolve_arms(arms);
            },
            Expr::Return(Some(inner)) => self.resolve_expr(inner),
            Expr::StructLit { fields, spread, .. } => {
                self.resolve_fields(fields);
                match spread {
                    Some(s) => self.resolve_expr(s),
                    None => {},
                }
            },
            Expr::Array(elems) => self.resolve_exprs(elems),
            Expr::EnumCtor { args, .. } => self.resolve_exprs(args),
            Expr::Yield(inner) => self.resolve_expr(inner),
            Expr::Range { start, end, .. } => {
                let ghost s0 = *self;
                self.resolve_expr(start);
                let ghost s1 = *self;
                self.resolve_expr(end);
                proof {
                    self.lemma_flat_step(s0, s1);
                    if flat_expr(*expr) {
                        lemma_reports_concat(s1.errors@.skip(s0.errors@.len() as int), unresolved_uses(s0.symbols, **start),
                            self.errors@.skip(s1.errors@.len() as int), unresolved_uses(s1.symbols, **end));
                    }
                }
            },
            Expr::Lambda { params, body, .. } => {
                let mut names: Vec<(String, Type)> = Vec::new();
                let mut k: usize = 0;
                while k < params.len()
                    invariant
                        k <= params@.len(),
                        names@.len() == k,
                        forall|j: int| 0 <= j < k ==> (#[trigger] names@[j]).0@ == params@[j].name@,
                    decreases params@.len() - k,
                {
                    names.push((params[k].name.clone(), param_type(&params[k])));
                    k = k + 1;
                }
                proof {
                    assert forall|n: Seq<char>| scoped_name(names@, n) == param_named(params@, n) by {
                        if scoped_name(names@, n) {
                            let w = choose|w: int| 0 <= w < names@.len() && #[trigger] names@[w].0@ == n;
                            assert(params@[w].name@ == n);
                        }
                        if param_named(params@, n) {
                            let w = choose|w: int| 0 <= w < params@.len() && #[trigger] params@[w].name@ == n;
                            assert(names@[w].0@ == n);
                        }
                    }
                    if params_distinct(params@) {
                        assert forall|i: int, j: int| 0 <= i < j < names@.len() implies names@[i].0@ != names@[j].0@ by {
                            assert(names@[i].0@ == params@[i].name@);
                            assert(names@[j].0@ == params@[j].name@);
                        }
                    }
                }
                proof {
                    assert((|m: Seq<char>| scoped_name(names@, m)) =~= (|m: Seq<char>| param_named(params@, m)));
                }
                self.resolve_scoped(names, body);
            },
            _ => {},
        }
    }

    /// Resolve `body` in a new scope that first defines the given names as
    /// variables of the given types.
    fn resolve_scoped(&mut self, names: Vec<(String, Type)>, body: &Expr)
        requires
            old(self).wf(),
        ensures
            final(self).went_on(*old(self)),
            match *body {
                Expr::Ident(n) => !scoped_name(names@, n@) && final(self).symbols.resolves(n@) is None
                    ==> undefined_reported(final(self).errors@, old(self).errors@.len() as int, n@),
                _ => true,
            },
            match *body {
                Expr::Ident(n) => bound_distinct(names@) && scoped_name(names@, n@) ==> final(self).errors@ == old(self).errors@,
                _ => true,
            },
            bound_distinct(names@) && flat_expr(*body) ==> reports_undefined(
                final(self).errors@.skip(old(self).errors@.len() as int),
                unresolved_under(final(self).symbols, |m: Seq<char>| scoped_name(names@, m), *body),
            ),
        decreases body, 3nat,
    {
        self.symbols.enter_scope();
        let ghost inner = *self;
        let ghost idx = self.symbols.current_scope as int;
        let mut k: usize = 0;
        while k < names.len()
            invariant
                k <= names@.len(),
                self.went_on(inner),
                idx == inner.symbols.current_scope,
                idx == old(self).symbols.scopes@.len(),
                self.symbols.scopes@.len() == inner.symbols.scopes@.len(),
                self.symbols.scopes@[idx].parent == Some(old(self).symbols.current_scope),
                forall|i: int| 0 <= i < idx ==> #[trigger] self.symbols.scopes@[i] == old(self).symbols.scopes@[i],
                forall|m: Seq<char>| (#[trigger] entry_of(self.symbols.scopes@[idx].symbols@, m)) is Some
                    ==> scoped_name(names@.take(k as int), m),
                forall|j: int| 0 <= j < k ==> (#[trigger] entry_of(self.symbols.scopes@[idx].symbols@, names@[j].0@)) is Some,
                self.symbols.current_scope == idx,
                bound_distinct(names@) ==> self.errors@ == old(self).errors@,
            decreases names@.len() - k,
        {
            let ghost before = self.symbols;
            proof {
                if bound_distinct(names@) && entry_of(before.scopes@[idx].symbols@, names@[k as int].0@) is Some {
                    let w = choose|w: int| 0 <= w < names@.take(k as int).len() && #[trigger] names@.take(k as int)[w].0@ == names@[k as int].0@;
                    assert(names@[w].0@ != names@[k as int].0@);
                }
            }
            self.define_or_report(names[k].0.as_str(), SymKind::Variable(names[k].1.clone()));
            proof {
                assert forall|j: int| 0 <= j < k + 1 implies (#[trigger] entry_of(self.symbols.scopes@[idx].symbols@, names@[j].0@)) is Some by {
                    if j < k {
                        assert(entry_of(before.scopes@[idx].symbols@, names@[j].0@) is Some);
                    }
                }
                assert forall|m: Seq<char>| (#[trigger] entry_of(self.symbols.scopes@[idx].symbols@, m)) is Some
                    implies scoped_name(names@.take(k + 1), m) by {
                    if m == names@[k as int].0@ {
                        assert(names@.take(k + 1)[k as int].0@ == m);
                    } else {
                        assert(entry_of(before.scopes@[idx].symbols@, m) is Some);
                        let w = choose|w: int| 0 <= w < names@.take(k as int).len() && #[trigger] names@.take(k as int)[w].0@ == m;
                        assert(names@.take(k + 1)[w].0@ == m);
                    }
                }
            }
            k = k + 1;
        }
        let ghost mid = *self;
        proof {
            assert(names@.take(names@.len() as int) =~= names@);
            match body {
                Expr::Ident(n) => {
                    if scoped_name(names@, n@) {
                        let w = choose|w: int| 0 <= w < names@.len() && #[trigger] names@[w].0@ == n@;
                        assert(entry_of(mid.symbols.scopes@[idx].symbols@, names@[w].0@) is Some);
                        assert(mid.symbols.resolves(n@) is Some);
                    }
                },
                _ => {},
            }
        }
        self.resolve_expr(body);
        let ghost after = *self;
        self.symbols.exit_scope();
        proof {
            if bound_distinct(names@) && flat_expr(*body) {
                let bound = |m: Seq<char>| scoped_name(names@, m);
                assert forall|m: Seq<char>| (#[trigger] mid.symbols.resolves(m) is None)
                    == (!bound(m) && self.symbols.resolves(m) is None) by {
                    if entry_of(mid.symbols.scopes@[idx].symbols@, m) is Some {
                        assert(mid.symbols.resolves(m) is Some);
                    } else {
                        if scoped_name(names@, m) {
                            let w = choose|w: int| 0 <= w < names@.len() && #[trigger] names@[w].0@ == m;
                            assert(entry_of(mid.symbols.scopes@[idx].symbols@, names@[w].0@) is Some);
                        }
                        assert(mid.symbols.resolves(m) == lookup_from(mid.symbols.scopes@, old(self).symbols.current_scope as int, m));
                        assert(after.symbols == mid.symbols);
                        assert(self.symbols.scopes@ == mid.symbols.scopes@);
                    }
                }
                lemma_unresolved_under(mid.symbols, self.symbols, bound, *body);
                assert(mid.errors@ == old(self).errors@);
                assert(self.errors@ == after.errors@);
            }
            match body {
                Expr::Ident(n) => {
                    if !scoped_name(names@, n@) && self.symbols.resolves(n@) is None {
                        assert(entry_of(mid.symbols.scopes@[idx].symbols@, n@) is None);
                        assert(mid.symbols.resolves(n@) == lookup_from(mid.symbols.scopes@, old(self).symbols.current_scope as int, n@));
                        assert(after.symbols == mid.symbols);
                        assert(self.symbols.scopes@ == mid.symbols.scopes@);
                        let w = after.errors@.len() - 1;
                        assert(undefined_error(self.errors@[w], n@));
                    }
                },
                _ => {},
            }
            assert(inner.symbols.scopes@.take(old(self).symbols.scopes@.len() as int) == old(self).symbols.scopes@);
            assert forall|i: int| 0 <= i < old(self).symbols.scopes@.len() implies (#[trigger] self.symbols.scopes@[i]).parent
                == old(self).symbols.scopes@[i].parent by {
                assert(inner.symbols.scopes@[i] == inner.symbols.scopes@.take(old(self).symbols.scopes@.len() as int)[i]);
            }
        }
    }

    /// Report `name` when no definition of it reaches the current scope.
    fn check_name(&mut self, name: &String)
        requires
            old(self).wf(),
        ensures
            final(self).went_on(*old(self)),
            final(self).checked(*old(self), name@),
    {
        if self.symbols.lookup(name.as_str()).is_none() {
            let mut m = String::new();
            push_str_chars(&mut m, "undefined name '");
            push_str_chars(&mut m, name.as_str());
            push_str_chars(&mut m, "'");
            self.error(m);
        }
    }

    fn resolve_fields(&mut self, v: &Vec<(String, Expr)>)
        requires
            old(self).wf(),
        ensures
            final(self).went_on(*old(self)),
            forall|k: int| 0 <= k < v@.len() ==> #[trigger] ident_reported(v@[k].1, final(self).symbols,
                final(self).errors@, old(self).errors@.len() as int),
        decreases v, 0nat,
    {
        let mut k: usize = 0;
        while k < v.len()
            invariant
                k <= v@.len(),
                self.went_on(*old(self)),
                forall|j: int| 0 <= j < k ==> #[trigger] ident_reported(v@[j].1, self.symbols, self.errors@,
                    old(self).errors@.len() as int),
            decreases v@.len() - k,
        {
            proof {
                assert(decreases_to!(v => v@[k as int].1));
            }
            let ghost mid = *self;
            self.resolve_expr(&v[k].1);
            proof {
                assert forall|j: int| 0 <= j < k + 1 implies #[trigger] ident_reported(v@[j].1, self.symbols, self.errors@,
                    old(self).errors@.len() as int) by {
                    if j < k {
                        self.lemma_ident_kept(mid, *old(self), v@[j].1);
                    } else {
                        self.lemma_checked_reported(mid, *old(self), v@[j].1);
                    }
                }
            }
            k = k + 1;
        }
    }

    fn resolve_arms(&mut self, arms: &Vec<MatchArm>)
        requires
            old(self).wf(),
        ensures
            final(self).went_on(*old(self)),
            forall|k: int| 0 <= k < arms@.len() ==> #[trigger] arm_reported(arms@[k], final(self).symbols,
                final(self).errors@, old(self).errors@.len() as int),
        decreases arms, 1nat,
    {
        let mut k: usize = 0;
        while k < arms.len()
            invariant
                k <= arms@.len(),
                self.went_on(*old(self)),
                forall|j: int| 0 <= j < k ==> #[trigger] arm_reported(arms@[j], self.symbols, self.errors@,
                    old(self).errors@.len() as int),
            decreases arms@.len() - k,
        {
            proof {
                assert(decreases_to!(arms => arms@[k as int]));
            }
            let ghost mid = *self;
            self.resolve_arm(&arms[k]);
            proof {
                assert forall|j: int| 0 <= j < k + 1 implies #[trigger] arm_reported(arms@[j], self.symbols, self.errors@,
                    old(self).errors@.len() as int) by {
                    if j < k {
                        assert(arm_reported(arms@[j], mid.symbols, mid.errors@, old(self).errors@.len() as int));
                        if !(arms@[j].pattern is Ident || arms@[j].pattern is EnumVariant) {
                            self.lemma_ident_kept(mid, *old(self), *arms@[j].body);
                            if arms@[j].guard is Some {
                                self.lemma_ident_kept(mid, *old(self), *arms@[j].guard->0);
                            }
                        }
                    } else {
                        assert(arm_reported(arms@[j], self.symbols, self.errors@, mid.errors@.len() as int));
                        if !(arms@[j].pattern is Ident || arms@[j].pattern is EnumVariant) {
                            self.lemma_from_earlier(mid, *old(self), *arms@[j].body);
                            if arms@[j].guard is Some {
                                self.lemma_from_earlier(mid, *old(self), *arms@[j].guard->0);
                            }
                        }
                    }
                }
            }
            k = k + 1;
        }
    }

    /// A match arm: a pattern that binds names gets a scope of its own,
    /// holding them (`_` bindings are skipped), for the guard and the body.
    fn resolve_arm(&mut self, arm: &MatchArm)
        requires
            old(self).wf(),
        ensures
            final(self).went_on(*old(self)),
            arm_reported(*arm, final(self).symbols, final(self).errors@, old(self).errors@.len() as int),
        decreases arm, 0nat,
    {
        let enters = match &arm.pattern {
            Pattern::Ident(_) | Pattern::EnumVariant { .. } => true,
            _ => false,
        };
        if enters {
            self.symbols.enter_scope();
        }
        let ghost inner = *self;
        match &arm.pattern {
            Pattern::Ident(n) => self.define_or_report(n.as_str(), SymKind::Variable(Type::Unit)),
            Pattern::EnumVariant { bindings, .. } => {
                let mut b: usize = 0;
                while b < bindings.len()
                    invariant
                        b <= bindings@.len(),
                        self.went_on(inner),
                    decreases bindings@.len() - b,
                {
                    if bindings[b].as_str().as_bytes().len() > 0 {
                        self.define_or_report(bindings[b].as_str(), SymKind::Variable(Type::Unit));
                    }
                    b = b + 1;
                }
            },
            _ => {},
        }
        let ghost g0 = *self;
        match &arm.guard {
            Some(g) => self.resolve_expr(g),
            None => {},
        }
        let ghost b0 = *self;
        self.resolve_expr(&arm.body);
        if enters {
            self.symbols.exit_scope();
        }
        proof {
            if !enters {
                assert(g0 == *old(self));
                self.lemma_checked_reported(b0, *old(self), *arm.body);
                if arm.guard is Some {
                    let g = *arm.guard->0;
                    b0.lemma_checked_reported(g0, *old(self), g);
                    self.lemma_ident_kept(b0, *old(self), g);
                }
            }
        }
    }

    fn resolve_exprs(&mut self, v: &Vec<Expr>)
        requires
            old(self).wf(),
        ensures
            final(self).went_on(*old(self)),
            forall|k: int| 0 <= k < v@.len() ==> #[trigger] ident_reported(v@[k], final(self).symbols,
                final(self).errors@, old(self).errors@.len() as int),
            flat_exprs(v@) ==> {
                &&& final(self).symbols == old(self).symbols
                &&& reports_undefined(final(self).errors@.skip(old(self).errors@.len() as int),
                    unresolved_list(old(self).symbols, v@))
            },
        decreases v, 0nat,
    {
        proof {
            assert(v@.take(0) =~= Seq::<Expr>::empty());
            assert(self.errors@.skip(self.errors@.len() as int) =~= Seq::<Error>::empty());
        }
        let mut k: usize = 0;
        while k < v.len()
            invariant
                k <= v@.len(),
                self.went_on(*old(self)),
                forall|j: int| 0 <= j < k ==> #[trigger] ident_reported(v@[j], self.symbols, self.errors@,
                    old(self).errors@.len() as int),
                flat_exprs(v@) ==> {
                    &&& self.symbols == old(self).symbols
                    &&& reports_undefined(self.errors@.skip(old(self).errors@.len() as int),
                        unresolved_list(old(self).symbols, v@.take(k as int)))
                },
            decreases v@.len() - k,
        {
            proof {
                assert(decreases_to!(v => v@[k as int]));
            }
            let ghost mid = *self;
            self.resolve_expr(&v[k]);
            proof {
                self.lemma_flat_step(*old(self), mid);
                if flat_exprs(v@) {
                    lemma_flat_prefix(v@, k + 1);
                    let es = v@.take(k as int + 1);
                    assert(es.drop_last() =~= v@.take(k as int));
                    assert(es.last() == v@[k as int]);
                    lemma_reports_concat(mid.errors@.skip(old(self).errors@.len() as int),
                        unresolved_list(old(self).symbols, v@.take(k as int)),
                        self.errors@.skip(mid.errors@.len() as int), unresolved_uses(mid.symbols, v@[k as int]));
                }
                self.lemma_idents_kept(mid, *old(self), v@.take(k as int));
                assert forall|j: int| 0 <= j < k + 1 implies #[trigger] ident_reported(v@[j], self.symbols, self.errors@,
                    old(self).errors@.len() as int) by {
                    if j < k {
                        assert(v@.take(k as int)[j] == v@[j]);
                    } else {
                        self.lemma_checked_reported(mid, *old(self), v@[j]);
                    }
                }
            }
            k = k + 1;
        }
        proof {
            assert(v@.take(v@.len() as int) =~= v@);
        }
    }
}

/// A definition in the current scope keeps every name the scope held.
proof fn lemma_define_keeps(before: SymbolTable, after: SymbolTable, name: Seq<char>, e: SymEntry)
    requires
        before.wf(),
        after.current_scope == before.current_scope,
        after.scopes@.len() == before.scopes@.len(),
        entry_of(before.scopes@[before.current_scope as int].symbols@, name) is Some ==> after == before,
        entry_of(before.scopes@[before.current_scope as int].symbols@, name) is None ==> {
            &&& after.scopes@[before.current_scope as int].symbols@ == before.scopes@[before.current_scope as int].symbols@.push(
                (after.scopes@[before.current_scope as int].symbols@.last().0, e))
            &&& after.scopes@[before.current_scope as int].symbols@.last().0@ == name
        },
    ensures
        forall|n: Seq<char>| (#[trigger] entry_of(before.scopes@[before.current_scope as int].symbols@, n)) is Some || n == name
            ==> entry_of(after.scopes@[before.current_scope as int].symbols@, n) is Some,
{
    let cur = before.current_scope as int;
    if entry_of(before.scopes@[cur].symbols@, name) is None {
        assert forall|n: Seq<char>| (#[trigger] entry_of(before.scopes@[cur].symbols@, n)) is Some || n == name
            implies entry_of(after.scopes@[cur].symbols@, n) is Some by {
            assert(after.scopes@[cur].symbols@.drop_last() =~= before.scopes@[cur].symbols@);
        }
    }
}

/// An expression that is a name that does not resolve in `t` was reported
/// as undefined in `errors`, from position `from` on.
pub open spec fn ident_reported(e: Expr, t: SymbolTable, errors: Seq<Error>, from: int) -> bool {
    match e {
        Expr::Ident(n) => t.resolves(n@) is None ==> undefined_reported(errors, from, n@),
        _ => true,
    }
}

/// An expression statement that is a name that does not resolve in `t` was
/// reported as undefined.
pub open spec fn stmt_ident_reported(s: Stmt, t: SymbolTable, errors: Seq<Error>, from: int) -> bool {
    match s {
        Stmt::Expr(e) => ident_reported(e, t, errors, from),
        _ => true,
    }
}

/// A match arm whose pattern binds no name: its guard and body, when they
/// are names that do not resolve in `t`, were reported as undefined.
pub open spec fn arm_reported(arm: MatchArm, t: SymbolTable, errors: Seq<Error>, from: int) -> bool {
    !(arm.pattern is Ident || arm.pattern is EnumVariant) ==> {
        &&& ident_reported(*arm.body, t, errors, from)
        &&& match arm.guard {
            Some(g) => ident_reported(*g, t, errors, from),
            None => true,
        }
    }
}

/// Some of the names a scope is opened with is `n`.
/// No two parameters have the same name.
pub open spec fn params_distinct(ps: Seq<Param>) -> bool {
    forall|i: int, j: int| 0 <= i < j < ps.len() ==> ps[i].name@ != ps[j].name@
}

/// Some parameter is named `n`.
pub open spec fn param_named(ps: Seq<Param>, n: Seq<char>) -> bool {
    exists|w: int| 0 <= w < ps.len() && #[trigger] ps[w].name@ == n
}

/// No two of the bound names are the same.
pub open spec fn bound_distinct(names: Seq<(String, Type)>) -> bool {
    forall|i: int, j: int| 0 <= i < j < names.len() ==> names[i].0@ != names[j].0@
}

pub open spec fn scoped_name(names: Seq<(String, Type)>, n: Seq<char>) -> bool {
    exists|w: int| 0 <= w < names.len() && #[trigger] names[w].0@ == n
}

/// Some error from position `from` on reports `n` as undefined.
/// An expression that opens no scope: names, literals and the operators,
/// reads, ranges, yields and returns built from them.
pub open spec fn flat_expr(e: Expr) -> bool
    decreases e, 1nat,
{
    match e {
        Expr::Call { func, args } => flat_expr(*func) && flat_exprs(args@),
        Expr::MethodCall { obj, args, .. } => flat_expr(*obj) && flat_exprs(args@),
        Expr::Array(elems) => flat_exprs(elems@),
        Expr::EnumCtor { args, .. } => flat_exprs(args@),
        Expr::Int(_) | Expr::Float(_) | Expr::Str(_) | Expr::Bool(_) | Expr::Unit | Expr::Ident(_) => true,
        Expr::Binary { lhs, rhs, .. } => flat_expr(*lhs) && flat_expr(*rhs),
        Expr::Unary { expr: inner, .. } => flat_expr(*inner),
        Expr::Field { obj, .. } => flat_expr(*obj),
        Expr::Index { obj, index } => flat_expr(*obj) && flat_expr(*index),
        Expr::Range { start, end, .. } => flat_expr(*start) && flat_expr(*end),
        Expr::Yield(inner) => flat_expr(*inner),
        _ => false,
    }
}

/// The names a flat expression uses that no definition visible from the
/// current scope of `t` answers, left to right.
pub open spec fn unresolved_uses(t: SymbolTable, e: Expr) -> Seq<Seq<char>>
    decreases e, 1nat,
{
    match e {
        Expr::Call { func, args } => unresolved_uses(t, *func) + unresolved_list(t, args@),
        Expr::MethodCall { obj, args, .. } => unresolved_uses(t, *obj) + unresolved_list(t, args@),
        Expr::Array(elems) => unresolved_list(t, elems@),
        Expr::EnumCtor { args, .. } => unresolved_list(t, args@),
        Expr::Ident(n) => if t.resolves(n@) is None { seq![n@] } else { Seq::empty() },
        Expr::Binary { lhs, rhs, .. } => unresolved_uses(t, *lhs) + unresolved_uses(t, *rhs),
        Expr::Unary { expr: inner, .. } => unresolved_uses(t, *inner),
        Expr::Field { obj, .. } => unresolved_uses(t, *obj),
        Expr::Index { obj, index } => unresolved_uses(t, *obj) + unresolved_uses(t, *index),
        Expr::Range { start, end, .. } => unresolved_uses(t, *start) + unresolved_uses(t, *end),
        Expr::Yield(inner) => unresolved_uses(t, *inner),
        _ => Seq::empty(),
    }
}

/// The names a flat expression uses that neither `bound` holds nor a
/// definition visible from the current scope of `t` answers, left to right:
/// the unresolved uses of a body that a scope binding `bound` encloses.
pub open spec fn unresolved_under(t: SymbolTable, bound: spec_fn(Seq<char>) -> bool, e: Expr) -> Seq<Seq<char>>
    decreases e, 1nat,
{
    match e {
        Expr::Ident(n) => if !bound(n@) && t.resolves(n@) is None { seq![n@] } else { Seq::empty() },
        Expr::Call { func, args } => unresolved_under(t, bound, *func) + unresolved_under_list(t, bound, args@),
        Expr::MethodCall { obj, args, .. } => unresolved_under(t, bound, *obj) + unresolved_under_list(t, bound, args@),
        Expr::Array(elems) => unresolved_under_list(t, bound, elems@),
        Expr::EnumCtor { args, .. } => unresolved_under_list(t, bound, args@),
        Expr::Binary { lhs, rhs, .. } => unresolved_under(t, bound, *lhs) + unresolved_under(t, bound, *rhs),
        Expr::Unary { expr: inner, .. } => unresolved_under(t, bound, *inner),
        Expr::Field { obj, .. } => unresolved_under(t, bound, *obj),
        Expr::Index { obj, index } => unresolved_under(t, bound, *obj) + unresolved_under(t, bound, *index),
        Expr::Range { start, end, .. } => unresolved_under(t, bound, *start) + unresolved_under(t, bound, *end),
        Expr::Yield(inner) => unresolved_under(t, bound, *inner),
        _ => Seq::empty(),
    }
}

/// `unresolved_under` of each expression of the list, in order.
pub open spec fn unresolved_under_list(t: SymbolTable, bound: spec_fn(Seq<char>) -> bool, es: Seq<Expr>) -> Seq<Seq<char>>
    decreases es, 0nat,
{
    if es.len() == 0 {
        Seq::empty()
    } else {
        unresolved_under_list(t, bound, es.drop_last()) + unresolved_under(t, bound, es.last())
    }
}

/// When a name is unresolved in `inner` exactly when `bound` does not hold
/// it and it is unresolved in `outer`, the unresolved uses of `e` in
/// `inner` are its uses under `bound` in `outer`.
proof fn lemma_unresolved_under(inner: SymbolTable, outer: SymbolTable, bound: spec_fn(Seq<char>) -> bool, e: Expr)
    requires
        forall|m: Seq<char>| (#[trigger] inner.resolves(m) is None) == (!bound(m) && outer.resolves(m) is None),
    ensures
        unresolved_uses(inner, e) == unresolved_under(outer, bound, e),
    decreases e, 1nat,
{
    match e {
        Expr::Ident(n) => {
            assert(inner.resolves(n@) is None == (!bound(n@) && outer.resolves(n@) is None));
        },
        Expr::Call { func, args } => {
            lemma_unresolved_under(inner, outer, bound, *func);
            lemma_unresolved_under_list(inner, outer, bound, args@);
        },
        Expr::MethodCall { obj, args, .. } => {
            lemma_unresolved_under(inner, outer, bound, *obj);
            lemma_unresolved_under_list(inner, outer, bound, args@);
        },
        Expr::Array(elems) => lemma_unresolved_under_list(inner, outer, bound, elems@),
        Expr::EnumCtor { args, .. } => lemma_unresolved_under_list(inner, outer, bound, args@),
        Expr::Binary { lhs, rhs, .. } => {
            lemma_unresolved_under(inner, outer, bound, *lhs);
            lemma_unresolved_under(inner, outer, bound, *rhs);
        },
        Expr::Unary { expr: x, .. } => lemma_unresolved_under(inner, outer, bound, *x),
        Expr::Field { obj, .. } => lemma_unresolved_under(inner, outer, bound, *obj),
        Expr::Index { obj, index } => {
            lemma_unresolved_under(inner, outer, bound, *obj);
            lemma_unresolved_under(inner, outer, bound, *index);
        },
        Expr::Range { start, end, .. } => {
            lemma_unresolved_under(inner, outer, bound, *start);
            lemma_unresolved_under(inner, outer, bound, *end);
        },
        Expr::Yield(x) => lemma_unresolved_under(inner, outer, bound, *x),
        _ => {},
    }
}

proof fn lemma_unresolved_under_list(inner: SymbolTable, outer: SymbolTable, bound: spec_fn(Seq<char>) -> bool, es: Seq<Expr>)
    requires
        forall|m: Seq<char>| (#[trigger] inner.resolves(m) is None) == (!bound(m) && outer.resolves(m) is None),
    ensures
        unresolved_list(inner, es) == unresolved_under_list(outer, bound, es),
    decreases es, 0nat,
{
    if es.len() > 0 {
        lemma_unresolved_under_list(inner, outer, bound, es.drop_last());
        lemma_unresolved_under(inner, outer, bound, es.last());
    }
}

/// Each expression of the list is flat.
pub open spec fn flat_exprs(es: Seq<Expr>) -> bool
    decreases es, 0nat,
{
    es.len() > 0 ==> flat_exprs(es.drop_last()) && flat_expr(es.last())
}

/// The unresolved uses of each expression of the list, in order.
pub open spec fn unresolved_list(t: SymbolTable, es: Seq<Expr>) -> Seq<Seq<char>>
    decreases es, 0nat,
{
    if es.len() == 0 {
        Seq::empty()
    } else {
        unresolved_list(t, es.drop_last()) + unresolved_uses(t, es.last())
    }
}

/// The first expressions of a flat list are a flat list.
proof fn lemma_flat_prefix(es: Seq<Expr>, k: int)
    requires
        flat_exprs(es),
        0 <= k <= es.len(),
    ensures
        flat_exprs(es.take(k)),
    decreases es.len(),
{
    if k < es.len() {
        lemma_flat_prefix(es.drop_last(), k);
        assert(es.drop_last().take(k) =~= es.take(k));
    } else {
        assert(es.take(k) =~= es);
    }
}

/// An expression of literals, operators, field reads and index reads uses no
/// name, so it has no unresolved use in any table.
pub proof fn lemma_clean_uses_no_name(t: SymbolTable, e: Expr)
    requires
        crate::compiler::expr_clean(e),
    ensures
        flat_expr(e),
        unresolved_uses(t, e) == Seq::<Seq<char>>::empty(),
    decreases e,
{
    match e {
        Expr::Binary { lhs, rhs, .. } => {
            lemma_clean_uses_no_name(t, *lhs);
            lemma_clean_uses_no_name(t, *rhs);
            assert(unresolved_uses(t, e) =~= Seq::<Seq<char>>::empty());
        },
        Expr::Unary { expr: inner, .. } => lemma_clean_uses_no_name(t, *inner),
        Expr::Field { obj, .. } => lemma_clean_uses_no_name(t, *obj),
        Expr::Index { obj, index } => {
            lemma_clean_uses_no_name(t, *obj);
            lemma_clean_uses_no_name(t, *index);
            assert(unresolved_uses(t, e) =~= Seq::<Seq<char>>::empty());
        },
        _ => {},
    }
}

/// Every statement is an expression statement whose expression uses no name.
pub open spec fn name_free_program(stmts: Seq<Spanned<Stmt>>) -> bool {
    forall|k: int| 0 <= k < stmts.len() ==> name_free_stmt(#[trigger] stmts[k].node)
}

/// Every statement is an expression statement of a flat expression.
pub open spec fn flat_program(stmts: Seq<Spanned<Stmt>>) -> bool {
    forall|k: int| 0 <= k < stmts.len() ==> flat_stmt(#[trigger] stmts[k].node)
}

/// An expression statement of a flat expression.
pub open spec fn flat_stmt(s: Stmt) -> bool {
    match s {
        Stmt::Expr(e) => flat_expr(e),
        _ => false,
    }
}

/// The names the flat expression statements use that `t` does not
/// resolve, statement by statement, left to right.
pub open spec fn program_unresolved(t: SymbolTable, stmts: Seq<Spanned<Stmt>>) -> Seq<Seq<char>>
    decreases stmts.len(),
{
    if stmts.len() == 0 {
        Seq::empty()
    } else {
        program_unresolved(t, stmts.drop_last()) + match stmts.last().node {
            Stmt::Expr(e) => unresolved_uses(t, e),
            _ => Seq::empty(),
        }
    }
}

/// An expression statement whose expression uses no name.
pub open spec fn name_free_stmt(s: Stmt) -> bool {
    match s {
        Stmt::Expr(e) => crate::compiler::expr_clean(e),
        _ => false,
    }
}

/// `errs` reports the names `names` as undefined, one error each, in order.
pub open spec fn reports_undefined(errs: Seq<Error>, names: Seq<Seq<char>>) -> bool {
    &&& errs.len() == names.len()
    &&& forall|i: int| 0 <= i < errs.len() ==> undefined_error(#[trigger] errs[i], names[i])
}

proof fn lemma_reports_concat(a: Seq<Error>, na: Seq<Seq<char>>, b: Seq<Error>, nb: Seq<Seq<char>>)
    requires
        reports_undefined(a, na),
        reports_undefined(b, nb),
    ensures
        reports_undefined(a + b, na + nb),
{
    assert forall|i: int| 0 <= i < (a + b).len() implies undefined_error(#[trigger] (a + b)[i], (na + nb)[i]) by {
        if i < a.len() {
            assert((a + b)[i] == a[i]);
        } else {
            assert((a + b)[i] == b[i - a.len()]);
        }
    }
}

pub open spec fn undefined_reported(errors: Seq<Error>, from: int, n: Seq<char>) -> bool {
    exists|j: int| from <= j < errors.len() && #[trigger] undefined_error(errors[j], n)
}

/// `e` reports some name as undefined.
pub open spec fn undefined_any(e: Error) -> bool {
    exists|n: Seq<char>| #[trigger] undefined_error(e, n)
}

/// `e` reports `n` as undefined.
pub open spec fn undefined_error(e: Error, n: Seq<char>) -> bool {
    e matches Error::Resolve { msg, .. } && msg@ == "undefined name '"@ + n + "'"@
}

/// Lookups found from a scope of `before` are found from it in a grown table
/// with the same nesting.
proof fn lemma_lookup_grown(before: SymbolTable, after: SymbolTable, i: int, n: Seq<char>)
    requires
        grown(before, after),
        parents_kept(after, before),
        lookup_from(before.scopes@, i, n) is Some,
    ensures
        lookup_from(after.scopes@, i, n) is Some,
    decreases i,
{
    if entry_of(before.scopes@[i].symbols@, n) is Some {
        assert(entry_of(after.scopes@[i].symbols@, n) is Some);
    } else {
        assert(after.scopes@[i].parent == before.scopes@[i].parent);
        if entry_of(after.scopes@[i].symbols@, n) is None {
            let p = before.scopes@[i].parent.unwrap();
            lemma_lookup_grown(before, after, p as int, n);
        }
    }
}

/// A definition in the current scope leaves every scope grown.
proof fn lemma_define_grown(before: SymbolTable, after: SymbolTable, name: Seq<char>, e: SymEntry)
    requires
        before.wf(),
        after.current_scope == before.current_scope,
        after.scopes@.len() == before.scopes@.len(),
        forall|i: int| 0 <= i < before.scopes@.len() && i != before.current_scope ==> #[trigger] after.scopes@[i] == before.scopes@[i],
        entry_of(before.scopes@[before.current_scope as int].symbols@, name) is Some ==> after == before,
        entry_of(before.scopes@[before.current_scope as int].symbols@, name) is None ==> {
            &&& after.scopes@[before.current_scope as int].symbols@ == before.scopes@[before.current_scope as int].symbols@.push(
                (after.scopes@[before.current_scope as int].symbols@.last().0, e))
            &&& after.scopes@[before.current_scope as int].symbols@.last().0@ == name
        },
    ensures
        grown(before, after),
{
    lemma_define_keeps(before, after, name, e);
    assert forall|i: int, n: Seq<char>| 0 <= i < before.scopes@.len() && (#[trigger] entry_of(before.scopes@[i].symbols@, n)) is Some
        implies entry_of(after.scopes@[i].symbols@, n) is Some by {
        if i != before.current_scope {
            assert(after.scopes@[i] == before.scopes@[i]);
        }
    }
}

/// The names an enum declaration defines: the enum, each variant, and each
/// variant qualified by the enum's name.
pub open spec fn enum_defined(t: SymbolTable, scope: int, name: Seq<char>, variants: Seq<(String, Vec<Type>)>) -> bool {
    &&& entry_of(t.scopes@[scope].symbols@, name) is Some
    &&& forall|k: int| 0 <= k < variants.len() ==> (#[trigger] entry_of(t.scopes@[scope].symbols@, variants[k].0@)) is Some
    &&& forall|k: int| 0 <= k < variants.len() ==> (#[trigger] entry_of(t.scopes@[scope].symbols@, name + "::"@ + variants[k].0@)) is Some
}

/// A built-in two-variant enum whose variants carry `()` payloads as given,
/// with its constructors.
fn define_builtin_enum(r: &mut Resolver, name: &str, variants: Vec<(String, Vec<Type>)>)
    requires
        old(r).wf(),
    ensures
        final(r).went_on(*old(r)),
        final(r).errors@ == old(r).errors@,
        final(r).symbols.scopes@.len() == old(r).symbols.scopes@.len(),
        enum_defined(final(r).symbols, old(r).symbols.current_scope as int, name@, variants@),
        forall|n: Seq<char>| (#[trigger] entry_of(old(r).symbols.scopes@[old(r).symbols.current_scope as int].symbols@, n)) is Some
            ==> entry_of(final(r).symbols.scopes@[old(r).symbols.current_scope as int].symbols@, n) is Some,
{
    let def = EnumDef { name: name.to_string(), type_params: Vec::new(), variants: variants.clone() };
    let ghost t0 = r.symbols;
    let ghost cur = r.symbols.current_scope as int;
    let _ = r.symbols.define(name, SymKind::Enum(def));
    proof {
        lemma_define_keeps(t0, r.symbols, name@, SymEntry { id: t0.symbols@.len() as usize, kind: SymKind::Enum(def) });
    }
    let mut k: usize = 0;
    while k < variants.len()
        invariant
            k <= variants@.len(),
            r.went_on(*old(r)),
            r.errors@ == old(r).errors@,
            r.symbols.scopes@.len() == old(r).symbols.scopes@.len(),
            cur == old(r).symbols.current_scope,
            entry_of(r.symbols.scopes@[cur].symbols@, name@) is Some,
            forall|j: int| 0 <= j < k ==> (#[trigger] entry_of(r.symbols.scopes@[cur].symbols@, variants@[j].0@)) is Some,
            forall|j: int| 0 <= j < k ==> (#[trigger] entry_of(r.symbols.scopes@[cur].symbols@, name@ + "::"@ + variants@[j].0@)) is Some,
            forall|n: Seq<char>| (#[trigger] entry_of(old(r).symbols.scopes@[cur].symbols@, n)) is Some
                ==> entry_of(r.symbols.scopes@[cur].symbols@, n) is Some,
        decreases variants@.len() - k,
    {
        #[verifier::truncate]
        let tag = k as u16;
        let cons = SymKind::EnumConstructor {
            enum_name: name.to_string(),
            variant_name: variants[k].0.clone(),
            tag,
            fields: clone_types(&variants[k].1),
        };
        let ghost t1 = r.symbols;
        let _ = r.symbols.define(variants[k].0.as_str(), cons);
        proof {
            lemma_define_keeps(t1, r.symbols, variants@[k as int].0@, SymEntry { id: t1.symbols@.len() as usize, kind: cons });
        }
        let full = quoted_path(&name.to_string(), &variants[k].0);
        let cons2 = SymKind::EnumConstructor {
            enum_name: name.to_string(),
            variant_name: variants[k].0.clone(),
            tag,
            fields: clone_types(&variants[k].1),
        };
        let ghost t2 = r.symbols;
        let _ = r.symbols.define(full.as_str(), cons2);
        proof {
            lemma_define_keeps(t2, r.symbols, full@, SymEntry { id: t2.symbols@.len() as usize, kind: cons2 });
            assert(full@ == name@ + "::"@ + variants@[k as int].0@);
            assert(entry_of(t2.scopes@[cur].symbols@, variants@[k as int].0@) is Some);
            assert forall|j: int| 0 <= j < k + 1 implies (#[trigger] entry_of(r.symbols.scopes@[cur].symbols@, variants@[j].0@)) is Some by {
                if j < k {
                    assert(entry_of(t1.scopes@[cur].symbols@, variants@[j].0@) is Some);
                    assert(entry_of(t2.scopes@[cur].symbols@, variants@[j].0@) is Some);
                }
            }
            assert forall|j: int| 0 <= j < k + 1 implies (#[trigger] entry_of(r.symbols.scopes@[cur].symbols@, name@ + "::"@ + variants@[j].0@)) is Some by {
                if j < k {
                    assert(entry_of(t1.scopes@[cur].symbols@, name@ + "::"@ + variants@[j].0@) is Some);
                    assert(entry_of(t2.scopes@[cur].symbols@, name@ + "::"@ + variants@[j].0@) is Some);
                }
            }
        }
        k = k + 1;
    }
}

/// Resolve a program with no native functions beyond the standard ones.
pub fn resolve(program: &mut Program) -> (r: Result<SymbolTable, Error>)
    ensures
        match r {
            Ok(t) => t.wf(),
            Err(e) => e matches Error::ParseMultiple { errors } && errors@.len() > 0
                && forall|i: int| 0 <= i < errors@.len() ==> (#[trigger] errors@[i]) is Resolve,
        },
        *final(program) == *old(program),
        old(program).stmts@.len() == 0 ==> r is Ok,
        name_free_program(old(program).stmts@) ==> r is Ok,
        r matches Ok(t) ==> (flat_program(old(program).stmts@) ==> program_unresolved(t, old(program).stmts@).len() == 0),
        r matches Err(Error::ParseMultiple { errors }) ==> (flat_program(old(program).stmts@) ==> forall|i: int|
            0 <= i < errors@.len() ==> undefined_any(#[trigger] errors@[i])),
        r matches Ok(t) ==> {
            &&& t.current_scope == 0
            &&& entry_of(t.scopes@[0].symbols@, "Option"@) is Some
            &&& entry_of(t.scopes@[0].symbols@, "Result"@) is Some
            &&& forall|k: int| 0 <= k < old(program).stmts@.len() ==> #[trigger] declared(t, 0, old(program).stmts@[k].node)
        },
{
    let none: Vec<String> = Vec::new();
    resolve_with_natives(program, none.as_slice())
}

/// Resolve a program: the native functions, then `Option` (`Some`, `None`)
/// and `Result` (`Ok`, `Err`), are defined first in the global scope (each
/// variant also under its qualified name, as `Option::Some`). The
/// table when no error was found; every error otherwise.
pub fn resolve_with_natives(program: &mut Program, native_names: &[String]) -> (r: Result<SymbolTable, Error>)
    ensures
        match r {
            Ok(t) => t.wf(),
            Err(e) => e matches Error::ParseMultiple { errors } && errors@.len() > 0
                && forall|i: int| 0 <= i < errors@.len() ==> (#[trigger] errors@[i]) is Resolve,
        },
        *final(program) == *old(program),
        old(program).stmts@.len() == 0 ==> r is Ok,
        name_free_program(old(program).stmts@) ==> r is Ok,
        r matches Ok(t) ==> (flat_program(old(program).stmts@) ==> program_unresolved(t, old(program).stmts@).len() == 0),
        r matches Err(Error::ParseMultiple { errors }) ==> (flat_program(old(program).stmts@) ==> forall|i: int|
            0 <= i < errors@.len() ==> undefined_any(#[trigger] errors@[i])),
        r matches Ok(t) ==> {
            &&& t.current_scope == 0
            &&& entry_of(t.scopes@[0].symbols@, "Option"@) is Some
            &&& entry_of(t.scopes@[0].symbols@, "Result"@) is Some
            &&& forall|k: int| 0 <= k < crate::stdlib::native_signature_table().len()
                ==> (#[trigger] entry_of(t.scopes@[0].symbols@, crate::stdlib::native_signature_table()[k].0)) is Some
            &&& forall|k: int| 0 <= k < old(program).stmts@.len() ==> #[trigger] declared(t, 0, old(program).stmts@[k].node)
        },
{
    let mut resolver = Resolver::new();
    let sigs = native_fn_sigs();
    let mut k: usize = 0;
    while k < sigs.len()
        invariant
            k <= sigs@.len(),
            resolver.wf(),
            resolver.symbols.current_scope == 0,
            resolver.errors@.len() == 0,
            crate::symbol::sigs_match(sigs@, crate::stdlib::native_signature_table()),
            forall|j: int| 0 <= j < k ==> (#[trigger] entry_of(resolver.symbols.scopes@[0].symbols@, sigs@[j].name@)) is Some,
        decreases sigs@.len() - k,
    {
        let name = sigs[k].name.clone();
        let ghost t0 = resolver.symbols;
        let kind = SymKind::Function(sigs[k].clone());
        let _ = resolver.symbols.define(name.as_str(), kind);
        proof {
            lemma_define_keeps(t0, resolver.symbols, name@, SymEntry { id: t0.symbols@.len() as usize, kind });
            assert forall|j: int| 0 <= j < k + 1 implies (#[trigger] entry_of(resolver.symbols.scopes@[0].symbols@, sigs@[j].name@)) is Some by {
                if j < k {
                    assert(entry_of(t0.scopes@[0].symbols@, sigs@[j].name@) is Some);
                }
            }
        }
        k = k + 1;
    }
    proof {
        assert forall|j: int| 0 <= j < crate::stdlib::native_signature_table().len()
            implies (#[trigger] entry_of(resolver.symbols.scopes@[0].symbols@, crate::stdlib::native_signature_table()[j].0)) is Some by {
            assert(crate::symbol::sig_is(sigs@[j], crate::stdlib::native_signature_table()[j]));
            assert(entry_of(resolver.symbols.scopes@[0].symbols@, sigs@[j].name@) is Some);
        }
    }
    let ghost t_nat = resolver.symbols;
    define_builtin_enum(
        &mut resolver,
        "Option",
        vec![("Some".to_string(), vec![Type::Unit]), ("None".to_string(), Vec::new())],
    );
    let ghost t_opt = resolver.symbols;
    define_builtin_enum(
        &mut resolver,
        "Result",
        vec![("Ok".to_string(), vec![Type::Unit]), ("Err".to_string(), vec![Type::Unit])],
    );
    proof {
        assert(entry_of(t_opt.scopes@[0].symbols@, "Option"@) is Some);
        assert forall|j: int| 0 <= j < crate::stdlib::native_signature_table().len()
            implies (#[trigger] entry_of(resolver.symbols.scopes@[0].symbols@, crate::stdlib::native_signature_table()[j].0)) is Some by {
            assert(entry_of(t_nat.scopes@[0].symbols@, crate::stdlib::native_signature_table()[j].0) is Some);
            assert(entry_of(t_opt.scopes@[0].symbols@, crate::stdlib::native_signature_table()[j].0) is Some);
        }
    }
    let ghost t_pre = resolver.symbols;
    let r = resolver.resolve_program(program);
    proof {
        if flat_program(program.stmts@) {
            if let Err(Error::ParseMultiple { ref errors }) = r {
                let names = program_unresolved(t_pre, program.stmts@);
                assert forall|i: int| 0 <= i < errors@.len() implies undefined_any(#[trigger] errors@[i]) by {
                    assert(undefined_error(errors@[i], names[i]));
                }
            }
        }
    }
    match r {
        Ok(()) => {
            proof {
                assert(entry_of(t_pre.scopes@[0].symbols@, "Option"@) is Some);
                assert(entry_of(t_pre.scopes@[0].symbols@, "Result"@) is Some);
                assert forall|j: int| 0 <= j < crate::stdlib::native_signature_table().len()
                    implies (#[trigger] entry_of(resolver.symbols.scopes@[0].symbols@, crate::stdlib::native_signature_table()[j].0)) is Some by {
                    assert(entry_of(t_pre.scopes@[0].symbols@, crate::stdlib::native_signature_table()[j].0) is Some);
                }
            }
            Ok(resolver.symbols)
        },
        Err(e) => Err(e),
    }
}

} // verus!
