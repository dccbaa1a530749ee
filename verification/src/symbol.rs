//! Symbols: function signatures, the definitions names stand for, and the
//! nested scopes in which names are resolved.
use vstd::prelude::*;
use crate::ast::{StructField, Type, TypeParam};
use crate::text::push_str_chars;

verus! {

/// The signature of a function: its name, generic parameters, named
/// parameters with their types, and return type.
#[derive(Debug, Clone)]
pub struct FnSignature {
    pub name: String,
    pub type_params: Vec<TypeParam>,
    pub params: Vec<(String, Type)>,
    pub return_type: Option<Type>,
}

/// A signature without generic parameters, as plain values: its name, its
/// parameters' names and types, and its return type.
pub type SigSpec = (Seq<char>, Seq<(Seq<char>, Type)>, Option<Type>);

/// The parameters' names as character sequences, with their types.
pub open spec fn param_views(ps: Seq<(String, Type)>) -> Seq<(Seq<char>, Type)> {
    ps.map_values(|p: (String, Type)| (p.0@, p.1))
}

/// `s` is the signature `e`, with no generic parameters.
pub open spec fn sig_is(s: FnSignature, e: SigSpec) -> bool {
    &&& s.name@ == e.0
    &&& s.type_params@.len() == 0
    &&& param_views(s.params@) == e.1
    &&& s.return_type == e.2
}

/// Each signature of `r` is the one in the same place of `t`.
pub open spec fn sigs_match(r: Seq<FnSignature>, t: Seq<SigSpec>) -> bool {
    &&& r.len() == t.len()
    &&& forall|i: int| 0 <= i < r.len() ==> #[trigger] sig_is(r[i], t[i])
}

pub proof fn lemma_sigs_match_push(r: Seq<FnSignature>, t: Seq<SigSpec>, s: FnSignature, e: SigSpec)
    requires
        sigs_match(r, t),
        sig_is(s, e),
    ensures
        sigs_match(r.push(s), t.push(e)),
{
    assert forall|i: int| 0 <= i < r.len() + 1 implies #[trigger] sig_is(r.push(s)[i], t.push(e)[i]) by {
        if i < r.len() {
            assert(sig_is(r[i], t[i]));
        }
    }
}

pub proof fn lemma_sigs_match_concat(r1: Seq<FnSignature>, t1: Seq<SigSpec>, r2: Seq<FnSignature>, t2: Seq<SigSpec>)
    requires
        sigs_match(r1, t1),
        sigs_match(r2, t2),
    ensures
        sigs_match(r1 + r2, t1 + t2),
{
    assert forall|i: int| 0 <= i < r1.len() + r2.len() implies #[trigger] sig_is((r1 + r2)[i], (t1 + t2)[i]) by {
        if i < r1.len() {
            assert(sig_is(r1[i], t1[i]));
        } else {
            assert(sig_is(r2[i - r1.len()], t2[i - r1.len()]));
        }
    }
}

/// A named parameter.
pub(crate) fn param(name: &str, ty: Type) -> (p: (String, Type))
    ensures
        p.0@ == name@,
        p.1 == ty,
{
    (name.to_string(), ty)
}

/// A signature without generic parameters.
pub(crate) fn sig(name: &str, params: Vec<(String, Type)>, ret: Option<Type>) -> (s: FnSignature)
    ensures
        s.name@ == name@,
        s.type_params@.len() == 0,
        s.params@ == params@,
        s.return_type == ret,
{
    FnSignature { name: name.to_string(), type_params: Vec::new(), params, return_type: ret }
}

/// Unique identifier for a resolved symbol.
pub type SymId = usize;

#[derive(Debug, Clone)]
pub struct StructDef {
    pub name: String,
    pub type_params: Vec<TypeParam>,
    pub fields: Vec<StructField>,
}

#[derive(Debug, Clone)]
pub struct EnumDef {
    pub name: String,
    pub type_params: Vec<TypeParam>,
    pub variants: Vec<(String, Vec<Type>)>,
}

/// A trait declaration: its name, generic parameters and the method signatures
/// that implementors must provide.
#[derive(Debug, Clone)]
pub struct TraitDef {
    pub name: String,
    pub type_params: Vec<TypeParam>,
    pub method_sigs: Vec<FnSignature>,
}

/// What a name stands for.
#[derive(Debug, Clone)]
pub enum SymKind {
    Variable(Type),
    Function(FnSignature),
    Struct(StructDef),
    Enum(EnumDef),
    EnumConstructor { enum_name: String, variant_name: String, tag: u16, fields: Vec<Type> },
    TypeParam(String),
    Module(usize),
    Trait(TraitDef),
}

/// A symbol as a scope holds it: its identifier and what it stands for.
#[derive(Debug, Clone)]
pub struct SymEntry {
    pub id: SymId,
    pub kind: SymKind,
}

/// One scope: its symbols by name, and the scope it is nested in.
#[derive(Debug, Clone)]
pub struct Scope {
    pub symbols: Vec<(String, SymEntry)>,
    pub parent: Option<usize>,
}

/// The entry a list of named entries holds under `name`.
pub open spec fn entry_of(entries: Seq<(String, SymEntry)>, name: Seq<char>) -> Option<SymEntry>
    decreases entries.len(),
{
    if entries.len() == 0 {
        None
    } else if entries.last().0@ == name {
        Some(entries.last().1)
    } else {
        entry_of(entries.drop_last(), name)
    }
}

/// No two entries have the same name.
pub open spec fn distinct_names(entries: Seq<(String, SymEntry)>) -> bool {
    forall|i: int, j: int| 0 <= i < j < entries.len() ==> entries[i].0@ != entries[j].0@
}

/// The entry for `name` found from scope `i` outward.
pub open spec fn lookup_from(scopes: Seq<Scope>, i: int, name: Seq<char>) -> Option<SymEntry>
    decreases i,
{
    if i < 0 || i >= scopes.len() {
        None
    } else {
        match entry_of(scopes[i].symbols@, name) {
            Some(e) => Some(e),
            None => match scopes[i].parent {
                Some(p) => if p < i { lookup_from(scopes, p as int, name) } else { None },
                None => None,
            },
        }
    }
}

/// Symbols and their nested scopes, with the scope now open.
#[derive(Debug, Clone)]
pub struct SymbolTable {
    /// Every symbol ever defined, in order; a symbol's identifier is its position.
    pub symbols: Vec<(String, SymKind)>,
    /// All scopes; the first is the global one.
    pub scopes: Vec<Scope>,
    /// Currently active scope index.
    pub current_scope: usize,
}

impl SymbolTable {
    pub open spec fn wf(&self) -> bool {
        &&& self.scopes@.len() >= 1
        &&& self.current_scope < self.scopes@.len()
        &&& self.scopes@[0].parent is None
        &&& forall|i: int| 0 <= i < self.scopes@.len() ==> distinct_names(#[trigger] self.scopes@[i].symbols@)
        &&& forall|i: int| 0 <= i < self.scopes@.len() && (#[trigger] self.scopes@[i]).parent is Some
            ==> self.scopes@[i].parent.unwrap() < i
    }

    /// What `name` stands for where the current scope is open.
    pub open spec fn resolves(&self, name: Seq<char>) -> Option<SymEntry> {
        lookup_from(self.scopes@, self.current_scope as int, name)
    }

    /// A table with only the global scope, holding nothing.
    pub fn new() -> (t: SymbolTable)
        ensures
            t.wf(),
            t.symbols@.len() == 0,
            t.scopes@.len() == 1,
            t.current_scope == 0,
            t.scopes@[0].symbols@.len() == 0,
    {
        let global = Scope { symbols: Vec::new(), parent: None };
        let mut scopes: Vec<Scope> = Vec::new();
        scopes.push(global);
        SymbolTable { symbols: Vec::new(), scopes, current_scope: 0 }
    }

    /// Enter a new, empty scope nested in the current one.
    pub fn enter_scope(&mut self)
        requires
            old(self).wf(),
        ensures
            final(self).wf(),
            final(self).scopes@.len() == old(self).scopes@.len() + 1,
            final(self).scopes@.take(old(self).scopes@.len() as int) == old(self).scopes@,
            final(self).current_scope == old(self).scopes@.len(),
            final(self).scopes@.last().parent == Some(old(self).current_scope),
            final(self).scopes@.last().symbols@.len() == 0,
            final(self).symbols@ == old(self).symbols@,
    {
        let scope = Scope { symbols: Vec::new(), parent: Some(self.current_scope) };
        self.scopes.push(scope);
        self.current_scope = self.scopes.len() - 1;
        proof {
            assert(self.scopes@.take(old(self).scopes@.len() as int) =~= old(self).scopes@);
        }
    }

    /// Return to the parent of the current scope; the global scope stays current.
    pub fn exit_scope(&mut self)
        requires
            old(self).wf(),
        ensures
            final(self).wf(),
            final(self).scopes@ == old(self).scopes@,
            final(self).symbols@ == old(self).symbols@,
            final(self).current_scope == match old(self).scopes@[old(self).current_scope as int].parent {
                Some(p) => p,
                None => old(self).current_scope,
            },
    {
        match self.scopes[self.current_scope].parent {
            Some(parent) => {
                proof {
                    assert(self.scopes@[self.current_scope as int].parent is Some);
                }
                self.current_scope = parent;
            },
            None => {},
        }
    }

    /// The position of `name` in a scope's entries.
    fn find_in(entries: &Vec<(String, SymEntry)>, name: &str) -> (r: Option<usize>)
        requires
            distinct_names(entries@),
        ensures
            match r {
                Some(i) => i < entries@.len() && entries@[i as int].0@ == name@ && entry_of(entries@, name@) == Some(entries@[i as int].1),
                None => entry_of(entries@, name@) is None,
            },
    {
        let key = name.to_string();
        let mut k: usize = entries.len();
        proof {
            assert(entries@.take(entries@.len() as int) =~= entries@);
        }
        while k > 0
            invariant
                k <= entries@.len(),
                key@ == name@,
                distinct_names(entries@),
                entry_of(entries@, name@) == entry_of(entries@.take(k as int), name@),
            decreases k,
        {
            let ghost pre = entries@.take(k as int);
            proof {
                assert(pre.drop_last() =~= entries@.take(k - 1));
                assert(pre.last() == entries@[k - 1]);
            }
            if entries[k - 1].0 == key {
                return Some(k - 1);
            }
            k = k - 1;
        }
        None
    }

    /// Define a new symbol in the current scope; an error, and nothing changed,
    /// when the name is already defined in that scope.
    pub fn define(&mut self, name: &str, kind: SymKind) -> (r: Result<SymId, String>)
        requires
            old(self).wf(),
        ensures
            final(self).wf(),
            final(self).current_scope == old(self).current_scope,
            entry_of(old(self).scopes@[old(self).current_scope as int].symbols@, name@) is Some ==> {
                &&& *final(self) == *old(self)
                &&& r matches Err(msg) && msg@ == "duplicate definition of '"@ + name@ + "'"@
            },
            entry_of(old(self).scopes@[old(self).current_scope as int].symbols@, name@) is None ==> {
                &&& r == Ok::<SymId, String>(old(self).symbols@.len() as usize)
                &&& final(self).symbols@.len() == old(self).symbols@.len() + 1
                &&& final(self).symbols@.take(old(self).symbols@.len() as int) == old(self).symbols@
                &&& final(self).symbols@.last().0@ == name@
                &&& cloned(kind, final(self).symbols@.last().1)
                &&& final(self).scopes@.len() == old(self).scopes@.len()
                &&& forall|i: int| 0 <= i < old(self).scopes@.len() && i != old(self).current_scope
                    ==> #[trigger] final(self).scopes@[i] == old(self).scopes@[i]
                &&& final(self).scopes@[old(self).current_scope as int].parent == old(self).scopes@[old(self).current_scope as int].parent
                &&& final(self).scopes@[old(self).current_scope as int].symbols@
                    == old(self).scopes@[old(self).current_scope as int].symbols@.push(
                        (final(self).scopes@[old(self).current_scope as int].symbols@.last().0, SymEntry { id: old(self).symbols@.len() as usize, kind }),
                    )
                &&& final(self).scopes@[old(self).current_scope as int].symbols@.last().0@ == name@
            },
    {
        let cur = self.current_scope;
        match Self::find_in(&self.scopes[cur].symbols, name) {
            Some(_) => {
                let mut msg = String::new();
                push_str_chars(&mut msg, "duplicate definition of '");
                push_str_chars(&mut msg, name);
                push_str_chars(&mut msg, "'");
                proof {
                    assert(msg@ =~= "duplicate definition of '"@ + name@ + "'"@);
                }
                return Err(msg);
            },
            None => {},
        }
        let id = self.symbols.len();
        self.symbols.push((name.to_string(), kind.clone()));
        let entry = SymEntry { id, kind };
        self.push_entry(cur, name.to_string(), entry);
        Ok(id)
    }

    /// Define a new symbol in scope `scope`; an error, and nothing changed,
    /// when the name is already defined in that scope.
    pub fn define_in(&mut self, scope: usize, name: &str, kind: SymKind) -> (r: Result<SymId, String>)
        requires
            old(self).wf(),
            scope < old(self).scopes@.len(),
        ensures
            final(self).wf(),
            final(self).current_scope == old(self).current_scope,
            final(self).scopes@.len() == old(self).scopes@.len(),
            entry_of(old(self).scopes@[scope as int].symbols@, name@) is Some ==> {
                &&& *final(self) == *old(self)
                &&& r matches Err(msg) && msg@ == "duplicate definition of '"@ + name@ + "'"@
            },
            entry_of(old(self).scopes@[scope as int].symbols@, name@) is None ==> {
                &&& r == Ok::<SymId, String>(old(self).symbols@.len() as usize)
                &&& final(self).symbols@.len() == old(self).symbols@.len() + 1
                &&& final(self).symbols@.take(old(self).symbols@.len() as int) == old(self).symbols@
                &&& final(self).symbols@.last().0@ == name@
                &&& cloned(kind, final(self).symbols@.last().1)
                &&& forall|i: int| 0 <= i < old(self).scopes@.len() && i != scope
                    ==> #[trigger] final(self).scopes@[i] == old(self).scopes@[i]
                &&& final(self).scopes@[scope as int].parent == old(self).scopes@[scope as int].parent
                &&& final(self).scopes@[scope as int].symbols@.len() == old(self).scopes@[scope as int].symbols@.len() + 1
                &&& entry_of(final(self).scopes@[scope as int].symbols@, name@) == Some(
                    SymEntry { id: old(self).symbols@.len() as usize, kind },
                )
                &&& forall|n: Seq<char>| n != name@ ==> #[trigger] entry_of(final(self).scopes@[scope as int].symbols@, n)
                    == entry_of(old(self).scopes@[scope as int].symbols@, n)
            },
    {
        match Self::find_in(&self.scopes[scope].symbols, name) {
            Some(_) => {
                let mut msg = String::new();
                push_str_chars(&mut msg, "duplicate definition of '");
                push_str_chars(&mut msg, name);
                push_str_chars(&mut msg, "'");
                proof {
                    assert(msg@ =~= "duplicate definition of '"@ + name@ + "'"@);
                }
                return Err(msg);
            },
            None => {},
        }
        let id = self.symbols.len();
        self.symbols.push((name.to_string(), kind.clone()));
        let entry = SymEntry { id, kind };
        let key = name.to_string();
        self.push_entry(scope, key, entry);
        proof {
            let ne = self.scopes@[scope as int].symbols@;
            assert(ne.drop_last() =~= old(self).scopes@[scope as int].symbols@);
            assert forall|n: Seq<char>| n != name@ implies #[trigger] entry_of(ne, n)
                == entry_of(old(self).scopes@[scope as int].symbols@, n) by {
                assert(ne.drop_last() =~= old(self).scopes@[scope as int].symbols@);
            }
        }
        Ok(id)
    }

    /// Append an entry under a name the scope does not hold.
    fn push_entry(&mut self, cur: usize, key: String, entry: SymEntry)
        requires
            old(self).wf(),
            cur < old(self).scopes@.len(),
            entry_of(old(self).scopes@[cur as int].symbols@, key@) is None,
        ensures
            final(self).wf(),
            final(self).current_scope == old(self).current_scope,
            final(self).symbols@ == old(self).symbols@,
            final(self).scopes@.len() == old(self).scopes@.len(),
            forall|i: int| 0 <= i < old(self).scopes@.len() && i != cur ==> #[trigger] final(self).scopes@[i] == old(self).scopes@[i],
            final(self).scopes@[cur as int].parent == old(self).scopes@[cur as int].parent,
            final(self).scopes@[cur as int].symbols@ == old(self).scopes@[cur as int].symbols@.push((key, entry)),
    {
        let ghost old_entries = self.scopes@[cur as int].symbols@;
        proof {
            lemma_entry_absent(old_entries, key@);
        }
        let mut scope = Scope { symbols: Vec::new(), parent: None };
        std::mem::swap(&mut scope, &mut self.scopes[cur]);
        scope.symbols.push((key, entry));
        std::mem::swap(&mut scope, &mut self.scopes[cur]);
        proof {
            let ne = self.scopes@[cur as int].symbols@;
            assert(ne.drop_last() =~= old_entries);
            assert forall|i: int, j: int| 0 <= i < j < ne.len() implies ne[i].0@ != ne[j].0@ by {
                if j < ne.len() - 1 {
                    assert(old_entries[i].0@ != old_entries[j].0@);
                } else {
                    assert(old_entries[i].0@ != key@);
                }
            }
            assert forall|i: int| 0 <= i < self.scopes@.len() implies distinct_names(#[trigger] self.scopes@[i].symbols@) by {
                if i != cur {
                    assert(self.scopes@[i] == old(self).scopes@[i]);
                }
            }
            assert forall|i: int| 0 <= i < self.scopes@.len() && (#[trigger] self.scopes@[i]).parent is Some
                implies self.scopes@[i].parent.unwrap() < i by {
                if i != cur {
                    assert(self.scopes@[i] == old(self).scopes@[i]);
                }
            }
        }
    }

    /// Look up a symbol by name, searching the current scope and then its parents.
    pub fn lookup(&self, name: &str) -> (r: Option<&SymEntry>)
        requires
            self.wf(),
        ensures
            match r {
                Some(e) => self.resolves(name@) == Some(*e),
                None => self.resolves(name@) is None,
            },
    {
        let mut scope = self.current_scope;
        loop
            invariant
                self.wf(),
                scope < self.scopes@.len(),
                self.resolves(name@) == lookup_from(self.scopes@, scope as int, name@),
            decreases scope,
        {
            assert(distinct_names(self.scopes@[scope as int].symbols@));
            match Self::find_in(&self.scopes[scope].symbols, name) {
                Some(i) => {
                    return Some(&self.scopes[scope].symbols[i].1);
                },
                None => {},
            }
            match self.scopes[scope].parent {
                Some(parent) => {
                    proof {
                        assert(self.scopes@[scope as int].parent is Some);
                    }
                    scope = parent;
                },
                None => {
                    return None;
                },
            }
        }
    }

    /// Look up a symbol in the global scope only.
    pub fn lookup_global(&self, name: &str) -> (r: Option<&SymEntry>)
        requires
            self.wf(),
        ensures
            match r {
                Some(e) => entry_of(self.scopes@[0].symbols@, name@) == Some(*e),
                None => entry_of(self.scopes@[0].symbols@, name@) is None,
            },
    {
        self.lookup_in_scope(0, name)
    }

    /// Look up a symbol in one scope, without walking its parents.
    pub fn lookup_in_scope(&self, scope_idx: usize, name: &str) -> (r: Option<&SymEntry>)
        requires
            self.wf(),
            scope_idx < self.scopes@.len(),
        ensures
            match r {
                Some(e) => entry_of(self.scopes@[scope_idx as int].symbols@, name@) == Some(*e),
                None => entry_of(self.scopes@[scope_idx as int].symbols@, name@) is None,
            },
    {
        assert(distinct_names(self.scopes@[scope_idx as int].symbols@));
        match Self::find_in(&self.scopes[scope_idx].symbols, name) {
            Some(i) => Some(&self.scopes[scope_idx].symbols[i].1),
            None => None,
        }
    }

    /// The symbols of the global scope.
    pub fn globals(&self) -> (g: &Vec<(String, SymEntry)>)
        requires
            self.wf(),
        ensures
            g@ == self.scopes@[0].symbols@,
    {
        &self.scopes[0].symbols
    }

    /// Remove a symbol from the current scope, returning its entry; `None`, and
    /// nothing changed, when the scope does not hold the name.
    pub fn remove_from_current_scope(&mut self, name: &str) -> (r: Option<SymEntry>)
        requires
            old(self).wf(),
        ensures
            final(self).wf(),
            final(self).current_scope == old(self).current_scope,
            final(self).symbols@ == old(self).symbols@,
            r == entry_of(old(self).scopes@[old(self).current_scope as int].symbols@, name@),
            final(self).scopes@.len() == old(self).scopes@.len(),
            forall|i: int| 0 <= i < old(self).scopes@.len() && i != old(self).current_scope ==> #[trigger] final(self).scopes@[i] == old(self).scopes@[i],
            final(self).scopes@[old(self).current_scope as int].parent == old(self).scopes@[old(self).current_scope as int].parent,
            forall|n: Seq<char>| #[trigger] entry_of(final(self).scopes@[old(self).current_scope as int].symbols@, n)
                == if n == name@ { None } else { entry_of(old(self).scopes@[old(self).current_scope as int].symbols@, n) },
    {
        let cur = self.current_scope;
        assert(distinct_names(self.scopes@[cur as int].symbols@));
        match Self::find_in(&self.scopes[cur].symbols, name) {
            Some(i) => {
                let ghost old_entries = self.scopes@[cur as int].symbols@;
                let mut scope = Scope { symbols: Vec::new(), parent: None };
                std::mem::swap(&mut scope, &mut self.scopes[cur]);
                let (_, entry) = scope.symbols.remove(i);
                std::mem::swap(&mut scope, &mut self.scopes[cur]);
                proof {
                    let ne = self.scopes@[cur as int].symbols@;
                    assert(ne =~= old_entries.remove(i as int));
                    lemma_entry_remove(old_entries, i as int);
                    assert forall|a: int, b: int| 0 <= a < b < ne.len() implies ne[a].0@ != ne[b].0@ by {
                        let a2 = if a < i { a } else { a + 1 };
                        let b2 = if b < i { b } else { b + 1 };
                        assert(ne[a] == old_entries[a2] && ne[b] == old_entries[b2]);
                        assert(old_entries[a2].0@ != old_entries[b2].0@);
                    }
                    assert forall|k: int| 0 <= k < self.scopes@.len() implies distinct_names(#[trigger] self.scopes@[k].symbols@) by {
                        if k != cur {
                            assert(self.scopes@[k] == old(self).scopes@[k]);
                        }
                    }
                    assert forall|k: int| 0 <= k < self.scopes@.len() && (#[trigger] self.scopes@[k]).parent is Some
                        implies self.scopes@[k].parent.unwrap() < k by {
                        if k != cur {
                            assert(self.scopes@[k] == old(self).scopes@[k]);
                        }
                    }
                }
                Some(entry)
            },
            None => {
                proof {
                    assert forall|n: Seq<char>| #[trigger] entry_of(self.scopes@[cur as int].symbols@, n)
                        == if n == name@ { None } else { entry_of(self.scopes@[cur as int].symbols@, n) } by {
                    }
                }
                None
            },
        }
    }
}

/// The scope, from scope `i` outward, that holds `name`.
pub open spec fn holder_from(scopes: Seq<Scope>, i: int, name: Seq<char>) -> Option<int>
    decreases i,
{
    if i < 0 || i >= scopes.len() {
        None
    } else {
        match entry_of(scopes[i].symbols@, name) {
            Some(e) => Some(i),
            None => match scopes[i].parent {
                Some(p) => if p < i { holder_from(scopes, p as int, name) } else { None },
                None => None,
            },
        }
    }
}

impl SymbolTable {
    /// Replace the entry at position `k` of scope `cur`, keeping its name.
    fn set_entry(&mut self, cur: usize, k: usize, entry: SymEntry)
        requires
            old(self).wf(),
            cur < old(self).scopes@.len(),
            k < old(self).scopes@[cur as int].symbols@.len(),
        ensures
            final(self).wf(),
            final(self).current_scope == old(self).current_scope,
            final(self).symbols@ == old(self).symbols@,
            final(self).scopes@.len() == old(self).scopes@.len(),
            forall|i: int| 0 <= i < old(self).scopes@.len() && i != cur ==> #[trigger] final(self).scopes@[i] == old(self).scopes@[i],
            final(self).scopes@[cur as int].parent == old(self).scopes@[cur as int].parent,
            forall|n: Seq<char>| #[trigger] entry_of(final(self).scopes@[cur as int].symbols@, n)
                == if n == old(self).scopes@[cur as int].symbols@[k as int].0@ {
                    Some(entry)
                } else {
                    entry_of(old(self).scopes@[cur as int].symbols@, n)
                },
    {
        let ghost old_entries = self.scopes@[cur as int].symbols@;
        let mut scope = Scope { symbols: Vec::new(), parent: None };
        std::mem::swap(&mut scope, &mut self.scopes[cur]);
        let key = scope.symbols[k].0.clone();
        scope.symbols.set(k, (key, entry));
        std::mem::swap(&mut scope, &mut self.scopes[cur]);
        proof {
            let ne = self.scopes@[cur as int].symbols@;
            assert(ne =~= old_entries.update(k as int, (old_entries[k as int].0, entry)));
            assert(distinct_names(old_entries));
            assert forall|a: int, b: int| 0 <= a < b < ne.len() implies ne[a].0@ != ne[b].0@ by {
                assert(ne[a].0@ == old_entries[a].0@ && ne[b].0@ == old_entries[b].0@);
            }
            lemma_entry_set(old_entries, k as int, entry);
            assert forall|i: int| 0 <= i < self.scopes@.len() implies distinct_names(#[trigger] self.scopes@[i].symbols@) by {
                if i != cur {
                    assert(self.scopes@[i] == old(self).scopes@[i]);
                }
            }
            assert forall|i: int| 0 <= i < self.scopes@.len() && (#[trigger] self.scopes@[i]).parent is Some
                implies self.scopes@[i].parent.unwrap() < i by {
                if i != cur {
                    assert(self.scopes@[i] == old(self).scopes@[i]);
                }
            }
        }
    }

    /// Insert a symbol into the current scope, in place of any symbol of that
    /// name there; its identifier is its position in the list of all symbols.
    pub fn insert_into_current_scope(&mut self, name: &str, kind: SymKind) -> (id: SymId)
        requires
            old(self).wf(),
        ensures
            final(self).wf(),
            id == old(self).symbols@.len(),
            final(self).current_scope == old(self).current_scope,
            final(self).symbols@.len() == old(self).symbols@.len() + 1,
            final(self).symbols@.take(old(self).symbols@.len() as int) == old(self).symbols@,
            final(self).symbols@.last().0@ == name@,
            cloned(kind, final(self).symbols@.last().1),
            final(self).scopes@.len() == old(self).scopes@.len(),
            forall|i: int| 0 <= i < old(self).scopes@.len() && i != old(self).current_scope ==> #[trigger] final(self).scopes@[i] == old(self).scopes@[i],
            final(self).scopes@[old(self).current_scope as int].parent == old(self).scopes@[old(self).current_scope as int].parent,
            forall|n: Seq<char>| #[trigger] entry_of(final(self).scopes@[old(self).current_scope as int].symbols@, n)
                == if n == name@ {
                    Some(SymEntry { id: old(self).symbols@.len() as usize, kind })
                } else {
                    entry_of(old(self).scopes@[old(self).current_scope as int].symbols@, n)
                },
    {
        let cur = self.current_scope;
        let id = self.symbols.len();
        self.symbols.push((name.to_string(), kind.clone()));
        proof {
            assert(self.symbols@.take(old(self).symbols@.len() as int) =~= old(self).symbols@);
        }
        let entry = SymEntry { id, kind };
        assert(distinct_names(self.scopes@[cur as int].symbols@));
        match Self::find_in(&self.scopes[cur].symbols, name) {
            Some(k) => {
                self.set_entry(cur, k, entry);
            },
            None => {
                let ghost before = self.scopes@[cur as int].symbols@;
                self.push_entry(cur, name.to_string(), entry);
                proof {
                    let ne = self.scopes@[cur as int].symbols@;
                    assert forall|n: Seq<char>| #[trigger] entry_of(ne, n) == if n == name@ {
                        Some(SymEntry { id: old(self).symbols@.len() as usize, kind })
                    } else {
                        entry_of(before, n)
                    } by {
                        assert(ne.drop_last() =~= before);
                    }
                }
            },
        }
        id
    }

    /// Set the type of the variable `name` in the innermost scope that holds
    /// `name`; nothing changes when that symbol is not a variable, or when no
    /// scope holds the name.
    pub fn update_variable_type(&mut self, name: &str, ty: Type)
        requires
            old(self).wf(),
        ensures
            final(self).wf(),
            final(self).current_scope == old(self).current_scope,
            final(self).symbols@ == old(self).symbols@,
            final(self).scopes@.len() == old(self).scopes@.len(),
            match holder_from(old(self).scopes@, old(self).current_scope as int, name@) {
                Some(h) => {
                    &&& forall|i: int| 0 <= i < old(self).scopes@.len() && i != h ==> #[trigger] final(self).scopes@[i] == old(self).scopes@[i]
                    &&& final(self).scopes@[h].parent == old(self).scopes@[h].parent
                    &&& forall|n: Seq<char>| #[trigger] entry_of(final(self).scopes@[h].symbols@, n) == if n == name@
                        && entry_of(old(self).scopes@[h].symbols@, n).unwrap().kind is Variable {
                        Some(SymEntry { id: entry_of(old(self).scopes@[h].symbols@, n).unwrap().id, kind: SymKind::Variable(ty) })
                    } else {
                        entry_of(old(self).scopes@[h].symbols@, n)
                    }
                },
                None => final(self).scopes@ == old(self).scopes@,
            },
    {
        let mut scope = self.current_scope;
        loop
            invariant
                self.wf(),
                *self == *old(self),
                scope < self.scopes@.len(),
                holder_from(self.scopes@, self.current_scope as int, name@) == holder_from(self.scopes@, scope as int, name@),
            decreases scope,
        {
            assert(distinct_names(self.scopes@[scope as int].symbols@));
            match Self::find_in(&self.scopes[scope].symbols, name) {
                Some(k) => {
                    let is_var = match &self.scopes[scope].symbols[k].1.kind {
                        SymKind::Variable(_) => true,
                        _ => false,
                    };
                    if is_var {
                        let id = self.scopes[scope].symbols[k].1.id;
                        self.set_entry(scope, k, SymEntry { id, kind: SymKind::Variable(ty) });
                        proof {
                            lemma_entry_present(old(self).scopes@[scope as int].symbols@, k as int);
                        }
                    } else {
                        proof {
                            lemma_entry_present(old(self).scopes@[scope as int].symbols@, k as int);
                        }
                    }
                    return;
                },
                None => {},
            }
            match self.scopes[scope].parent {
                Some(parent) => {
                    proof {
                        assert(self.scopes@[scope as int].parent is Some);
                    }
                    scope = parent;
                },
                None => {
                    return;
                },
            }
        }
    }
}

proof fn lemma_entry_set(entries: Seq<(String, SymEntry)>, k: int, entry: SymEntry)
    requires
        distinct_names(entries),
        0 <= k < entries.len(),
    ensures
        forall|n: Seq<char>| #[trigger] entry_of(entries.update(k, (entries[k].0, entry)), n) == if n == entries[k].0@ {
            Some(entry)
        } else {
            entry_of(entries, n)
        },
    decreases entries.len(),
{
    let u = entries.update(k, (entries[k].0, entry));
    if k == entries.len() - 1 {
        assert(u.drop_last() =~= entries.drop_last());
        assert forall|n: Seq<char>| #[trigger] entry_of(u, n) == if n == entries[k].0@ { Some(entry) } else { entry_of(entries, n) } by {
        }
    } else {
        let d = entries.drop_last();
        assert(distinct_names(d));
        lemma_entry_set(d, k, entry);
        assert(u.drop_last() =~= d.update(k, (d[k].0, entry)));
        assert forall|n: Seq<char>| #[trigger] entry_of(u, n) == if n == entries[k].0@ { Some(entry) } else { entry_of(entries, n) } by {
            assert(d[k] == entries[k]);
            assert(u.last() == entries.last());
            assert(entry_of(d.update(k, (d[k].0, entry)), n) == if n == d[k].0@ { Some(entry) } else { entry_of(d, n) });
            if n == entries[k].0@ {
                assert(entries.last().0@ != entries[k].0@);
            }
        }
    }
}

proof fn lemma_entry_absent(entries: Seq<(String, SymEntry)>, name: Seq<char>)
    requires
        entry_of(entries, name) is None,
    ensures
        forall|i: int| 0 <= i < entries.len() ==> entries[i].0@ != name,
    decreases entries.len(),
{
    if entries.len() > 0 {
        lemma_entry_absent(entries.drop_last(), name);
        assert forall|i: int| 0 <= i < entries.len() implies entries[i].0@ != name by {
            if i < entries.len() - 1 {
                assert(entries.drop_last()[i] == entries[i]);
            }
        }
    }
}

proof fn lemma_entry_present(entries: Seq<(String, SymEntry)>, i: int)
    requires
        distinct_names(entries),
        0 <= i < entries.len(),
    ensures
        entry_of(entries, entries[i].0@) == Some(entries[i].1),
    decreases entries.len(),
{
    if i < entries.len() - 1 {
        lemma_entry_present(entries.drop_last(), i);
    }
}

proof fn lemma_entry_remove(entries: Seq<(String, SymEntry)>, i: int)
    requires
        distinct_names(entries),
        0 <= i < entries.len(),
    ensures
        forall|n: Seq<char>| #[trigger] entry_of(entries.remove(i), n) == if n == entries[i].0@ {
            None
        } else {
            entry_of(entries, n)
        },
    decreases entries.len(),
{
    let r = entries.remove(i);
    assert forall|n: Seq<char>| #[trigger] entry_of(r, n) == if n == entries[i].0@ { None } else { entry_of(entries, n) } by {
        if n == entries[i].0@ {
            assert forall|k: int| 0 <= k < r.len() implies r[k].0@ != n by {
                let k2 = if k < i { k } else { k + 1 };
                assert(r[k] == entries[k2]);
                assert(entries[k2].0@ != entries[i].0@);
            }
            lemma_entry_absent_converse(r, n);
        } else {
            lemma_entry_same(entries, i, n);
        }
    }
}

proof fn lemma_entry_absent_converse(entries: Seq<(String, SymEntry)>, name: Seq<char>)
    requires
        forall|i: int| 0 <= i < entries.len() ==> entries[i].0@ != name,
    ensures
        entry_of(entries, name) is None,
    decreases entries.len(),
{
    if entries.len() > 0 {
        lemma_entry_absent_converse(entries.drop_last(), name);
    }
}

proof fn lemma_entry_same(entries: Seq<(String, SymEntry)>, i: int, n: Seq<char>)
    requires
        0 <= i < entries.len(),
        n != entries[i].0@,
    ensures
        entry_of(entries.remove(i), n) == entry_of(entries, n),
    decreases entries.len(),
{
    let r = entries.remove(i);
    if i == entries.len() - 1 {
        assert(r =~= entries.drop_last());
    } else {
        assert(r.drop_last() =~= entries.drop_last().remove(i));
        assert(r.last() == entries.last());
        lemma_entry_same(entries.drop_last(), i, n);
    }
}

proof fn lemma_lookup_prefix(a: Seq<Scope>, b: Seq<Scope>, i: int, name: Seq<char>)
    requires
        0 <= i < a.len(),
        a.len() <= b.len(),
        forall|k: int| 0 <= k <= i ==> #[trigger] b[k] == a[k],
    ensures
        lookup_from(b, i, name) == lookup_from(a, i, name),
    decreases i,
{
    match a[i].parent {
        Some(p) => if p < i {
            lemma_lookup_prefix(a, b, p as int, name);
        },
        None => {},
    }
}

/// A name just defined in the current scope resolves to the new symbol.
pub proof fn lemma_define_then_lookup(before: SymbolTable, after: SymbolTable, name: Seq<char>, k: String, kind: SymKind)
    requires
        before.wf(),
        after.wf(),
        after.current_scope == before.current_scope,
        after.scopes@.len() == before.scopes@.len(),
        k@ == name,
        after.scopes@[before.current_scope as int].symbols@ == before.scopes@[before.current_scope as int].symbols@.push(
            (k, SymEntry { id: before.symbols@.len() as usize, kind }),
        ),
    ensures
        after.resolves(name) == Some(SymEntry { id: before.symbols@.len() as usize, kind }),
{
}

/// Entering a scope and leaving it again leaves every name resolving as before.
pub proof fn lemma_enter_exit_scope(t0: SymbolTable, t1: SymbolTable, t2: SymbolTable, name: Seq<char>)
    requires
        t0.wf(),
        t1.wf(),
        t1.scopes@.len() == t0.scopes@.len() + 1,
        t1.scopes@.take(t0.scopes@.len() as int) == t0.scopes@,
        t1.current_scope == t0.scopes@.len(),
        t1.scopes@.last().parent == Some(t0.current_scope),
        t2.scopes@ == t1.scopes@,
        t2.current_scope == match t1.scopes@[t1.current_scope as int].parent {
            Some(p) => p,
            None => t1.current_scope,
        },
    ensures
        t2.current_scope == t0.current_scope,
        t2.resolves(name) == t0.resolves(name),
{
    assert forall|k: int| 0 <= k <= t0.current_scope implies #[trigger] t2.scopes@[k] == t0.scopes@[k] by {
        assert(t1.scopes@.take(t0.scopes@.len() as int)[k] == t1.scopes@[k]);
    }
    lemma_lookup_prefix(t0.scopes@, t2.scopes@, t0.current_scope as int, name);
}

/// `after` is `before` with the entry for `name` in the current scope set to
/// `e`, every other entry and scope as it was.
pub open spec fn entry_set(before: SymbolTable, after: SymbolTable, name: Seq<char>, e: Option<SymEntry>) -> bool {
    let cur = before.current_scope as int;
    &&& after.current_scope == before.current_scope
    &&& after.scopes@.len() == before.scopes@.len()
    &&& forall|i: int| 0 <= i < before.scopes@.len() && i != cur ==> #[trigger] after.scopes@[i] == before.scopes@[i]
    &&& after.scopes@[cur].parent == before.scopes@[cur].parent
    &&& forall|n: Seq<char>| #[trigger] entry_of(after.scopes@[cur].symbols@, n)
        == if n == name { e } else { entry_of(before.scopes@[cur].symbols@, n) }
}

/// Setting the entry of one name leaves what every other name resolves to.
pub proof fn lemma_entry_set_other(before: SymbolTable, after: SymbolTable, name: Seq<char>, e: Option<SymEntry>, n: Seq<char>, i: int)
    requires
        entry_set(before, after, name, e),
        n != name,
    ensures
        lookup_from(after.scopes@, i, n) == lookup_from(before.scopes@, i, n),
    decreases i,
{
    if 0 <= i < before.scopes@.len() {
        if i != before.current_scope {
            assert(after.scopes@[i] == before.scopes@[i]);
        } else {
            assert(entry_of(after.scopes@[i].symbols@, n) == entry_of(before.scopes@[i].symbols@, n));
        }
        match before.scopes@[i].parent {
            Some(p) => {
                if p < i {
                    lemma_entry_set_other(before, after, name, e, n, p as int);
                }
            },
            None => {},
        }
    }
}

/// A name set in the current scope resolves to its new entry.
pub proof fn lemma_entry_set_same(before: SymbolTable, after: SymbolTable, name: Seq<char>, e: SymEntry)
    requires
        before.current_scope < before.scopes@.len(),
        entry_set(before, after, name, Some(e)),
    ensures
        after.resolves(name) == Some(e),
{
    assert(entry_of(after.scopes@[before.current_scope as int].symbols@, name) == Some(e));
}

} // verus!
