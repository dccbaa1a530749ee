//! The outline of a document: the functions, types, traits and variables
//! declared at its top level, as an editor lists them.
use vstd::prelude::*;
use crate::ast::{Param, Stmt};
use crate::lsp::{chars_before, joined, lemma_joined_step, pos_at, push_type, span_to_range, type_text, Position, Range};
use crate::span::{Span, Spanned};
use crate::text::{push_str_chars, text_fits};

verus! {

/// What an outline entry stands for.
#[derive(Debug, Clone, Copy, PartialEq, Eq, Structural)]
pub enum OutlineKind {
    Function,
    Field,
    Struct,
    EnumMember,
    Enum,
    Method,
    Interface,
    Variable,
}

/// One entry of the outline, with the entries nested in it.
#[derive(Debug)]
pub struct DocumentSymbol {
    pub name: String,
    pub detail: Option<String>,
    pub kind: OutlineKind,
    pub range: Range,
    pub selection_range: Range,
    pub children: Option<Vec<DocumentSymbol>>,
}

/// The editor range of a span of `source`.
pub open spec fn range_of(source: Seq<char>, span: Span) -> Range {
    let a = pos_at(source, chars_before(source, span.0 as int));
    let b = pos_at(source, chars_before(source, span.1 as int));
    Range {
        start: Position { line: a.0 as u32, character: a.1 as u32 },
        end: Position { line: b.0 as u32, character: b.1 as u32 },
    }
}

/// `fn(a, b)`: how a function is described, by its parameters' names.
pub open spec fn fn_detail(ps: Seq<Param>) -> Seq<char> {
    "fn("@ + joined(ps.map_values(|p: Param| p.name@), ", "@) + ")"@
}

/// The functions among the methods of a trait: their names and descriptions.
pub open spec fn trait_methods(ms: Seq<Spanned<Stmt>>) -> Seq<(Seq<char>, Seq<char>)>
    decreases ms.len(),
{
    if ms.len() == 0 {
        seq![]
    } else {
        let rest = trait_methods(ms.drop_last());
        match ms.last().node {
            Stmt::Fn { name, params, .. } => rest.push((name@, fn_detail(params@))),
            _ => rest,
        }
    }
}

/// An entry with no nested entries.
pub open spec fn leaf(d: DocumentSymbol, name: Seq<char>, detail: Option<Seq<char>>, kind: OutlineKind, r: Range) -> bool {
    &&& d.name@ == name
    &&& match detail {
        Some(t) => d.detail matches Some(x) && x@ == t,
        None => d.detail is None,
    }
    &&& d.kind == kind
    &&& d.range == r
    &&& d.selection_range == r
    &&& d.children is None
}

/// `d` is the outline entry of statement `st` of `source`: a function with
/// its parameters, a struct with its fields (and their types), an enum with
/// its variants, a trait with its method signatures, or a variable; all
/// entries span the whole statement.
pub open spec fn outline_entry(d: DocumentSymbol, st: Spanned<Stmt>, source: Seq<char>) -> bool {
    let r = range_of(source, st.span);
    match st.node {
        Stmt::Fn { name, params, .. } => leaf(d, name@, Some(fn_detail(params@)), OutlineKind::Function, r),
        Stmt::Let { name, .. } => leaf(d, name@, None, OutlineKind::Variable, r),
        Stmt::Struct { name, fields, .. } => {
            &&& d.name@ == name@ && d.detail is None && d.kind == OutlineKind::Struct
            &&& d.range == r && d.selection_range == r
            &&& d.children matches Some(c) && c@.len() == fields@.len()
                && forall|i: int| 0 <= i < c@.len() ==> leaf(#[trigger] c@[i], fields@[i].name@,
                    Some(type_text(fields@[i].type_ann)), OutlineKind::Field, r)
        },
        Stmt::Enum { name, variants, .. } => {
            &&& d.name@ == name@ && d.detail is None && d.kind == OutlineKind::Enum
            &&& d.range == r && d.selection_range == r
            &&& d.children matches Some(c) && c@.len() == variants@.len()
                && forall|i: int| 0 <= i < c@.len() ==> leaf(#[trigger] c@[i], variants@[i].name@, None,
                    OutlineKind::EnumMember, r)
        },
        Stmt::Trait { name, methods, .. } => {
            &&& d.name@ == name@ && d.detail is None && d.kind == OutlineKind::Interface
            &&& d.range == r && d.selection_range == r
            &&& d.children matches Some(c) && c@.len() == trait_methods(methods@).len()
                && forall|i: int| 0 <= i < c@.len() ==> leaf(#[trigger] c@[i], trait_methods(methods@)[i].0,
                    Some(trait_methods(methods@)[i].1), OutlineKind::Method, r)
        },
        _ => false,
    }
}

/// Statements that have an outline entry.
pub open spec fn outlined(s: Stmt) -> bool {
    match s {
        Stmt::Fn { .. } | Stmt::Let { .. } | Stmt::Struct { .. } | Stmt::Enum { .. } | Stmt::Trait { .. } => true,
        _ => false,
    }
}

/// The statements among `stmts` that have an outline entry, in order.
pub open spec fn outlined_stmts(stmts: Seq<Spanned<Stmt>>) -> Seq<Spanned<Stmt>>
    decreases stmts.len(),
{
    if stmts.len() == 0 {
        seq![]
    } else if outlined(stmts.last().node) {
        outlined_stmts(stmts.drop_last()).push(stmts.last())
    } else {
        outlined_stmts(stmts.drop_last())
    }
}

/// `fn(a, b)` for the given parameters.
fn fn_detail_text(params: &Vec<Param>) -> (s: String)
    ensures
        s@ == fn_detail(params@),
{
    let ghost v = params@.map_values(|p: Param| p.name@);
    let mut out = String::new();
    push_str_chars(&mut out, "fn(");
    let mut i: usize = 0;
    while i < params.len()
        invariant
            i <= params@.len(),
            v == params@.map_values(|p: Param| p.name@),
            out@ == "fn("@ + joined(v.take(i as int), ", "@),
        decreases params@.len() - i,
    {
        proof {
            lemma_joined_step(v, ", "@, i as int);
        }
        if i > 0 {
            push_str_chars(&mut out, ", ");
        }
        push_str_chars(&mut out, params[i].name.as_str());
        proof {
            if i == 0 {
                assert(v.take(0) =~= Seq::<Seq<char>>::empty());
            }
            assert(out@ =~= "fn("@ + joined(v.take(i + 1), ", "@));
        }
        i = i + 1;
    }
    proof {
        assert(v.take(params@.len() as int) =~= v);
        if params@.len() == 0 {
            assert(v.take(0) =~= Seq::<Seq<char>>::empty());
        }
    }
    push_str_chars(&mut out, ")");
    out
}

fn leaf_symbol(name: &String, detail: Option<String>, kind: OutlineKind, range: Range) -> (d: DocumentSymbol)
    ensures
        d.name@ == name@,
        d.detail == detail,
        d.kind == kind,
        d.range == range,
        d.selection_range == range,
        d.children is None,
{
    DocumentSymbol { name: name.clone(), detail, kind, range, selection_range: range, children: None }
}

/// The outline entry of a statement, if it has one.
pub fn stmt_to_document_symbol(stmt: &Spanned<Stmt>, source: &str) -> (r: Option<DocumentSymbol>)
    requires
        text_fits(source@),
        source@.len() <= u32::MAX,
    ensures
        match r {
            Some(d) => outlined(stmt.node) && outline_entry(d, *stmt, source@),
            None => !outlined(stmt.node),
        },
{
    let range = span_to_range(source, stmt.span);
    assert(range == range_of(source@, stmt.span));
    match &stmt.node {
        Stmt::Fn { name, params, .. } => {
            let detail = fn_detail_text(params);
            Some(leaf_symbol(name, Some(detail), OutlineKind::Function, range))
        },
        Stmt::Struct { name, fields, .. } => {
            let mut children: Vec<DocumentSymbol> = Vec::new();
            let mut i: usize = 0;
            while i < fields.len()
                invariant
                    i <= fields@.len(),
                    children@.len() == i,
                    forall|j: int| 0 <= j < i ==> leaf(#[trigger] children@[j], fields@[j].name@,
                        Some(type_text(fields@[j].type_ann)), OutlineKind::Field, range),
                decreases fields@.len() - i,
            {
                let mut t = String::new();
                push_type(&mut t, &fields[i].type_ann);
                children.push(leaf_symbol(&fields[i].name, Some(t), OutlineKind::Field, range));
                i = i + 1;
            }
            Some(
                DocumentSymbol {
                    name: name.clone(),
                    detail: None,
                    kind: OutlineKind::Struct,
                    range,
                    selection_range: range,
                    children: Some(children),
                },
            )
        },
        Stmt::Enum { name, variants, .. } => {
            let mut children: Vec<DocumentSymbol> = Vec::new();
            let mut i: usize = 0;
            while i < variants.len()
                invariant
                    i <= variants@.len(),
                    children@.len() == i,
                    forall|j: int| 0 <= j < i ==> leaf(#[trigger] children@[j], variants@[j].name@, None,
                        OutlineKind::EnumMember, range),
                decreases variants@.len() - i,
            {
                children.push(leaf_symbol(&variants[i].name, None, OutlineKind::EnumMember, range));
                i = i + 1;
            }
            Some(
                DocumentSymbol {
                    name: name.clone(),
                    detail: None,
                    kind: OutlineKind::Enum,
                    range,
                    selection_range: range,
                    children: Some(children),
                },
            )
        },
        Stmt::Trait { name, methods, .. } => {
            let mut children: Vec<DocumentSymbol> = Vec::new();
            let mut i: usize = 0;
            while i < methods.len()
                invariant
                    i <= methods@.len(),
                    children@.len() == trait_methods(methods@.take(i as int)).len(),
                    forall|j: int| 0 <= j < children@.len() ==> leaf(#[trigger] children@[j],
                        trait_methods(methods@.take(i as int))[j].0, Some(trait_methods(methods@.take(i as int))[j].1),
                        OutlineKind::Method, range),
                decreases methods@.len() - i,
            {
                proof {
                    assert(methods@.take(i + 1).drop_last() =~= methods@.take(i as int));
                    assert(methods@.take(i + 1).last() == methods@[i as int]);
                }
                match &methods[i].node {
                    Stmt::Fn { name: fn_name, params, .. } => {
                        let detail = fn_detail_text(params);
                        children.push(leaf_symbol(fn_name, Some(detail), OutlineKind::Method, range));
                    },
                    _ => {},
                }
                i = i + 1;
            }
            proof {
                assert(methods@.take(methods@.len() as int) =~= methods@);
            }
            Some(
                DocumentSymbol {
                    name: name.clone(),
                    detail: None,
                    kind: OutlineKind::Interface,
                    range,
                    selection_range: range,
                    children: Some(children),
                },
            )
        },
        Stmt::Let { name, .. } => Some(leaf_symbol(name, None, OutlineKind::Variable, range)),
        _ => None,
    }
}

/// The outline of a program: the entries of its statements that have one, in
/// order; `None` when there is none.
pub fn document_symbols(stmts: &Vec<Spanned<Stmt>>, source: &str) -> (r: Option<Vec<DocumentSymbol>>)
    requires
        text_fits(source@),
        source@.len() <= u32::MAX,
    ensures
        match r {
            Some(v) => v@.len() > 0 && v@.len() == outlined_stmts(stmts@).len() && forall|k: int| 0 <= k < v@.len()
                ==> outline_entry(#[trigger] v@[k], outlined_stmts(stmts@)[k], source@),
            None => outlined_stmts(stmts@).len() == 0,
        },
{
    let mut symbols: Vec<DocumentSymbol> = Vec::new();
    let mut i: usize = 0;
    while i < stmts.len()
        invariant
            i <= stmts@.len(),
            text_fits(source@),
            source@.len() <= u32::MAX,
            symbols@.len() == outlined_stmts(stmts@.take(i as int)).len(),
            forall|k: int| 0 <= k < symbols@.len() ==> outline_entry(#[trigger] symbols@[k],
                outlined_stmts(stmts@.take(i as int))[k], source@),
        decreases stmts@.len() - i,
    {
        proof {
            assert(stmts@.take(i + 1).drop_last() =~= stmts@.take(i as int));
            assert(stmts@.take(i + 1).last() == stmts@[i as int]);
        }
        match stmt_to_document_symbol(&stmts[i], source) {
            Some(d) => symbols.push(d),
            None => {},
        }
        i = i + 1;
    }
    proof {
        assert(stmts@.take(stmts@.len() as int) =~= stmts@);
    }
    if symbols.len() == 0 {
        None
    } else {
        Some(symbols)
    }
}

} // verus!
