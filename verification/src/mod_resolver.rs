//! File-backed modules: which `mod name;` declaration to load next, and
//! putting a loaded file's statements in its place. Reading the files is the
//! caller's part.
use vstd::prelude::*;
use crate::ast::Stmt;
use crate::compiler::{contains_name, names_of};
use crate::span::Spanned;

verus! {

/// Positions as natural numbers.
pub open spec fn nats(p: Seq<usize>) -> Seq<nat> {
    p.map_values(|x: usize| x as nat)
}

/// The first module declaration, in the order the statements are written
/// (a module's own statements right after it), that has no statements and a
/// name not yet loaded: the path of positions that leads to it and its name.
pub open spec fn pending_module(stmts: Seq<Spanned<Stmt>>, loaded: Seq<Seq<char>>) -> Option<(Seq<nat>, Seq<char>)>
    decreases stmts, 0nat,
{
    if stmts.len() == 0 {
        None
    } else {
        match pending_in_stmt(stmts[0].node, loaded) {
            Some((p, n)) => Some((seq![0nat] + p, n)),
            None => match pending_module(stmts.drop_first(), loaded) {
                Some((p, n)) => Some((seq![p[0] + 1] + p.drop_first(), n)),
                None => None,
            },
        }
    }
}

/// The pending module declaration a statement is or holds; the path is
/// empty when it is the statement itself.
pub open spec fn pending_in_stmt(s: Stmt, loaded: Seq<Seq<char>>) -> Option<(Seq<nat>, Seq<char>)>
    decreases s, 1nat,
{
    match s {
        Stmt::Mod { name, body, .. } => if body@.len() == 0 {
            if loaded.contains(name@) { None } else { Some((Seq::empty(), name@)) }
        } else {
            pending_module(body@, loaded)
        },
        _ => None,
    }
}

proof fn lemma_pending_path_nonempty(stmts: Seq<Spanned<Stmt>>, loaded: Seq<Seq<char>>)
    ensures
        pending_module(stmts, loaded) matches Some((p, _)) ==> p.len() >= 1 && p[0] < stmts.len(),
    decreases stmts.len(),
{
    if stmts.len() > 0 {
        lemma_pending_path_nonempty(stmts.drop_first(), loaded);
    }
}

/// The next module declaration to load, if any (see `pending_module`).
pub fn next_module(stmts: &Vec<Spanned<Stmt>>, loaded: &Vec<String>) -> (r: Option<(Vec<usize>, String)>)
    ensures
        match r {
            Some((p, n)) => pending_module(stmts@, names_of(loaded@)) == Some((nats(p@), n@)),
            None => pending_module(stmts@, names_of(loaded@)) is None,
        },
    decreases stmts, 0nat,
{
    let mut k: usize = 0;
    assert(stmts@.skip(0) =~= stmts@);
    while k < stmts.len()
        invariant
            k <= stmts@.len(),
            forall|j: int| 0 <= j < k ==> pending_in_stmt(#[trigger] stmts@[j].node, names_of(loaded@)) is None,
        decreases stmts@.len() - k,
    {
        proof {
            assert(decreases_to!(stmts => stmts@[k as int].node));
        }
        match next_in_stmt(&stmts[k].node, loaded) {
            Some((p, n)) => {
                let mut path: Vec<usize> = Vec::new();
                path.push(k);
                assert(nats(path@) =~= seq![k as nat] + nats(p@).subrange(0, 0));
                let mut i: usize = 0;
                while i < p.len()
                    invariant
                        i <= p@.len(),
                        nats(path@) == seq![k as nat] + nats(p@).subrange(0, i as int),
                    decreases p@.len() - i,
                {
                    let ghost pv = path@;
                    path.push(p[i]);
                    i = i + 1;
                    assert(nats(path@) =~= nats(pv).push(p@[i - 1] as nat));
                    assert(nats(p@).subrange(0, i as int) =~= nats(p@).subrange(0, i - 1).push(p@[i - 1] as nat));
                    assert(nats(path@) =~= seq![k as nat] + nats(p@).subrange(0, i as int));
                }
                proof {
                    assert(nats(p@).subrange(0, p@.len() as int) =~= nats(p@));
                    lemma_pending_at(stmts@, names_of(loaded@), k as int);
                }
                return Some((path, n));
            },
            None => {},
        }
        k = k + 1;
    }
    proof {
        lemma_pending_none(stmts@, names_of(loaded@));
    }
    None
}

proof fn lemma_pending_at(stmts: Seq<Spanned<Stmt>>, loaded: Seq<Seq<char>>, k: int)
    requires
        0 <= k < stmts.len(),
        forall|j: int| 0 <= j < k ==> pending_in_stmt(#[trigger] stmts[j].node, loaded) is None,
        pending_in_stmt(stmts[k].node, loaded) is Some,
    ensures
        pending_module(stmts, loaded) == Some((
            seq![k as nat] + pending_in_stmt(stmts[k].node, loaded).unwrap().0,
            pending_in_stmt(stmts[k].node, loaded).unwrap().1,
        )),
    decreases k,
{
    if k > 0 {
        let rest = stmts.drop_first();
        assert(pending_in_stmt(stmts[0].node, loaded) is None);
        assert forall|j: int| 0 <= j < k - 1 implies pending_in_stmt(#[trigger] rest[j].node, loaded) is None by {
            assert(rest[j] == stmts[j + 1]);
        }
        assert(rest[k - 1] == stmts[k]);
        lemma_pending_at(rest, loaded, k - 1);
        let p = pending_in_stmt(stmts[k].node, loaded).unwrap().0;
        let q = seq![(k - 1) as nat] + p;
        assert(seq![q[0] + 1] + q.drop_first() =~= seq![k as nat] + p);
    } else {
        let p = pending_in_stmt(stmts[0].node, loaded).unwrap().0;
        assert(seq![0nat] + p =~= seq![k as nat] + p);
    }
}

proof fn lemma_pending_none(stmts: Seq<Spanned<Stmt>>, loaded: Seq<Seq<char>>)
    requires
        forall|j: int| 0 <= j < stmts.len() ==> pending_in_stmt(#[trigger] stmts[j].node, loaded) is None,
    ensures
        pending_module(stmts, loaded) is None,
    decreases stmts.len(),
{
    if stmts.len() > 0 {
        let rest = stmts.drop_first();
        assert(pending_in_stmt(stmts[0].node, loaded) is None);
        assert forall|j: int| 0 <= j < rest.len() implies pending_in_stmt(#[trigger] rest[j].node, loaded) is None by {
            assert(rest[j] == stmts[j + 1]);
        }
        lemma_pending_none(rest, loaded);
    }
}

/// The pending module declaration a statement is or holds.
fn next_in_stmt(s: &Stmt, loaded: &Vec<String>) -> (r: Option<(Vec<usize>, String)>)
    ensures
        match r {
            Some((p, n)) => pending_in_stmt(*s, names_of(loaded@)) == Some((nats(p@), n@)),
            None => pending_in_stmt(*s, names_of(loaded@)) is None,
        },
    decreases s, 1nat,
{
    match s {
        Stmt::Mod { name, body, .. } => {
            if body.len() == 0 {
                if contains_name(loaded, name) {
                    None
                } else {
                    let p: Vec<usize> = Vec::new();
                    proof {
                        assert(nats(p@) =~= Seq::<nat>::empty());
                    }
                    Some((p, name.clone()))
                }
            } else {
                next_module(body, loaded)
            }
        },
        _ => None,
    }
}

/// `new` is `old` with the module declaration at `path` given the body `body`.
pub open spec fn attached(old: Seq<Spanned<Stmt>>, new: Seq<Spanned<Stmt>>, path: Seq<nat>, body: Seq<Spanned<Stmt>>) -> bool
    decreases path.len(),
{
    &&& path.len() >= 1
    &&& path[0] < old.len()
    &&& new.len() == old.len()
    &&& forall|j: int| 0 <= j < old.len() && j != path[0] ==> new[j] == old[j]
    &&& new[path[0] as int].span == old[path[0] as int].span
    &&& match (old[path[0] as int].node, new[path[0] as int].node) {
        (Stmt::Mod { vis: v1, name: n1, body: b1 }, Stmt::Mod { vis: v2, name: n2, body: b2 }) => {
            &&& v1 == v2
            &&& n1 == n2
            &&& if path.len() == 1 { b2@ == body } else { attached(b1@, b2@, path.drop_first(), body) }
        },
        _ => false,
    }
}

/// A path leads to a module declaration.
pub open spec fn leads_to_mod(stmts: Seq<Spanned<Stmt>>, path: Seq<nat>) -> bool
    decreases path.len(),
{
    &&& path.len() >= 1
    &&& path[0] < stmts.len()
    &&& match stmts[path[0] as int].node {
        Stmt::Mod { body, .. } => path.len() == 1 || leads_to_mod(body@, path.drop_first()),
        _ => false,
    }
}

proof fn lemma_pending_leads(stmts: Seq<Spanned<Stmt>>, loaded: Seq<Seq<char>>)
    ensures
        pending_module(stmts, loaded) matches Some((p, _)) ==> leads_to_mod(stmts, p),
    decreases stmts, 0nat,
{
    if stmts.len() > 0 {
        lemma_pending_stmt_leads(stmts[0].node, loaded);
        lemma_pending_leads(stmts.drop_first(), loaded);
        match pending_in_stmt(stmts[0].node, loaded) {
            Some((p, n)) => {
                let q = seq![0nat] + p;
                assert(q.drop_first() =~= p);
            },
            None => match pending_module(stmts.drop_first(), loaded) {
                Some((p, n)) => {
                    lemma_pending_path_nonempty(stmts.drop_first(), loaded);
                    let q = seq![p[0] + 1] + p.drop_first();
                    assert(q.drop_first() =~= p.drop_first());
                    assert(stmts[q[0] as int] == stmts.drop_first()[p[0] as int]);
                },
                None => {},
            },
        }
    }
}

proof fn lemma_pending_stmt_leads(s: Stmt, loaded: Seq<Seq<char>>)
    ensures
        pending_in_stmt(s, loaded) matches Some((p, _)) ==> (p.len() == 0 && s is Mod) || (s matches Stmt::Mod { body, .. } && leads_to_mod(body@, p)),
    decreases s, 1nat,
{
    match s {
        Stmt::Mod { body, .. } => {
            if body@.len() > 0 {
                lemma_pending_leads(body@, loaded);
            }
        },
        _ => {},
    }
}

/// Put `body` as the statements of the module declaration at `path`.
pub fn attach_module(stmts: Vec<Spanned<Stmt>>, path: &Vec<usize>, body: Vec<Spanned<Stmt>>) -> (r: Vec<Spanned<Stmt>>)
    requires
        leads_to_mod(stmts@, nats(path@)),
    ensures
        attached(stmts@, r@, nats(path@), body@),
{
    assert(nats(path@).skip(0) =~= nats(path@));
    attach_at(stmts, path, 0, body)
}

/// `attach_module` along the path from position `k` on.
fn attach_at(stmts: Vec<Spanned<Stmt>>, path: &Vec<usize>, k: usize, body: Vec<Spanned<Stmt>>) -> (r: Vec<Spanned<Stmt>>)
    requires
        k < path@.len(),
        leads_to_mod(stmts@, nats(path@).skip(k as int)),
    ensures
        attached(stmts@, r@, nats(path@).skip(k as int), body@),
    decreases path@.len() - k,
{
    let ghost orig = stmts@;
    let ghost p = nats(path@).skip(k as int);
    let mut stmts = stmts;
    let i = path[k];
    assert(p[0] == i);
    let old_stmt = stmts.remove(i);
    let ghost before = stmts@;
    let new_stmt = match old_stmt.node {
        Stmt::Mod { vis, name, body: inner } => {
            if k == path.len() - 1 {
                Spanned { node: Stmt::Mod { vis, name, body }, span: old_stmt.span }
            } else {
                assert(p.drop_first() =~= nats(path@).skip(k + 1));
                let new_inner = attach_at(inner, path, k + 1, body);
                Spanned { node: Stmt::Mod { vis, name, body: new_inner }, span: old_stmt.span }
            }
        },
        other => Spanned { node: other, span: old_stmt.span },
    };
    stmts.insert(i, new_stmt);
    proof {
        assert forall|j: int| 0 <= j < stmts@.len() && j != i implies stmts@[j] == orig[j] by {
            if j < i {
                assert(stmts@[j] == before[j]);
            } else {
                assert(stmts@[j] == before[j - 1]);
            }
        }
        if k + 1 < path@.len() {
            assert(p.drop_first() =~= nats(path@).skip(k + 1));
        }
    }
    stmts
}

/// Loading a pending module's file and attaching it leaves a tree in which
/// that module is attached where the search found it.
pub proof fn lemma_next_module_attachable(stmts: Seq<Spanned<Stmt>>, loaded: Seq<Seq<char>>)
    requires
        pending_module(stmts, loaded) is Some,
    ensures
        leads_to_mod(stmts, pending_module(stmts, loaded).unwrap().0),
{
    lemma_pending_leads(stmts, loaded);
}

} // verus!
