//! What the scope builder guarantees of every input, stated over the
//! specification of the walk and proved from it.
use vstd::prelude::*;

use crate::builder::{
    all_attached, attached, skipped, use_checked, annotated, class_setup, declare, declare_var, declarator_ident, kids_walked, leaf_ident,
    lemma_production_names, method_ident, method_registered, method_scope, open_scope,
    plain_entry, register_from, scoped_entry, var_kind, walk, walk_from, Env,
};
use crate::error::ErrorView;
use crate::symtab::{
    arena_wf, find_entry, lemma_find_entry_member, names_unique, resolve, scope_ok, EntryView,
    ScopeView, SymbolKind,
};
use crate::tree::Tree;

verus! {

/// A child of `t` is smaller than `t`.
proof fn lemma_child_smaller(t: Tree, j: int)
    requires
        0 <= j < t.kids@.len(),
    ensures
        decreases_to!(t => t.kids@[j]),
{
    assert(decreases_to!(t => t.kids));
    assert(decreases_to!(t.kids => t.kids@));
    assert(decreases_to!(t.kids@ => t.kids@[j]));
}

/// Every node of `t` has a scope attached and its constant attribute set.
pub open spec fn scoped_everywhere(t: Tree) -> bool
    decreases t,
{
    &&& t.stab is Some
    &&& t.is_const is Some
    &&& forall|j: int| 0 <= j < t.kids@.len() ==> scoped_everywhere(#[trigger] t.kids@[j])
}

proof fn lemma_attached_scoped(o: Tree, n: Tree, c: usize)
    requires
        attached(o, n, c),
    ensures
        scoped_everywhere(n),
    decreases o,
{
    assert forall|j: int| 0 <= j < n.kids@.len() implies scoped_everywhere(#[trigger] n.kids@[j]) by {
        lemma_child_smaller(o, j);
        assert(all_attached(o.kids@, n.kids@, c));
        lemma_attached_scoped(o.kids@[j], n.kids@[j], c);
    }
}

/// Scope coverage: after a walk, every node of the tree has a scope
/// attached and its constant attribute computed.
pub proof fn lemma_every_node_scoped(o: Tree, n: Tree, cur: usize, s: Env)
    requires
        annotated(o, n, cur, s),
    ensures
        scoped_everywhere(n),
    decreases o,
{
    let ks = o.kids@;
    let ns = n.kids@;
    let s0 = use_checked(o, cur, s);
    assert(n.sym@ == o.sym@);
    let (lo, c, s1) = if o.sym@ == "ClassDecl"@ {
        if ks.len() == 0 {
            (0int, cur, s0)
        } else {
            (1int, class_setup(o, cur, s0).0, class_setup(o, cur, s0).1)
        }
    } else if o.sym@ == "MethodDecl"@ {
        (0int, method_scope(o, cur, s0).0, method_scope(o, cur, s0).1)
    } else if var_kind(o) is Some {
        (0int, cur, if ks.len() < 2 {
            s0
        } else {
            declare_var(o, cur, var_kind(o)->0, s0)
        })
    } else {
        (0int, cur, s0)
    };
    if ks.len() > 0 {
        assert(kids_walked(o.sym@, ks, ns, lo, c, s1));
        assert forall|j: int| 0 <= j < ns.len() implies scoped_everywhere(#[trigger] ns[j]) by {
            lemma_child_smaller(o, j);
            if j < lo {
                lemma_attached_scoped(ks[j], ns[j], cur);
            } else if skipped(o.sym@, ks, j) {
                lemma_attached_scoped(ks[j], ns[j], c);
            } else {
                lemma_every_node_scoped(ks[j], ns[j], c, walk_from(o.sym@, ks, lo, j, c, s1));
            }
        }
    }
}

/// Uniqueness: in a well-formed arena a scope holds at most one entry under
/// a name, and local lookup finds exactly that entry.
pub proof fn lemma_one_entry_per_name(a: Seq<ScopeView>, h: int, name: Seq<char>)
    requires
        arena_wf(a),
        0 <= h < a.len(),
    ensures
        forall|i: int, j: int|
            0 <= i < a[h].entries.len() && 0 <= j < a[h].entries.len() && a[h].entries[i].name
                == name && a[h].entries[j].name == name ==> i == j,
        forall|i: int|
            0 <= i < a[h].entries.len() && #[trigger] a[h].entries[i].name == name ==> find_entry(
                a[h].entries,
                name,
            ) == Some(a[h].entries[i]),
{
    assert(scope_ok(a[h], h, a.len() as int));
    let es = a[h].entries;
    assert(names_unique(es));
    lemma_find_entry_member(es, name);
}

/// A second declaration of a name in one scope is rejected: it records a
/// redeclaration at the second declaration's line, and the first entry
/// stays where it was.
pub proof fn lemma_second_declaration_rejected(
    s: Env,
    h: usize,
    first: EntryView,
    first_line: usize,
    second: EntryView,
    second_line: usize,
)
    requires
        h < s.scopes.len(),
        find_entry(s.scopes[h as int].entries, first.name) is None,
        second.name == first.name,
    ensures
        declare(s, h, first, first_line).errors == s.errors,
        find_entry(declare(s, h, first, first_line).scopes[h as int].entries, first.name) == Some(
            first,
        ),
        declare(declare(s, h, first, first_line), h, second, second_line).scopes == declare(
            s,
            h,
            first,
            first_line,
        ).scopes,
        declare(declare(s, h, first, first_line), h, second, second_line).errors == s.errors.push(
            ErrorView::Redeclared { name: first.name, lineno: second_line },
        ),
{
}

/// Ordering: declarations under fresh, distinct names are appended to their
/// scope in the order they are made, so enumerating the scope yields them in
/// declaration order.
pub proof fn lemma_declaration_order(
    s: Env,
    h: usize,
    e1: EntryView,
    l1: usize,
    e2: EntryView,
    l2: usize,
)
    requires
        h < s.scopes.len(),
        find_entry(s.scopes[h as int].entries, e1.name) is None,
        find_entry(s.scopes[h as int].entries, e2.name) is None,
        e1.name != e2.name,
    ensures
        declare(declare(s, h, e1, l1), h, e2, l2).scopes[h as int].entries == s.scopes[h as int].entries.push(
            e1,
        ).push(e2),
        declare(declare(s, h, e1, l1), h, e2, l2).errors == s.errors,
{
    let es = s.scopes[h as int].entries;
    assert(es.push(e1).drop_last() =~= es);
}


/// `y` is `x` with entries appended.
pub open spec fn scope_extends(x: ScopeView, y: ScopeView) -> bool {
    &&& y.label == x.label
    &&& y.parent == x.parent
    &&& x.entries.len() <= y.entries.len()
    &&& y.entries.subrange(0, x.entries.len() as int) == x.entries
}

/// `b` holds every scope of `a`, each with entries appended, and perhaps
/// new scopes after them.
pub open spec fn extends(a: Seq<ScopeView>, b: Seq<ScopeView>) -> bool {
    &&& a.len() <= b.len()
    &&& forall|i: int| 0 <= i < a.len() ==> scope_extends(#[trigger] a[i], b[i])
}

proof fn lemma_extends_refl(a: Seq<ScopeView>)
    ensures
        extends(a, a),
{
    assert forall|i: int| 0 <= i < a.len() implies scope_extends(#[trigger] a[i], a[i]) by {
        assert(a[i].entries.subrange(0, a[i].entries.len() as int) =~= a[i].entries);
    }
}

proof fn lemma_extends_trans(a: Seq<ScopeView>, b: Seq<ScopeView>, c: Seq<ScopeView>)
    requires
        extends(a, b),
        extends(b, c),
    ensures
        extends(a, c),
{
    assert forall|i: int| 0 <= i < a.len() implies scope_extends(#[trigger] a[i], c[i]) by {
        assert(scope_extends(a[i], b[i]));
        assert(scope_extends(b[i], c[i]));
        let n = a[i].entries.len() as int;
        let nb = b[i].entries.len() as int;
        assert(c[i].entries.subrange(0, n) =~= c[i].entries.subrange(0, nb).subrange(0, n));
        assert(b[i].entries.subrange(0, n) == a[i].entries);
    }
}

proof fn lemma_declare_extends(s: Env, h: usize, e: EntryView, line: usize)
    ensures
        extends(s.scopes, declare(s, h, e, line).scopes),
{
    lemma_extends_refl(s.scopes);
    let r = declare(s, h, e, line).scopes;
    if find_entry(s.scopes[h as int].entries, e.name) is None && h < s.scopes.len() {
        assert forall|i: int| 0 <= i < s.scopes.len() implies scope_extends(#[trigger] s.scopes[i], r[i]) by {
            if i == h {
                let x = s.scopes[i].entries;
                assert(r[i].entries.subrange(0, x.len() as int) =~= x);
            }
        }
    }
}

proof fn lemma_open_extends(s: Env, label: Seq<char>, parent: usize)
    ensures
        extends(s.scopes, open_scope(s, label, parent).scopes),
{
    lemma_extends_refl(s.scopes);
}

proof fn lemma_register_from_extends(ks: Seq<Tree>, lo: int, hi: int, h: usize, s: Env)
    ensures
        extends(s.scopes, register_from(ks, lo, hi, h, s).scopes),
    decreases hi - lo,
{
    if hi <= lo {
        lemma_extends_refl(s.scopes);
    } else {
        let mid = register_from(ks, lo, hi - 1, h, s);
        lemma_register_from_extends(ks, lo, hi - 1, h, s);
        let k = ks[hi - 1];
        if k.sym@ == "FieldDecl"@ {
            if k.kids@.len() < 2 || k.kids@[1].tok is None {
                lemma_extends_refl(mid.scopes);
            } else {
                let (name, line) = leaf_ident(k.kids@[1]);
                lemma_declare_extends(mid, h, plain_entry(name, SymbolKind::Field, h), line);
            }
        } else if k.sym@ == "MethodDecl"@ {
            let (name, line) = method_ident(k);
            let m = mid.scopes.len() as usize;
            let o = open_scope(mid, "method"@, h);
            lemma_open_extends(mid, "method"@, h);
            lemma_declare_extends(o, h, scoped_entry(name, SymbolKind::Method, h, m), line);
            lemma_extends_trans(mid.scopes, o.scopes, method_registered(k, h, mid).scopes);
        } else {
            lemma_extends_refl(mid.scopes);
        }
        lemma_extends_trans(s.scopes, mid.scopes, register_from(ks, lo, hi, h, s).scopes);
    }
}

/// A walk only appends: to the scopes, and to the entries of each scope.
pub proof fn lemma_walk_extends(t: Tree, cur: usize, s0: Env)
    ensures
        extends(s0.scopes, walk(t, cur, s0).scopes),
    decreases t, 1nat,
{
    let ks = t.kids@;
    let ps = t.sym@;
    let s = use_checked(t, cur, s0);
    assert(s.scopes == s0.scopes);
    let fin = walk(t, cur, s0);
    if t.sym@ == "ClassDecl"@ {
        if ks.len() == 0 {
            lemma_extends_refl(s.scopes);
        } else {
            let (name, line) = leaf_ident(ks[0]);
            let h = s.scopes.len() as usize;
            let o = open_scope(s, "class"@, cur);
            let s1 = declare(o, cur, scoped_entry(name, SymbolKind::Class, cur, h), line);
            let s2 = register_from(ks, 1, ks.len() as int, h, s1);
            lemma_open_extends(s, "class"@, cur);
            lemma_declare_extends(o, cur, scoped_entry(name, SymbolKind::Class, cur, h), line);
            lemma_register_from_extends(ks, 1, ks.len() as int, h, s1);
            lemma_walk_from_extends(ps, ks, 1, ks.len() as int, h, s2);
            lemma_extends_trans(s.scopes, o.scopes, s1.scopes);
            lemma_extends_trans(s.scopes, s1.scopes, s2.scopes);
            lemma_extends_trans(s.scopes, s2.scopes, fin.scopes);
        }
    } else if t.sym@ == "MethodDecl"@ {
        let (m, s1) = method_scope(t, cur, s);
        lemma_open_extends(s, "method"@, cur);
        lemma_extends_refl(s.scopes);
        lemma_walk_from_extends(ps, ks, 0, ks.len() as int, m, s1);
        lemma_extends_trans(s.scopes, s1.scopes, fin.scopes);
    } else if var_kind(t) is Some {
        if ks.len() < 2 {
            lemma_walk_from_extends(ps, ks, 0, ks.len() as int, cur, s);
        } else {
            let s1 = declare_var(t, cur, var_kind(t)->0, s);
            let (name, line) = declarator_ident(ks[1]);
            lemma_declare_extends(s, cur, plain_entry(name, var_kind(t)->0, cur), line);
            lemma_walk_from_extends(ps, ks, 0, ks.len() as int, cur, s1);
            lemma_extends_trans(s.scopes, s1.scopes, fin.scopes);
        }
    } else {
        lemma_walk_from_extends(ps, ks, 0, ks.len() as int, cur, s);
    }
}

/// Walking a run of siblings only appends.
pub proof fn lemma_walk_from_extends(ps: Seq<char>, ks: Seq<Tree>, lo: int, hi: int, cur: usize, s: Env)
    ensures
        extends(s.scopes, walk_from(ps, ks, lo, hi, cur, s).scopes),
    decreases ks, hi - lo,
{
    if hi <= lo || hi > ks.len() || lo < 0 {
        lemma_extends_refl(s.scopes);
    } else {
        let mid = walk_from(ps, ks, lo, hi - 1, cur, s);
        lemma_walk_from_extends(ps, ks, lo, hi - 1, cur, s);
        lemma_walk_extends(ks[hi - 1], cur, mid);
        lemma_extends_refl(mid.scopes);
        lemma_extends_trans(s.scopes, mid.scopes, walk_from(ps, ks, lo, hi, cur, s).scopes);
    }
}


/// A name found in a scope is still found once entries are appended.
proof fn lemma_find_extends(x: ScopeView, y: ScopeView, name: Seq<char>)
    requires
        scope_extends(x, y),
        find_entry(x.entries, name) is Some,
    ensures
        find_entry(y.entries, name) is Some,
{
    lemma_find_entry_member(x.entries, name);
    lemma_find_entry_member(y.entries, name);
    let j = choose|j: int|
        0 <= j < x.entries.len() && x.entries[j] == find_entry(x.entries, name)->0
            && x.entries[j].name == name;
    assert(y.entries.subrange(0, x.entries.len() as int)[j] == y.entries[j]);
}

/// After a declaration the scope holds its name, whether it was added or
/// already there.
proof fn lemma_declared_found(s: Env, h: usize, e: EntryView, line: usize)
    requires
        h < s.scopes.len(),
    ensures
        find_entry(declare(s, h, e, line).scopes[h as int].entries, e.name) is Some,
{
}

/// Walking more siblings only appends.
proof fn lemma_walk_from_prefix(ps: Seq<char>, ks: Seq<Tree>, lo: int, m: int, hi: int, cur: usize, s: Env)
    requires
        0 <= lo <= m <= hi <= ks.len(),
    ensures
        extends(walk_from(ps, ks, lo, m, cur, s).scopes, walk_from(ps, ks, lo, hi, cur, s).scopes),
    decreases hi - m,
{
    if hi == m {
        lemma_extends_refl(walk_from(ps, ks, lo, m, cur, s).scopes);
    } else {
        lemma_walk_from_prefix(ps, ks, lo, m, hi - 1, cur, s);
        let prev = walk_from(ps, ks, lo, hi - 1, cur, s);
        lemma_walk_extends(ks[hi - 1], cur, prev);
        lemma_extends_refl(prev.scopes);
        lemma_extends_trans(walk_from(ps, ks, lo, m, cur, s).scopes, prev.scopes, walk_from(ps, ks, lo, hi, cur, s).scopes);
    }
}

/// Block transparency: a local variable declared in a block nested in
/// another block resolves, from the enclosing scope, in each later sibling
/// of the nested block; blocks open no scope, so the variable lands in the
/// enclosing method's scope.
pub proof fn lemma_block_local_visible_after(o: Tree, cur: usize, s: Env, i: int, j: int, k: int)
    requires
        o.sym@ == "Block"@,
        cur < s.scopes.len(),
        0 <= i < k <= o.kids@.len(),
        o.kids@[i].sym@ == "Block"@,
        0 <= j < o.kids@[i].kids@.len(),
        o.kids@[i].kids@[j].sym@ == "LocalVarDecl"@,
        o.kids@[i].kids@[j].kids@.len() >= 2,
    ensures
        resolve(
            walk_from(o.sym@, o.kids@, 0, k, cur, s).scopes,
            cur as int,
            declarator_ident(o.kids@[i].kids@[j].kids@[1]).0,
        ) is Some,
{
    lemma_production_names();
    let ps = o.sym@;
    let ks = o.kids@;
    let inner = ks[i];
    let iks = inner.kids@;
    let d = iks[j];
    let name = declarator_ident(d.kids@[1]).0;
    let ei = walk_from(ps, ks, 0, i, cur, s);
    lemma_walk_from_extends(ps, ks, 0, i, cur, s);
    assert(!skipped(ps, ks, i));
    assert(walk_from(ps, ks, 0, i + 1, cur, s) == walk(inner, cur, ei));
    let ui = use_checked(inner, cur, ei);
    assert(walk(inner, cur, ei) == walk_from(inner.sym@, iks, 0, iks.len() as int, cur, ui));
    let fj = walk_from(inner.sym@, iks, 0, j, cur, ui);
    lemma_walk_from_extends(inner.sym@, iks, 0, j, cur, ui);
    assert(!skipped(inner.sym@, iks, j));
    let ud = use_checked(d, cur, fj);
    let dv = declare_var(d, cur, SymbolKind::Local, ud);
    assert(walk_from(inner.sym@, iks, 0, j + 1, cur, ui) == walk(d, cur, fj));
    assert(walk(d, cur, fj) == walk_from(d.sym@, d.kids@, 0, d.kids@.len() as int, cur, dv));
    lemma_declared_found(ud, cur, plain_entry(name, SymbolKind::Local, cur), declarator_ident(d.kids@[1]).1);
    lemma_walk_from_extends(d.sym@, d.kids@, 0, d.kids@.len() as int, cur, dv);
    lemma_walk_from_prefix(inner.sym@, iks, 0, j + 1, iks.len() as int, cur, ui);
    lemma_walk_from_prefix(ps, ks, 0, i + 1, k, cur, s);
    let fin = walk_from(ps, ks, 0, k, cur, s);
    lemma_extends_trans(dv.scopes, walk(d, cur, fj).scopes, walk(inner, cur, ei).scopes);
    lemma_extends_trans(dv.scopes, walk(inner, cur, ei).scopes, fin.scopes);
    assert(scope_extends(dv.scopes[cur as int], fin.scopes[cur as int]));
    lemma_find_extends(dv.scopes[cur as int], fin.scopes[cur as int], name);
}


/// Every scope owned by an entry of scope `x` was created after `x` and is
/// enclosed by it.
pub open spec fn owns_inner(a: Seq<ScopeView>, x: int) -> bool {
    forall|j: int|
        0 <= j < a[x].entries.len() && (#[trigger] a[x].entries[j]).st is Some ==> {
            let m = a[x].entries[j].st->0;
            &&& x < m < a.len()
            &&& a[m as int].parent == Some(x as usize)
        }
}

proof fn lemma_open_owns(s: Env, label: Seq<char>, parent: usize, x: int)
    requires
        0 <= x < s.scopes.len(),
        owns_inner(s.scopes, x),
    ensures
        owns_inner(open_scope(s, label, parent).scopes, x),
{
    let a = s.scopes;
    let b = open_scope(s, label, parent).scopes;
    assert(b[x] == a[x]);
    assert forall|j: int| 0 <= j < b[x].entries.len() && (#[trigger] b[x].entries[j]).st is Some implies ({
        let m = b[x].entries[j].st->0;
        &&& x < m < b.len()
        &&& b[m as int].parent == Some(x as usize)
    }) by {
        assert(a[x].entries[j] == b[x].entries[j]);
        let m = a[x].entries[j].st->0;
        assert(b[m as int] == a[m as int]);
    }
}

proof fn lemma_declare_owns(s: Env, h: usize, e: EntryView, line: usize, x: int)
    requires
        0 <= x < s.scopes.len(),
        owns_inner(s.scopes, x),
        h == x && e.st is Some ==> x < e.st->0 < s.scopes.len() && s.scopes[e.st->0 as int].parent
            == Some(x as usize),
    ensures
        owns_inner(declare(s, h, e, line).scopes, x),
{
    let a = s.scopes;
    let b = declare(s, h, e, line).scopes;
    assert(b.len() == a.len());
    assert forall|i: int| 0 <= i < a.len() implies b[i].parent == a[i].parent by {}
    assert forall|j: int| 0 <= j < b[x].entries.len() && (#[trigger] b[x].entries[j]).st is Some implies ({
        let m = b[x].entries[j].st->0;
        &&& x < m < b.len()
        &&& b[m as int].parent == Some(x as usize)
    }) by {
        if j < a[x].entries.len() {
            assert(a[x].entries[j] == b[x].entries[j]);
        }
    }
}

proof fn lemma_register_from_owns(ks: Seq<Tree>, lo: int, hi: int, h: usize, s: Env, x: int)
    requires
        0 <= x < s.scopes.len(),
        owns_inner(s.scopes, x),
        register_from(ks, lo, hi, h, s).scopes.len() <= usize::MAX,
    ensures
        owns_inner(register_from(ks, lo, hi, h, s).scopes, x),
    decreases hi - lo,
{
    if hi > lo {
        let mid = register_from(ks, lo, hi - 1, h, s);
        lemma_register_from_extends(ks, hi - 1, hi, h, mid);
        assert(register_from(ks, hi - 1, hi - 1, h, mid) == mid);
        lemma_register_from_owns(ks, lo, hi - 1, h, s, x);
        lemma_register_from_extends(ks, lo, hi - 1, h, s);
        let k = ks[hi - 1];
        if k.sym@ == "FieldDecl"@ {
            if !(k.kids@.len() < 2 || k.kids@[1].tok is None) {
                let (name, line) = leaf_ident(k.kids@[1]);
                lemma_declare_owns(mid, h, plain_entry(name, SymbolKind::Field, h), line, x);
            }
        } else if k.sym@ == "MethodDecl"@ {
            let (name, line) = method_ident(k);
            let m = mid.scopes.len() as usize;
            let o = open_scope(mid, "method"@, h);
            lemma_open_owns(mid, "method"@, h, x);
            lemma_declare_owns(o, h, scoped_entry(name, SymbolKind::Method, h, m), line, x);
        }
    }
}

/// A walk keeps every scope owned by an entry of `x` enclosed by `x`.
proof fn lemma_walk_owns(t: Tree, cur: usize, s_in: Env, x: int)
    requires
        0 <= x < s_in.scopes.len(),
        owns_inner(s_in.scopes, x),
        walk(t, cur, s_in).scopes.len() <= usize::MAX,
    ensures
        owns_inner(walk(t, cur, s_in).scopes, x),
    decreases t, 1nat,
{
    let ks = t.kids@;
    let ps = t.sym@;
    let s = use_checked(t, cur, s_in);
    assert(s.scopes == s_in.scopes);
    if t.sym@ == "ClassDecl"@ {
        if ks.len() > 0 {
            let (name, line) = leaf_ident(ks[0]);
            let h = s.scopes.len() as usize;
            let o = open_scope(s, "class"@, cur);
            let e = scoped_entry(name, SymbolKind::Class, cur, h);
            let s1 = declare(o, cur, e, line);
            let s2 = register_from(ks, 1, ks.len() as int, h, s1);
            lemma_declare_extends(o, cur, e, line);
            lemma_register_from_extends(ks, 1, ks.len() as int, h, s1);
            lemma_walk_from_extends(ps, ks, 1, ks.len() as int, h, s2);
            lemma_open_owns(s, "class"@, cur, x);
            lemma_declare_owns(o, cur, e, line, x);
            lemma_register_from_owns(ks, 1, ks.len() as int, h, s1, x);
            lemma_walk_from_owns(ps, ks, 1, ks.len() as int, h, s2, x);
        }
    } else if t.sym@ == "MethodDecl"@ {
        let (m, s1) = method_scope(t, cur, s);
        lemma_walk_from_extends(ps, ks, 0, ks.len() as int, m, s1);
        lemma_open_owns(s, "method"@, cur, x);
        lemma_walk_from_owns(ps, ks, 0, ks.len() as int, m, s1, x);
    } else if var_kind(t) is Some {
        if ks.len() < 2 {
            lemma_walk_from_owns(ps, ks, 0, ks.len() as int, cur, s, x);
        } else {
            let s1 = declare_var(t, cur, var_kind(t)->0, s);
            let (name, line) = declarator_ident(ks[1]);
            lemma_declare_owns(s, cur, plain_entry(name, var_kind(t)->0, cur), line, x);
            lemma_declare_extends(s, cur, plain_entry(name, var_kind(t)->0, cur), line);
            lemma_walk_from_extends(ps, ks, 0, ks.len() as int, cur, s1);
            lemma_walk_from_owns(ps, ks, 0, ks.len() as int, cur, s1, x);
        }
    } else {
        lemma_walk_from_owns(ps, ks, 0, ks.len() as int, cur, s, x);
    }
}

proof fn lemma_walk_from_owns(ps: Seq<char>, ks: Seq<Tree>, lo: int, hi: int, cur: usize, s: Env, x: int)
    requires
        0 <= x < s.scopes.len(),
        owns_inner(s.scopes, x),
        walk_from(ps, ks, lo, hi, cur, s).scopes.len() <= usize::MAX,
    ensures
        owns_inner(walk_from(ps, ks, lo, hi, cur, s).scopes, x),
    decreases ks, hi - lo,
{
    if !(hi <= lo || hi > ks.len() || lo < 0) {
        let mid = walk_from(ps, ks, lo, hi - 1, cur, s);
        lemma_walk_extends(ks[hi - 1], cur, mid);
        lemma_walk_from_owns(ps, ks, lo, hi - 1, cur, s, x);
        lemma_walk_from_extends(ps, ks, lo, hi - 1, cur, s);
        if !skipped(ps, ks, hi - 1) {
            lemma_walk_owns(ks[hi - 1], cur, mid, x);
        }
    }
}

/// The name a member of a class declares in the first pass: a field's
/// second child when it is a leaf, a method's name.
pub open spec fn member_name(k: Tree) -> Option<Seq<char>> {
    if k.sym@ == "FieldDecl"@ {
        if k.kids@.len() < 2 || k.kids@[1].tok is None {
            None
        } else {
            Some(leaf_ident(k.kids@[1]).0)
        }
    } else if k.sym@ == "MethodDecl"@ {
        Some(method_ident(k).0)
    } else {
        None
    }
}

/// After the first pass over `ks[lo..hi]`, class scope `h` holds the name
/// of every member in that range.
proof fn lemma_registered(ks: Seq<Tree>, lo: int, hi: int, h: usize, s: Env, j: int)
    requires
        0 <= lo <= j < hi <= ks.len(),
        h < s.scopes.len(),
        member_name(ks[j]) is Some,
    ensures
        find_entry(register_from(ks, lo, hi, h, s).scopes[h as int].entries, member_name(ks[j])->0) is Some,
    decreases hi - lo,
{
    let mid = register_from(ks, lo, hi - 1, h, s);
    lemma_register_from_extends(ks, lo, hi - 1, h, s);
    let k = ks[hi - 1];
    if j == hi - 1 {
        if k.sym@ == "FieldDecl"@ {
            let (name, line) = leaf_ident(k.kids@[1]);
            lemma_declared_found(mid, h, plain_entry(name, SymbolKind::Field, h), line);
        } else {
            let (name, line) = method_ident(k);
            let m = mid.scopes.len() as usize;
            let o = open_scope(mid, "method"@, h);
            lemma_declared_found(o, h, scoped_entry(name, SymbolKind::Method, h, m), line);
        }
    } else {
        lemma_registered(ks, lo, hi - 1, h, s, j);
        lemma_register_from_extends(ks, hi - 1, hi, h, mid);
        assert(register_from(ks, hi - 1, hi - 1, h, mid) == mid);
        let fin = register_from(ks, lo, hi, h, s);
        assert(scope_extends(mid.scopes[h as int], fin.scopes[h as int]));
        lemma_find_extends(mid.scopes[h as int], fin.scopes[h as int], member_name(ks[j])->0);
    }
}

/// The scope in which the second pass walks the body of member `i` of class
/// node `o`, and the state it starts from.
pub open spec fn member_body_start(o: Tree, cur: usize, s: Env, i: int) -> (usize, Env) {
    let (h, s2) = class_setup(o, cur, use_checked(o, cur, s));
    let ei = walk_from(o.sym@, o.kids@, 1, i, h, s2);
    method_scope(o.kids@[i], h, use_checked(o.kids@[i], h, ei))
}

/// A name that resolves from a scope still resolves once entries and
/// scopes are appended.
proof fn lemma_resolve_extends(a: Seq<ScopeView>, b: Seq<ScopeView>, h: int, name: Seq<char>)
    requires
        extends(a, b),
        resolve(a, h, name) is Some,
    ensures
        resolve(b, h, name) is Some,
    decreases h,
{
    assert(scope_extends(a[h], b[h]));
    if find_entry(a[h].entries, name) is Some {
        lemma_find_extends(a[h], b[h], name);
    } else if find_entry(b[h].entries, name) is None {
        let p = a[h].parent->0;
        lemma_resolve_extends(a, b, p as int, name);
    }
}

/// Forward references: when the body of any method of a class is walked,
/// the name of every field and method of that class resolves from the
/// method's scope, whether declared before or after the method, and it
/// still does once the whole class has been walked.
pub proof fn lemma_forward_reference(o: Tree, cur: usize, s: Env, i: int, j: int)
    requires
        o.sym@ == "ClassDecl"@,
        cur < s.scopes.len(),
        1 <= i < o.kids@.len(),
        1 <= j < o.kids@.len(),
        o.kids@[i].sym@ == "MethodDecl"@,
        member_name(o.kids@[j]) is Some,
        walk(o, cur, s).scopes.len() <= usize::MAX,
    ensures
        resolve(
            member_body_start(o, cur, s, i).1.scopes,
            member_body_start(o, cur, s, i).0 as int,
            member_name(o.kids@[j])->0,
        ) is Some,
        resolve(
            walk(o, cur, s).scopes,
            member_body_start(o, cur, s, i).0 as int,
            member_name(o.kids@[j])->0,
        ) is Some,
{
    let ks = o.kids@;
    let ps = o.sym@;
    let s_in = s;
    let s = use_checked(o, cur, s_in);
    assert(s.scopes == s_in.scopes);
    let name = member_name(ks[j])->0;
    let (cname, line) = leaf_ident(ks[0]);
    let h = s.scopes.len() as usize;
    let o1 = open_scope(s, "class"@, cur);
    let e = scoped_entry(cname, SymbolKind::Class, cur, h);
    let s1 = declare(o1, cur, e, line);
    let s2 = register_from(ks, 1, ks.len() as int, h, s1);
    assert(class_setup(o, cur, s) == (h, s2));
    assert(walk(o, cur, s_in) == walk_from(ps, ks, 1, ks.len() as int, h, s2));
    lemma_open_extends(s, "class"@, cur);
    lemma_declare_extends(o1, cur, e, line);
    lemma_register_from_extends(ks, 1, ks.len() as int, h, s1);
    lemma_walk_from_extends(ps, ks, 1, ks.len() as int, h, s2);
    lemma_walk_from_prefix(ps, ks, 1, i, ks.len() as int, h, s2);
    // The first pass declares the member's name in the class scope, which
    // owns only scopes it encloses.
    assert(owns_inner(o1.scopes, h as int));
    lemma_declare_owns(o1, cur, e, line, h as int);
    lemma_register_from_owns(ks, 1, ks.len() as int, h, s1, h as int);
    lemma_registered(ks, 1, ks.len() as int, h, s1, j);
    // The second pass only appends before member `i` is reached.
    let ew = walk_from(ps, ks, 1, i, h, s2);
    lemma_walk_from_extends(ps, ks, 1, i, h, s2);
    lemma_walk_from_owns(ps, ks, 1, i, h, s2, h as int);
    let ei = use_checked(ks[i], h, ew);
    assert(ei.scopes == ew.scopes);
    assert(scope_extends(s2.scopes[h as int], ei.scopes[h as int]));
    lemma_find_extends(s2.scopes[h as int], ei.scopes[h as int], name);
    let (m, sb) = method_scope(ks[i], h, ei);
    let es = ei.scopes[h as int].entries;
    let mname = method_ident(ks[i]).0;
    lemma_find_entry_member(es, mname);
    if find_entry(es, mname) is Some && find_entry(es, mname)->0.st is Some {
        let k = choose|k: int| 0 <= k < es.len() && es[k] == find_entry(es, mname)->0 && es[k].name == mname;
        assert(es[k].st is Some);
        assert(h < m < ei.scopes.len() && ei.scopes[m as int].parent == Some(h));
        assert(sb == ei);
    } else {
        assert(sb == open_scope(ei, "method"@, h));
        assert(sb.scopes[m as int].entries.len() == 0);
        assert(sb.scopes[h as int] == ei.scopes[h as int]);
    }
    assert(resolve(sb.scopes, h as int, name) is Some);
    assert(resolve(sb.scopes, m as int, name) is Some);
    // The rest of the class walk only appends.
    lemma_production_names();
    let mi = ks[i];
    assert(!skipped(ps, ks, i));
    assert(walk_from(ps, ks, 1, i + 1, h, s2) == walk(mi, h, ew));
    assert(walk(mi, h, ew) == walk_from(mi.sym@, mi.kids@, 0, mi.kids@.len() as int, m, sb));
    lemma_walk_from_extends(mi.sym@, mi.kids@, 0, mi.kids@.len() as int, m, sb);
    lemma_walk_from_prefix(ps, ks, 1, i + 1, ks.len() as int, h, s2);
    lemma_extends_trans(sb.scopes, walk(mi, h, ew).scopes, walk(o, cur, s_in).scopes);
    lemma_resolve_extends(sb.scopes, walk(o, cur, s_in).scopes, m as int, name);
}


/// Scope `t` after inserting `es` in order, as `SymTab::insert` does: each
/// entry is appended unless its name is already there.
pub open spec fn insert_all(t: ScopeView, es: Seq<EntryView>) -> ScopeView
    decreases es.len(),
{
    if es.len() == 0 {
        t
    } else {
        let p = insert_all(t, es.drop_last());
        if find_entry(p.entries, es.last().name) is None {
            ScopeView { label: p.label, parent: p.parent, entries: p.entries.push(es.last()) }
        } else {
            p
        }
    }
}

/// The positions in `es` of the insertions into `t` that succeeded.
pub open spec fn accepted(t: ScopeView, es: Seq<EntryView>) -> Seq<int>
    decreases es.len(),
{
    if es.len() == 0 {
        Seq::empty()
    } else {
        let p = insert_all(t, es.drop_last());
        let a = accepted(t, es.drop_last());
        if find_entry(p.entries, es.last().name) is None {
            a.push(es.len() - 1)
        } else {
            a
        }
    }
}

/// Ordering: after any sequence of insertions (lookups change no table),
/// the scope's entries are its earlier entries followed by exactly the
/// insertions that succeeded, in the order they were made; an insertion
/// succeeds exactly when its name is not yet in the scope.
pub proof fn lemma_enumeration_order(t: ScopeView, es: Seq<EntryView>)
    ensures
        insert_all(t, es).label == t.label,
        insert_all(t, es).parent == t.parent,
        insert_all(t, es).entries.len() == t.entries.len() + accepted(t, es).len(),
        insert_all(t, es).entries.subrange(0, t.entries.len() as int) == t.entries,
        forall|k: int|
            0 <= k < accepted(t, es).len() ==> 0 <= #[trigger] accepted(t, es)[k] < es.len()
                && insert_all(t, es).entries[t.entries.len() + k] == es[accepted(t, es)[k]],
        forall|k1: int, k2: int|
            0 <= k1 < k2 < accepted(t, es).len() ==> accepted(t, es)[k1] < accepted(t, es)[k2],
        forall|i: int|
            0 <= i < es.len() ==> (accepted(t, es).contains(i) <==> find_entry(
                insert_all(t, es.subrange(0, i)).entries,
                es[i].name,
            ) is None),
    decreases es.len(),
{
    if es.len() == 0 {
        assert(t.entries.subrange(0, t.entries.len() as int) =~= t.entries);
    } else {
        let d = es.drop_last();
        lemma_enumeration_order(t, d);
        let p = insert_all(t, d);
        let a = accepted(t, d);
        let r = insert_all(t, es);
        let n = t.entries.len() as int;
        assert(es.subrange(0, es.len() - 1) =~= d);
        if find_entry(p.entries, es.last().name) is None {
            assert(r.entries.subrange(0, n) =~= p.entries.subrange(0, n));
            assert forall|k: int| 0 <= k < a.len() + 1 implies 0 <= #[trigger] accepted(t, es)[k] < es.len()
                && r.entries[n + k] == es[accepted(t, es)[k]] by {
                if k < a.len() {
                    assert(accepted(t, es)[k] == a[k]);
                    assert(d[a[k]] == es[a[k]]);
                }
            }
        } else {
            assert(accepted(t, es) == a);
            assert forall|k: int| 0 <= k < a.len() implies 0 <= #[trigger] accepted(t, es)[k] < es.len()
                && r.entries[n + k] == es[accepted(t, es)[k]] by {
                assert(d[a[k]] == es[a[k]]);
            }
        }
        assert forall|i: int| 0 <= i < es.len() implies (accepted(t, es).contains(i) <==> find_entry(
            insert_all(t, es.subrange(0, i)).entries,
            es[i].name,
        ) is None) by {
            if i < es.len() - 1 {
                assert(es.subrange(0, i) =~= d.subrange(0, i));
                assert(es[i] == d[i]);
                if accepted(t, es).contains(i) && !a.contains(i) {
                    let k = choose|k: int| 0 <= k < accepted(t, es).len() && accepted(t, es)[k] == i;
                    assert(k == a.len());
                }
                if a.contains(i) {
                    let k = choose|k: int| 0 <= k < a.len() && a[k] == i;
                    assert(accepted(t, es)[k] == i);
                }
            } else {
                if a.contains(i) {
                    let k = choose|k: int| 0 <= k < a.len() && a[k] == i;
                    assert(a[k] < d.len());
                }
                if find_entry(p.entries, es.last().name) is None {
                    assert(accepted(t, es)[a.len() as int] == i);
                }
            }
        }
    }
}

} // verus!
