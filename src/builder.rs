//! The scope builder: walks a syntax tree, builds one scope per class and
//! method, attaches a scope to every node, computes every node's constant
//! attribute, and records redeclarations and uses of undeclared names.
//!
//! A use of a name is an identifier leaf in expression position. Declared
//! names, type names and the member after a `.` are only given a scope.
//!
//! A class is handled in two passes over its members: the first declares
//! every field and method (allocating each method's scope), the second walks
//! the members' contents. Names declared later in a class are therefore
//! visible in every method body of that class. Blocks open no scope.
use vstd::prelude::*;

use crate::error::{errors_view, ErrorView, SemanticError};
use crate::symtab::{
    add_entry, add_scope, arena_wf, resolve, entry_ok, find_entry, lemma_find_entry_member, EntryView,
    scope_ok, ScopeArena, ScopeView, SymTab, SymTabEntry, SymbolKind,
};
use crate::tree::Tree;

verus! {

/// The state the builder threads through a walk: the scopes and the errors
/// so far.
pub struct Env {
    pub scopes: Seq<ScopeView>,
    pub errors: Seq<ErrorView>,
}


/// The state of an arena and an error list.
pub open spec fn env_of(arena: ScopeArena, errors: Vec<SemanticError>) -> Env {
    Env { scopes: arena@, errors: errors_view(errors@) }
}

/// Declares `e` in scope `h`, or records a redeclaration of its name at
/// `line` when `h` already holds that name.
pub open spec fn declare(s: Env, h: usize, e: EntryView, line: usize) -> Env {
    if find_entry(s.scopes[h as int].entries, e.name) is Some {
        Env {
            scopes: s.scopes,
            errors: s.errors.push(ErrorView::Redeclared { name: e.name, lineno: line }),
        }
    } else {
        Env { scopes: add_entry(s.scopes, h as int, e), errors: s.errors }
    }
}

/// Allocates an empty scope labelled `label`, enclosed by `parent`; its
/// handle is `s.scopes.len()`.
pub open spec fn open_scope(s: Env, label: Seq<char>, parent: usize) -> Env {
    Env { scopes: add_scope(s.scopes, label, Some(parent)), errors: s.errors }
}

/// An entry that owns no scope and is not constant.
pub open spec fn plain_entry(name: Seq<char>, kind: SymbolKind, parent: usize) -> EntryView {
    EntryView { name, kind, parent_st: parent, st: None, is_const: false }
}

/// An entry that owns scope `child` and is not constant.
pub open spec fn scoped_entry(name: Seq<char>, kind: SymbolKind, parent: usize, child: usize) -> EntryView {
    EntryView { name, kind, parent_st: parent, st: Some(child), is_const: false }
}

/// The text and line of a leaf; empty and 0 for an internal node.
pub open spec fn leaf_ident(t: Tree) -> (Seq<char>, usize) {
    match t.tok {
        Some(tk) => (tk.text@, tk.lineno),
        None => (Seq::empty(), 0),
    }
}

/// The name declared by a declarator: the leaf reached by following first
/// children (`argv[]` nests the identifier one level down).
pub open spec fn declarator_ident(t: Tree) -> (Seq<char>, usize)
    decreases t,
{
    match t.tok {
        Some(tk) => (tk.text@, tk.lineno),
        None => if t.kids@.len() > 0 {
            declarator_ident(t.kids@[0])
        } else {
            (Seq::empty(), 0)
        },
    }
}

/// The first `MethodDeclarator` node of `t` in pre-order.
pub open spec fn find_declarator(t: Tree) -> Option<Tree>
    decreases t, 1nat,
{
    if t.sym@ == "MethodDeclarator"@ {
        Some(t)
    } else {
        find_declarator_in(t.kids@, 0)
    }
}

/// The first `MethodDeclarator` among `ks[i..]`, in pre-order.
pub open spec fn find_declarator_in(ks: Seq<Tree>, i: int) -> Option<Tree>
    decreases ks, ks.len() - i,
{
    if 0 <= i < ks.len() {
        match find_declarator(ks[i]) {
            Some(m) => Some(m),
            None => find_declarator_in(ks, i + 1),
        }
    } else {
        None
    }
}

/// A method's name and line: the leaf that is the first child of its
/// declarator; empty and 0 when there is none.
pub open spec fn method_ident(t: Tree) -> (Seq<char>, usize) {
    match find_declarator(t) {
        Some(md) => if md.kids@.len() > 0 {
            leaf_ident(md.kids@[0])
        } else {
            (Seq::empty(), 0)
        },
        None => (Seq::empty(), 0),
    }
}

/// First pass, a field: declared in class scope `h` under the leaf that is
/// its second child.
pub open spec fn field_registered(k: Tree, h: usize, s: Env) -> Env {
    if k.kids@.len() < 2 || k.kids@[1].tok is None {
        s
    } else {
        let (name, line) = leaf_ident(k.kids@[1]);
        declare(s, h, plain_entry(name, SymbolKind::Field, h), line)
    }
}

/// First pass, a method: a new scope enclosed by `h`, and the method
/// declared in `h` as its owner.
pub open spec fn method_registered(k: Tree, h: usize, s: Env) -> Env {
    let (name, line) = method_ident(k);
    let m = s.scopes.len() as usize;
    declare(open_scope(s, "method"@, h), h, scoped_entry(name, SymbolKind::Method, h, m), line)
}

/// First pass, one member of class scope `h`.
pub open spec fn register_member(k: Tree, h: usize, s: Env) -> Env {
    if k.sym@ == "FieldDecl"@ {
        field_registered(k, h, s)
    } else if k.sym@ == "MethodDecl"@ {
        method_registered(k, h, s)
    } else {
        s
    }
}

/// First pass over the members `ks[lo..hi]`.
pub open spec fn register_from(ks: Seq<Tree>, lo: int, hi: int, h: usize, s: Env) -> Env
    decreases hi - lo,
{
    if hi <= lo {
        s
    } else {
        register_member(ks[hi - 1], h, register_from(ks, lo, hi - 1, h, s))
    }
}

/// The scope of a class node and the state once the class is declared in
/// `cur` and its members are registered.
pub open spec fn class_setup(t: Tree, cur: usize, s: Env) -> (usize, Env) {
    let (name, line) = leaf_ident(t.kids@[0]);
    let h = s.scopes.len() as usize;
    let s1 = declare(open_scope(s, "class"@, cur), cur, scoped_entry(name, SymbolKind::Class, cur, h), line);
    (h, register_from(t.kids@, 1, t.kids@.len() as int, h, s1))
}

/// The scope of a method node: the one its entry in class scope `cs` owns,
/// else a new one.
pub open spec fn method_scope(t: Tree, cs: usize, s: Env) -> (usize, Env) {
    match find_entry(s.scopes[cs as int].entries, method_ident(t).0) {
        Some(e) => match e.st {
            Some(m) => (m, s),
            None => (s.scopes.len() as usize, open_scope(s, "method"@, cs)),
        },
        None => (s.scopes.len() as usize, open_scope(s, "method"@, cs)),
    }
}

/// Declares the variable of a local declaration or parameter node (named by
/// its second child) in `cur`.
pub open spec fn declare_var(t: Tree, cur: usize, kind: SymbolKind, s: Env) -> Env {
    let (name, line) = declarator_ident(t.kids@[1]);
    declare(s, cur, plain_entry(name, kind, cur), line)
}

/// The kind a local declaration or parameter node declares.
pub open spec fn var_kind(t: Tree) -> Option<SymbolKind> {
    if t.sym@ == "LocalVarDecl"@ {
        Some(SymbolKind::Local)
    } else if t.sym@ == "FormalParm"@ {
        Some(SymbolKind::Param)
    } else {
        None
    }
}

/// Whether `t` is an identifier leaf.
pub open spec fn is_ident(t: Tree) -> bool {
    t.tok is Some && t.tok->0.category@ == "IDENTIFIER"@
}

/// A use of a name: an identifier leaf visited by the walk records an
/// undeclared name when no scope from `cur` outward declares it.
pub open spec fn use_checked(t: Tree, cur: usize, s: Env) -> Env {
    if is_ident(t) && resolve(s.scopes, cur as int, t.tok->0.text@) is None {
        Env {
            scopes: s.scopes,
            errors: s.errors.push(
                ErrorView::Undeclared { name: t.tok->0.text@, lineno: t.tok->0.lineno },
            ),
        }
    } else {
        s
    }
}

/// Whether child `j` (of `ks`) of a node of production `ps` holds no use of
/// a name, and is only given a scope: a class's or a method's name, the
/// type and name of a field, local or parameter, the parts of a method
/// header other than its declarator, the member after a `.`.
pub open spec fn skipped(ps: Seq<char>, ks: Seq<Tree>, j: int) -> bool {
    ||| (ps == "ClassDecl"@ || ps == "MethodDeclarator"@) && j == 0
    ||| ps == "MethodHeader"@ && ks[j].sym@ != "MethodDeclarator"@
    ||| ps == "FormalParm"@
    ||| (ps == "LocalVarDecl"@ || ps == "FieldDecl"@) && ks.len() >= 2 && j < 2
    ||| ps == "FieldAccess"@ && j >= 1
}

/// The categories of literal leaves.
pub open spec fn literal_category(c: Seq<char>) -> bool {
    c == "INTLIT"@ || c == "DOUBLELIT"@ || c == "STRINGLIT"@ || c == "BOOLLIT"@
}

/// An operand child: an internal node, an identifier or a literal (not an
/// operator, keyword or punctuation leaf).
pub open spec fn is_operand(k: Tree) -> bool {
    k.tok is None || is_ident(k) || literal_category(k.tok->0.category@)
}

/// The constant attribute of `n`, from its token and its children's
/// attributes: a leaf is constant when it is a literal; an internal node
/// when it has an operand child and every operand child is constant.
pub open spec fn const_value(n: Tree) -> bool {
    match n.tok {
        Some(tk) => literal_category(tk.category@),
        None => {
            &&& exists|j: int| 0 <= j < n.kids@.len() && is_operand(#[trigger] n.kids@[j])
            &&& forall|j: int|
                0 <= j < n.kids@.len() && is_operand(#[trigger] n.kids@[j]) ==> n.kids@[j].is_const
                    == Some(true)
        },
    }
}

/// The state after walking `t` in scope `cur` from state `s`.
pub open spec fn walk(t: Tree, cur: usize, s: Env) -> Env
    decreases t, 1nat,
{
    let ks = t.kids@;
    let s0 = use_checked(t, cur, s);
    if t.sym@ == "ClassDecl"@ {
        if ks.len() == 0 {
            s0
        } else {
            let (h, s2) = class_setup(t, cur, s0);
            walk_from(t.sym@, ks, 1, ks.len() as int, h, s2)
        }
    } else if t.sym@ == "MethodDecl"@ {
        let (m, s1) = method_scope(t, cur, s0);
        walk_from(t.sym@, ks, 0, ks.len() as int, m, s1)
    } else if var_kind(t) is Some {
        if ks.len() < 2 {
            walk_from(t.sym@, ks, 0, ks.len() as int, cur, s0)
        } else {
            walk_from(t.sym@, ks, 0, ks.len() as int, cur, declare_var(t, cur, var_kind(t)->0, s0))
        }
    } else {
        walk_from(t.sym@, ks, 0, ks.len() as int, cur, s0)
    }
}

/// The state after walking the children `ks[lo..hi]` of a node of
/// production `ps` in order, each in scope `cur`; skipped children change
/// nothing.
pub open spec fn walk_from(ps: Seq<char>, ks: Seq<Tree>, lo: int, hi: int, cur: usize, s: Env) -> Env
    decreases ks, hi - lo,
{
    if hi <= lo || hi > ks.len() || lo < 0 {
        s
    } else if skipped(ps, ks, hi - 1) {
        walk_from(ps, ks, lo, hi - 1, cur, s)
    } else {
        walk(ks[hi - 1], cur, walk_from(ps, ks, lo, hi - 1, cur, s))
    }
}

/// `n` is `o` with attributes set: every field but `stab`, `is_const` and
/// `kids` is kept, and so is the number of children.
pub open spec fn same_node(o: Tree, n: Tree) -> bool {
    &&& n.id == o.id
    &&& n.sym == o.sym
    &&& n.rule == o.rule
    &&& n.nkids == o.nkids
    &&& n.tok == o.tok
    &&& n.kids@.len() == o.kids@.len()
}

/// `n` is `o` with scope `c` attached to every node and the constant
/// attribute computed on every node.
pub open spec fn attached(o: Tree, n: Tree, c: usize) -> bool
    decreases o, 1nat,
{
    &&& same_node(o, n)
    &&& n.stab == Some(c)
    &&& n.is_const == Some(const_value(n))
    &&& all_attached(o.kids@, n.kids@, c)
}

/// Each of `ks` became the same element of `ns` with scope `c` attached.
pub open spec fn all_attached(ks: Seq<Tree>, ns: Seq<Tree>, c: usize) -> bool
    decreases ks, 0nat,
{
    &&& ns.len() == ks.len()
    &&& forall|j: int| 0 <= j < ks.len() ==> attached(ks[j], #[trigger] ns[j], c)
}

/// Children `ks[lo..]` of a node of production `ps` were walked in order in
/// scope `cur` from state `s` and became `ns[lo..]`; skipped children were
/// given scope `cur` only.
pub open spec fn kids_walked(
    ps: Seq<char>,
    ks: Seq<Tree>,
    ns: Seq<Tree>,
    lo: int,
    cur: usize,
    s: Env,
) -> bool
    decreases ks, 0nat,
{
    &&& ns.len() == ks.len()
    &&& forall|j: int|
        0 <= j && lo <= j < ks.len() ==> if skipped(ps, ks, j) {
            attached(ks[j], #[trigger] ns[j], cur)
        } else {
            annotated(ks[j], ns[j], cur, walk_from(ps, ks, lo, j, cur, s))
        }
}

/// `n` is `o` after a walk in scope `cur` from state `s`: the same tree with
/// a scope attached to every node and the constant attribute computed on
/// every node. A class node gets its own scope and its name leaf the
/// enclosing one; a method node gets its method's scope; every other node
/// gets the scope it is walked in.
pub open spec fn annotated(o: Tree, n: Tree, cur: usize, s: Env) -> bool
    decreases o, 1nat,
{
    let ks = o.kids@;
    let s0 = use_checked(o, cur, s);
    &&& same_node(o, n)
    &&& n.is_const == Some(const_value(n))
    &&& if o.sym@ == "ClassDecl"@ {
        if ks.len() == 0 {
            n.stab == Some(cur)
        } else {
            let (h, s2) = class_setup(o, cur, s0);
            &&& n.stab == Some(h)
            &&& attached(ks[0], n.kids@[0], cur)
            &&& kids_walked(o.sym@, ks, n.kids@, 1, h, s2)
        }
    } else if o.sym@ == "MethodDecl"@ {
        let (m, s1) = method_scope(o, cur, s0);
        n.stab == Some(m) && kids_walked(o.sym@, ks, n.kids@, 0, m, s1)
    } else if var_kind(o) is Some {
        n.stab == Some(cur) && kids_walked(
            o.sym@,
            ks,
            n.kids@,
            0,
            cur,
            if ks.len() < 2 {
                s0
            } else {
                declare_var(o, cur, var_kind(o)->0, s0)
            },
        )
    } else {
        n.stab == Some(cur) && kids_walked(o.sym@, ks, n.kids@, 0, cur, s0)
    }
}

/// `n` is `o` with children `lo..` walked in scope `cur` from state `s`,
/// which led to state `e`; the children before `lo` are unchanged.
pub open spec fn walked_in(o: Tree, n: Tree, lo: int, cur: usize, s: Env, e: Env) -> bool {
    &&& same_node(o, n)
    &&& forall|j: int| 0 <= j < lo && j < o.kids@.len() ==> n.kids@[j] == o.kids@[j]
    &&& kids_walked(o.sym@, o.kids@, n.kids@, lo, cur, s)
    &&& e == walk_from(o.sym@, o.kids@, lo, o.kids@.len() as int, cur, s)
}

/// State `t` has at least as many scopes as state `s`.
pub open spec fn grows(s: Env, t: Env) -> bool {
    s.scopes.len() <= t.scopes.len()
}

/// A child's children are smaller than its siblings' sequence.
proof fn lemma_kid_smaller(ks: Seq<Tree>, i: int)
    requires
        0 <= i < ks.len(),
    ensures
        decreases_to!(ks => ks[i].kids@),
{
    assert(decreases_to!(ks => ks[i]));
    assert(decreases_to!(ks[i] => ks[i].kids));
    assert(decreases_to!(ks[i].kids => ks[i].kids@));
}

/// The production names the builder dispatches on are distinct.
pub proof fn lemma_production_names()
    ensures
        "MethodDecl"@ != "ClassDecl"@,
        "ClassDecl"@ != "MethodDeclarator"@,
        "ClassDecl"@ != "MethodHeader"@,
        "ClassDecl"@ != "FormalParm"@,
        "ClassDecl"@ != "LocalVarDecl"@,
        "ClassDecl"@ != "FieldDecl"@,
        "ClassDecl"@ != "FieldAccess"@,
        "FieldDecl"@ != "ClassDecl"@,
        "FieldDecl"@ != "MethodDecl"@,
        "FieldDecl"@ != "LocalVarDecl"@,
        "FieldDecl"@ != "FormalParm"@,
        "LocalVarDecl"@ != "ClassDecl"@,
        "LocalVarDecl"@ != "MethodDecl"@,
        "FormalParm"@ != "ClassDecl"@,
        "FormalParm"@ != "MethodDecl"@,
        "Block"@ != "ClassDecl"@,
        "Block"@ != "MethodDecl"@,
        "Block"@ != "LocalVarDecl"@,
        "Block"@ != "FormalParm"@,
        "Block"@ != "MethodDeclarator"@,
        "Block"@ != "MethodHeader"@,
        "Block"@ != "FieldDecl"@,
        "Block"@ != "FieldAccess"@,
{
    reveal_strlit("ClassDecl");
    reveal_strlit("MethodDecl");
    reveal_strlit("FieldDecl");
    reveal_strlit("LocalVarDecl");
    reveal_strlit("FormalParm");
    reveal_strlit("Block");
    assert("MethodDecl"@[0] != "ClassDecl"@[0]);
    assert("FieldDecl"@[0] != "ClassDecl"@[0]);
    assert("FieldDecl"@[0] != "MethodDecl"@[0]);
    assert("FieldDecl"@[0] != "LocalVarDecl"@[0]);
    assert("FieldDecl"@[1] != "FormalParm"@[1]);
    assert("LocalVarDecl"@[0] != "ClassDecl"@[0]);
    assert("LocalVarDecl"@[0] != "MethodDecl"@[0]);
    assert("FormalParm"@[0] != "ClassDecl"@[0]);
    assert("FormalParm"@[0] != "MethodDecl"@[0]);
    assert("Block"@[0] != "ClassDecl"@[0]);
    assert("Block"@[0] != "MethodDecl"@[0]);
    assert("Block"@[0] != "LocalVarDecl"@[0]);
    assert("Block"@[0] != "FormalParm"@[0]);
    reveal_strlit("MethodDeclarator");
    reveal_strlit("MethodHeader");
    reveal_strlit("FieldAccess");
    assert("ClassDecl"@[0] != "MethodDeclarator"@[0]);
    assert("ClassDecl"@[0] != "MethodHeader"@[0]);
    assert("ClassDecl"@[0] != "FormalParm"@[0]);
    assert("ClassDecl"@[0] != "LocalVarDecl"@[0]);
    assert("ClassDecl"@[0] != "FieldDecl"@[0]);
    assert("ClassDecl"@[0] != "FieldAccess"@[0]);
    assert("Block"@[0] != "MethodDeclarator"@[0]);
    assert("Block"@[0] != "MethodHeader"@[0]);
    assert("Block"@[0] != "FieldDecl"@[0]);
    assert("Block"@[0] != "FieldAccess"@[0]);
}

/// Whether `s` reads `lit`.
fn text_is(s: &String, lit: &str) -> (r: bool)
    ensures
        r == (s@ == lit@),
{
    let l = lit.to_owned();
    *s == l
}

/// Declares `entry` in scope `h`, recording a redeclaration at `lineno`
/// when the name is already there.
fn declare_entry(
    arena: &mut ScopeArena,
    errors: &mut Vec<SemanticError>,
    h: usize,
    entry: SymTabEntry,
    lineno: usize,
)
    requires
        arena_wf(old(arena)@),
        h < old(arena)@.len(),
        entry_ok(entry@, old(arena)@.len() as int),
    ensures
        arena_wf(final(arena)@),
        env_of(*final(arena), *final(errors)) == declare(
            env_of(*old(arena), *old(errors)),
            h,
            entry@,
            lineno,
        ),
{
    let ghost ev = entry@;
    let name = entry.sym.clone();
    match arena.insert(h, entry) {
        Ok(()) => {},
        Err(_) => {
            errors.push(SemanticError::RedeclaredVariable { name, lineno });
            proof {
                assert(errors_view(errors@) =~= errors_view(old(errors)@).push(
                    ErrorView::Redeclared { name: ev.name, lineno },
                ));
            }
        },
    }
}

/// Allocates an empty scope labelled `label` inside `parent`.
fn open_new_scope(arena: &mut ScopeArena, label: &str, parent: usize) -> (h: usize)
    requires
        arena_wf(old(arena)@),
        parent < old(arena)@.len(),
    ensures
        arena_wf(final(arena)@),
        h == old(arena)@.len(),
        final(arena)@ == add_scope(old(arena)@, label@, Some(parent)),
{
    SymTab::new(label, Some(parent)).into_rc(arena)
}

/// Whether `t` is an identifier leaf.
fn is_identifier(t: &Tree) -> (r: bool)
    ensures
        r == is_ident(*t),
{
    match &t.tok {
        Some(tk) => text_is(&tk.category, "IDENTIFIER"),
        None => false,
    }
}

/// Records an undeclared name when `t` is an identifier leaf that no scope
/// from `cur` outward declares.
fn check_use(t: &Tree, cur: usize, arena: &ScopeArena, errors: &mut Vec<SemanticError>)
    requires
        arena_wf(arena@),
    ensures
        env_of(*arena, *final(errors)) == use_checked(*t, cur, env_of(*arena, *old(errors))),
{
    if is_identifier(t) {
        if let Some(tk) = &t.tok {
            if arena.lookup(cur, tk.text.as_str()).is_none() {
                let ghost before = errors_view(errors@);
                errors.push(SemanticError::UndeclaredVariable { name: tk.text.clone(), lineno: tk.lineno });
                proof {
                    assert(errors_view(errors@) =~= before.push(
                        ErrorView::Undeclared { name: tk.text@, lineno: tk.lineno },
                    ));
                }
            }
        }
    }
}

/// Whether child `j` of a node of production `ps` with children `kids` is
/// only given a scope.
fn is_skipped(ps: &String, kids: &Vec<Tree>, j: usize) -> (r: bool)
    requires
        j < kids@.len(),
    ensures
        r == skipped(ps@, kids@, j as int),
{
    ((text_is(ps, "ClassDecl") || text_is(ps, "MethodDeclarator")) && j == 0)
        || (text_is(ps, "MethodHeader") && !text_is(&kids[j].sym, "MethodDeclarator"))
        || text_is(ps, "FormalParm")
        || ((text_is(ps, "LocalVarDecl") || text_is(ps, "FieldDecl")) && kids.len() >= 2 && j < 2)
        || (text_is(ps, "FieldAccess") && j >= 1)
}

/// Whether `c` is the category of a literal leaf.
fn is_literal_category(c: &String) -> (r: bool)
    ensures
        r == literal_category(c@),
{
    text_is(c, "INTLIT") || text_is(c, "DOUBLELIT") || text_is(c, "STRINGLIT") || text_is(
        c,
        "BOOLLIT",
    )
}

/// Whether `k` is an operand child.
fn is_operand_node(k: &Tree) -> (r: bool)
    ensures
        r == is_operand(*k),
{
    match &k.tok {
        None => true,
        Some(tk) => text_is(&tk.category, "IDENTIFIER") || is_literal_category(&tk.category),
    }
}

/// The constant attribute of `t`, from its token and its children's.
fn compute_const(t: &Tree) -> (r: bool)
    ensures
        r == const_value(*t),
{
    match &t.tok {
        Some(tk) => is_literal_category(&tk.category),
        None => {
            let ghost ks = t.kids@;
            let mut any = false;
            let mut all = true;
            let mut j: usize = 0;
            while j < t.kids.len()
                invariant
                    j <= ks.len(),
                    ks == t.kids@,
                    any == (exists|k: int| 0 <= k < j && is_operand(#[trigger] ks[k])),
                    all == (forall|k: int|
                        0 <= k < j && is_operand(#[trigger] ks[k]) ==> ks[k].is_const == Some(
                            true,
                        )),
                decreases ks.len() - j,
            {
                let k = &t.kids[j];
                if is_operand_node(k) {
                    any = true;
                    if k.is_const != Some(true) {
                        all = false;
                    }
                }
                j = j + 1;
            }
            any && all
        },
    }
}

/// Attaches scope `scope` to every node of `tree` and computes the constant
/// attribute of every node; declares nothing and checks no use.
fn attach_scope(tree: &mut Tree, scope: usize)
    ensures
        attached(*old(tree), *final(tree), scope),
    decreases tree.kids@,
{
    let ghost t0 = *tree;
    let ghost ks = t0.kids@;
    let n = tree.kids.len();
    let mut i: usize = 0;
    while i < n
        invariant
            i <= n,
            n == ks.len(),
            ks == old(tree).kids@,
            tree.kids@.len() == n,
            same_node(t0, *tree),
            forall|j: int| i <= j < n ==> tree.kids@[j] == ks[j],
            forall|j: int| 0 <= j < i ==> attached(ks[j], #[trigger] tree.kids@[j], scope),
        decreases n - i,
    {
        proof {
            lemma_kid_smaller(ks, i as int);
        }
        attach_scope(&mut tree.kids[i], scope);
        i = i + 1;
    }
    tree.set_stab(scope);
    let c = compute_const(tree);
    tree.set_const(c);
}

/// Walks `tree` in scope `current_scope`: attaches the scope to it, checks
/// a use of a name, builds the scopes of the classes and methods inside,
/// appends each redeclaration and undeclared use to `errors`, and computes
/// the constant attribute. The resulting scopes and errors are those `walk`
/// describes, and the tree is `annotated`.
pub fn build_symtabs(
    tree: &mut Tree,
    current_scope: usize,
    arena: &mut ScopeArena,
    errors: &mut Vec<SemanticError>,
)
    requires
        arena_wf(old(arena)@),
        current_scope < old(arena)@.len(),
    ensures
        arena_wf(final(arena)@),
        grows(env_of(*old(arena), *old(errors)), env_of(*final(arena), *final(errors))),
        env_of(*final(arena), *final(errors)) == walk(
            *old(tree),
            current_scope,
            env_of(*old(arena), *old(errors)),
        ),
        annotated(*old(tree), *final(tree), current_scope, env_of(*old(arena), *old(errors))),
    decreases tree.kids@, 3nat,
{
    tree.set_stab(current_scope);
    check_use(tree, current_scope, arena, errors);
    proof {
        lemma_production_names();
    }
    if text_is(&tree.sym, "ClassDecl") {
        walk_class(tree, current_scope, arena, errors);
    } else if text_is(&tree.sym, "MethodDecl") {
        walk_method(tree, current_scope, arena, errors);
    } else if text_is(&tree.sym, "FieldDecl") {
        walk_field_decl(tree, current_scope, arena, errors);
    } else if text_is(&tree.sym, "LocalVarDecl") {
        walk_local_var_decl(tree, current_scope, arena, errors);
    } else if text_is(&tree.sym, "FormalParm") {
        walk_formal_parm(tree, current_scope, arena, errors);
    } else if text_is(&tree.sym, "Block") {
        walk_block(tree, current_scope, arena, errors);
    } else {
        walk_children(tree, current_scope, arena, errors);
    }
    let c = compute_const(tree);
    tree.set_const(c);
}

/// Walks every child of `tree` in `scope`; opens no scope.
fn walk_children(
    tree: &mut Tree,
    scope: usize,
    arena: &mut ScopeArena,
    errors: &mut Vec<SemanticError>,
)
    requires
        arena_wf(old(arena)@),
        scope < old(arena)@.len(),
    ensures
        arena_wf(final(arena)@),
        grows(env_of(*old(arena), *old(errors)), env_of(*final(arena), *final(errors))),
        final(tree).stab == old(tree).stab,
        walked_in(
            *old(tree),
            *final(tree),
            0,
            scope,
            env_of(*old(arena), *old(errors)),
            env_of(*final(arena), *final(errors)),
        ),
    decreases tree.kids@, 2nat,
{
    walk_kids(tree, 0, scope, arena, errors);
}

/// Walks the children of `tree` from index `lo` on, in order, in `scope`;
/// a skipped child is only given the scope.
fn walk_kids(
    tree: &mut Tree,
    lo: usize,
    scope: usize,
    arena: &mut ScopeArena,
    errors: &mut Vec<SemanticError>,
)
    requires
        arena_wf(old(arena)@),
        scope < old(arena)@.len(),
    ensures
        arena_wf(final(arena)@),
        grows(env_of(*old(arena), *old(errors)), env_of(*final(arena), *final(errors))),
        final(tree).stab == old(tree).stab,
        final(tree).is_const == old(tree).is_const,
        walked_in(
            *old(tree),
            *final(tree),
            lo as int,
            scope,
            env_of(*old(arena), *old(errors)),
            env_of(*final(arena), *final(errors)),
        ),
    decreases tree.kids@, 1nat,
{
    let ghost t0 = *tree;
    let ghost ks = t0.kids@;
    let ghost ps = t0.sym@;
    let ghost s0 = env_of(*arena, *errors);
    let n = tree.kids.len();
    let mut i: usize = if lo < n {
        lo
    } else {
        n
    };
    while i < n
        invariant
            i <= n,
            lo <= i || i == n,
            n == ks.len(),
            ks == old(tree).kids@,
            ps == t0.sym@,
            tree.kids@.len() == n,
            same_node(t0, *tree),
            tree.stab == t0.stab,
            tree.is_const == t0.is_const,
            forall|j: int| 0 <= j < n && (j < lo || i <= j) ==> tree.kids@[j] == ks[j],
            forall|j: int|
                0 <= j && lo <= j < i ==> if skipped(ps, ks, j) {
                    attached(ks[j], #[trigger] tree.kids@[j], scope)
                } else {
                    annotated(ks[j], tree.kids@[j], scope, walk_from(ps, ks, lo as int, j, scope, s0))
                },
            env_of(*arena, *errors) == walk_from(ps, ks, lo as int, i as int, scope, s0),
            arena_wf(arena@),
            scope < arena@.len(),
            s0.scopes.len() <= arena@.len(),
        decreases n - i,
    {
        proof {
            lemma_kid_smaller(ks, i as int);
        }
        if is_skipped(&tree.sym, &tree.kids, i) {
            attach_scope(&mut tree.kids[i], scope);
        } else {
            build_symtabs(&mut tree.kids[i], scope, arena, errors);
        }
        i = i + 1;
    }
    proof {
        if lo >= n {
            assert(walk_from(ps, ks, lo as int, n as int, scope, s0) == s0);
        }
    }
}

/// The name and line of an identifier node; a declarator wrapping the
/// identifier is unwrapped.
fn ident_name_and_line(node: &Tree) -> (r: (String, usize))
    ensures
        (r.0@, r.1) == declarator_ident(*node),
{
    match &node.tok {
        Some(tok) => (tok.text.clone(), tok.lineno),
        None => declarator_name_and_line(node),
    }
}

/// The name and line a declarator declares: the leaf reached through first
/// children; empty and 0 when there is none.
fn declarator_name_and_line(node: &Tree) -> (r: (String, usize))
    ensures
        (r.0@, r.1) == declarator_ident(*node),
    decreases node,
{
    if let Some(tok) = &node.tok {
        return (tok.text.clone(), tok.lineno);
    }
    if node.kids.len() > 0 {
        return declarator_name_and_line(&node.kids[0]);
    }
    (String::new(), 0)
}

/// The first `MethodDeclarator` node of `node`, in pre-order.
fn find_method_declarator(node: &Tree) -> (r: Option<&Tree>)
    ensures
        match r {
            Some(m) => find_declarator(*node) == Some(*m),
            None => find_declarator(*node) is None,
        },
    decreases node,
{
    if text_is(&node.sym, "MethodDeclarator") {
        return Some(node);
    }
    let ghost ks = node.kids@;
    let mut i: usize = 0;
    while i < node.kids.len()
        invariant
            i <= ks.len(),
            ks == node.kids@,
            find_declarator(*node) == find_declarator_in(ks, i as int),
        decreases ks.len() - i,
    {
        if let Some(m) = find_method_declarator(&node.kids[i]) {
            return Some(m);
        }
        i = i + 1;
    }
    None
}

/// The name of a method node.
fn method_name(method_decl: &Tree) -> (r: String)
    ensures
        r@ == method_ident(*method_decl).0,
{
    match find_method_declarator(method_decl) {
        Some(md) => {
            if md.kids.len() > 0 {
                match &md.kids[0].tok {
                    Some(t) => t.text.clone(),
                    None => String::new(),
                }
            } else {
                String::new()
            }
        },
        None => String::new(),
    }
}

/// The line of a method node's name.
fn method_lineno(method_decl: &Tree) -> (r: usize)
    ensures
        r == method_ident(*method_decl).1,
{
    match find_method_declarator(method_decl) {
        Some(md) => {
            if md.kids.len() > 0 {
                match &md.kids[0].tok {
                    Some(t) => t.lineno,
                    None => 0,
                }
            } else {
                0
            }
        },
        None => 0,
    }
}


/// First pass: declares a field in the class scope (its initialiser is
/// walked in the second pass).
fn register_field(
    tree: &Tree,
    class_scope: usize,
    arena: &mut ScopeArena,
    errors: &mut Vec<SemanticError>,
)
    requires
        arena_wf(old(arena)@),
        class_scope < old(arena)@.len(),
    ensures
        arena_wf(final(arena)@),
        env_of(*final(arena), *final(errors)) == field_registered(
            *tree,
            class_scope,
            env_of(*old(arena), *old(errors)),
        ),
{
    if tree.kids.len() < 2 {
        return;
    }
    let ident = &tree.kids[1];
    let name = match &ident.tok {
        Some(t) => t.text.clone(),
        None => return ,
    };
    let lineno = match &ident.tok {
        Some(t) => t.lineno,
        None => 0,
    };
    let entry = SymTabEntry::new(name.as_str(), SymbolKind::Field, class_scope, false);
    declare_entry(arena, errors, class_scope, entry, lineno);
}

/// First pass: creates a method's scope and declares the method in the
/// class scope as its owner.
fn register_method_signature(
    tree: &Tree,
    class_scope: usize,
    arena: &mut ScopeArena,
    errors: &mut Vec<SemanticError>,
)
    requires
        arena_wf(old(arena)@),
        class_scope < old(arena)@.len(),
    ensures
        arena_wf(final(arena)@),
        env_of(*final(arena), *final(errors)) == method_registered(
            *tree,
            class_scope,
            env_of(*old(arena), *old(errors)),
        ),
{
    let name = method_name(tree);
    let lineno = method_lineno(tree);
    let method_scope = open_new_scope(arena, "method", class_scope);
    let entry = SymTabEntry::with_scope(
        name.as_str(),
        SymbolKind::Method,
        class_scope,
        false,
        method_scope,
    );
    declare_entry(arena, errors, class_scope, entry, lineno);
}

/// Walks a method node: reuses the scope its entry in `class_scope` owns
/// (or creates one), attaches it, and walks the children in it.
fn walk_method(
    tree: &mut Tree,
    class_scope: usize,
    arena: &mut ScopeArena,
    errors: &mut Vec<SemanticError>,
)
    requires
        arena_wf(old(arena)@),
        class_scope < old(arena)@.len(),
    ensures
        arena_wf(final(arena)@),
        grows(env_of(*old(arena), *old(errors)), env_of(*final(arena), *final(errors))),
        final(tree).stab == Some(
            method_scope(*old(tree), class_scope, env_of(*old(arena), *old(errors))).0,
        ),
        walked_in(
            *old(tree),
            *final(tree),
            0,
            method_scope(*old(tree), class_scope, env_of(*old(arena), *old(errors))).0,
            method_scope(*old(tree), class_scope, env_of(*old(arena), *old(errors))).1,
            env_of(*final(arena), *final(errors)),
        ),
    decreases tree.kids@, 2nat,
{
    let name = method_name(tree);
    let found = match arena.table(class_scope).lookup_local(name.as_str()) {
        Some(e) => e.st,
        None => None,
    };
    proof {
        let es = arena@[class_scope as int].entries;
        lemma_find_entry_member(es, name@);
        assert(scope_ok(arena@[class_scope as int], class_scope as int, arena@.len() as int));
        if find_entry(es, name@) is Some {
            let j = choose|j: int| 0 <= j < es.len() && es[j] == find_entry(es, name@)->0 && es[j].name == name@;
            assert(entry_ok(es[j], arena@.len() as int));
        }
    }
    let method_scope = match found {
        Some(m) => m,
        None => open_new_scope(arena, "method", class_scope),
    };
    tree.set_stab(method_scope);
    walk_kids(tree, 0, method_scope, arena, errors);
}

/// Walks a parameter node: declares its name in `scope` (when it has a
/// type and a declarator), then gives its children the scope.
fn walk_formal_parm(
    tree: &mut Tree,
    scope: usize,
    arena: &mut ScopeArena,
    errors: &mut Vec<SemanticError>,
)
    requires
        arena_wf(old(arena)@),
        scope < old(arena)@.len(),
    ensures
        arena_wf(final(arena)@),
        grows(env_of(*old(arena), *old(errors)), env_of(*final(arena), *final(errors))),
        final(tree).stab == old(tree).stab,
        walked_in(
            *old(tree),
            *final(tree),
            0,
            scope,
            if old(tree).kids@.len() < 2 {
                env_of(*old(arena), *old(errors))
            } else {
                declare_var(*old(tree), scope, SymbolKind::Param, env_of(*old(arena), *old(errors)))
            },
            env_of(*final(arena), *final(errors)),
        ),
    decreases tree.kids@, 2nat,
{
    if tree.kids.len() >= 2 {
        let (name, lineno) = ident_name_and_line(&tree.kids[1]);
        let entry = SymTabEntry::new(name.as_str(), SymbolKind::Param, scope, false);
        declare_entry(arena, errors, scope, entry, lineno);
    }
    walk_kids(tree, 0, scope, arena, errors);
}

/// Walks a field node in the second pass: the field is already declared,
/// so its type and name are only given the scope and the rest (the
/// initialiser) is walked.
fn walk_field_decl(
    tree: &mut Tree,
    scope: usize,
    arena: &mut ScopeArena,
    errors: &mut Vec<SemanticError>,
)
    requires
        arena_wf(old(arena)@),
        scope < old(arena)@.len(),
    ensures
        arena_wf(final(arena)@),
        grows(env_of(*old(arena), *old(errors)), env_of(*final(arena), *final(errors))),
        final(tree).stab == old(tree).stab,
        walked_in(
            *old(tree),
            *final(tree),
            0,
            scope,
            env_of(*old(arena), *old(errors)),
            env_of(*final(arena), *final(errors)),
        ),
    decreases tree.kids@, 2nat,
{
    walk_kids(tree, 0, scope, arena, errors);
}

/// Walks a local declaration node: declares the variable its declarator
/// names in `scope` (when it has a type and a declarator), then walks its
/// children; with fewer children only the declaration is skipped.
fn walk_local_var_decl(
    tree: &mut Tree,
    scope: usize,
    arena: &mut ScopeArena,
    errors: &mut Vec<SemanticError>,
)
    requires
        arena_wf(old(arena)@),
        scope < old(arena)@.len(),
    ensures
        arena_wf(final(arena)@),
        grows(env_of(*old(arena), *old(errors)), env_of(*final(arena), *final(errors))),
        final(tree).stab == old(tree).stab,
        walked_in(
            *old(tree),
            *final(tree),
            0,
            scope,
            if old(tree).kids@.len() < 2 {
                env_of(*old(arena), *old(errors))
            } else {
                declare_var(*old(tree), scope, SymbolKind::Local, env_of(*old(arena), *old(errors)))
            },
            env_of(*final(arena), *final(errors)),
        ),
    decreases tree.kids@, 2nat,
{
    if tree.kids.len() >= 2 {
        let (name, lineno) = declarator_name_and_line(&tree.kids[1]);
        let entry = SymTabEntry::new(name.as_str(), SymbolKind::Local, scope, false);
        declare_entry(arena, errors, scope, entry, lineno);
    }
    walk_kids(tree, 0, scope, arena, errors);
}

/// Walks a block: a block opens no scope, so its declarations land in the
/// enclosing method's scope.
fn walk_block(
    tree: &mut Tree,
    scope: usize,
    arena: &mut ScopeArena,
    errors: &mut Vec<SemanticError>,
)
    requires
        arena_wf(old(arena)@),
        scope < old(arena)@.len(),
    ensures
        arena_wf(final(arena)@),
        grows(env_of(*old(arena), *old(errors)), env_of(*final(arena), *final(errors))),
        final(tree).stab == old(tree).stab,
        walked_in(
            *old(tree),
            *final(tree),
            0,
            scope,
            env_of(*old(arena), *old(errors)),
            env_of(*final(arena), *final(errors)),
        ),
    decreases tree.kids@, 2nat,
{
    walk_kids(tree, 0, scope, arena, errors);
}

/// Walks a class node: declares the class in `global` with a new scope,
/// attaches that scope to the node, runs the two passes over the members
/// (every child after the name), and gives the name leaf the enclosing
/// scope.
fn walk_class(
    tree: &mut Tree,
    global: usize,
    arena: &mut ScopeArena,
    errors: &mut Vec<SemanticError>,
)
    requires
        arena_wf(old(arena)@),
        global < old(arena)@.len(),
    ensures
        arena_wf(final(arena)@),
        grows(env_of(*old(arena), *old(errors)), env_of(*final(arena), *final(errors))),
        if old(tree).kids@.len() == 0 {
            *final(tree) == *old(tree) && *final(arena) == *old(arena) && *final(errors) == *old(errors)
        } else {
            let (h, s2) = class_setup(*old(tree), global, env_of(*old(arena), *old(errors)));
            &&& final(tree).stab == Some(h)
            &&& same_node(*old(tree), *final(tree))
            &&& attached(old(tree).kids@[0], final(tree).kids@[0], global)
            &&& kids_walked(old(tree).sym@, old(tree).kids@, final(tree).kids@, 1, h, s2)
            &&& env_of(*final(arena), *final(errors)) == walk_from(
                old(tree).sym@,
                old(tree).kids@,
                1,
                old(tree).kids@.len() as int,
                h,
                s2,
            )
        },
    decreases tree.kids@, 2nat,
{
    if tree.kids.len() == 0 {
        return;
    }
    let ghost s0 = env_of(*arena, *errors);
    let ghost t0 = *tree;
    let ghost ks = t0.kids@;
    let class_name = match &tree.kids[0].tok {
        Some(t) => t.text.clone(),
        None => String::new(),
    };
    let lineno = match &tree.kids[0].tok {
        Some(t) => t.lineno,
        None => 0,
    };
    let class_scope = open_new_scope(arena, "class", global);
    let class_entry = SymTabEntry::with_scope(
        class_name.as_str(),
        SymbolKind::Class,
        global,
        false,
        class_scope,
    );
    declare_entry(arena, errors, global, class_entry, lineno);
    tree.set_stab(class_scope);
    let ghost t1 = *tree;
    let ghost s1 = env_of(*arena, *errors);
    let n = tree.kids.len();
    // First pass: declare every field and method of the class.
    let mut i: usize = 1;
    while i < n
        invariant
            1 <= i <= n,
            n == ks.len(),
            *tree == t1,
            t1.kids@ == ks,
            arena_wf(arena@),
            class_scope < arena@.len(),
            s0.scopes.len() <= arena@.len(),
            env_of(*arena, *errors) == register_from(ks, 1, i as int, class_scope, s1),
        decreases n - i,
    {
        let kid = &tree.kids[i];
        if text_is(&kid.sym, "FieldDecl") {
            register_field(kid, class_scope, arena, errors);
        } else if text_is(&kid.sym, "MethodDecl") {
            register_method_signature(kid, class_scope, arena, errors);
        }
        i = i + 1;
    }
    let ghost s2 = env_of(*arena, *errors);
    assert(class_setup(t0, global, s0) == (class_scope, s2));
    // Second pass: walk the members with every class-level name declared.
    walk_kids(tree, 1, class_scope, arena, errors);
    let ghost mid = tree.kids@;
    // The name leaf holds no use: it only gets the enclosing scope.
    proof {
        lemma_kid_smaller(ks, 0);
    }
    attach_scope(&mut tree.kids[0], global);
    assert forall|j: int| 1 <= j < n implies tree.kids@[j] == mid[j] by {}
}

} // verus!
