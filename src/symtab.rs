//! Symbol tables: one table per lexical scope, kept in an arena and linked
//! to their enclosing scope by handle.
use vstd::prelude::*;
use vstd::string::StringExecFns;

use crate::text::{decimal, decimal_string};

verus! {

/// The kind of a declared symbol.
#[derive(Debug, Clone, Copy, PartialEq, Eq, Structural)]
pub enum SymbolKind {
    Class,
    Method,
    Field,
    Param,
    Local,
}

pub open spec fn kind_label(k: SymbolKind) -> Seq<char> {
    match k {
        SymbolKind::Class => "class"@,
        SymbolKind::Method => "method"@,
        SymbolKind::Field => "field"@,
        SymbolKind::Param => "param"@,
        SymbolKind::Local => "local"@,
    }
}

impl SymbolKind {
    /// The lower-case word that names this kind in diagnostics.
    pub fn label(&self) -> (r: String)
        ensures
            r@ == kind_label(*self),
    {
        let s = match self {
            SymbolKind::Class => "class",
            SymbolKind::Method => "method",
            SymbolKind::Field => "field",
            SymbolKind::Param => "param",
            SymbolKind::Local => "local",
        };
        s.to_owned()
    }
}

/// What an entry says, as plain values.
pub struct EntryView {
    pub name: Seq<char>,
    pub kind: SymbolKind,
    pub parent_st: usize,
    pub st: Option<usize>,
    pub is_const: bool,
}

/// One declaration. `parent_st` is the handle of the scope it was declared
/// in; `st` is the handle of the scope it owns (classes and methods only).
#[derive(Debug, Clone)]
pub struct SymTabEntry {
    pub sym: String,
    pub parent_st: usize,
    pub st: Option<usize>,
    pub is_const: bool,
    pub kind: SymbolKind,
}

impl View for SymTabEntry {
    type V = EntryView;

    open spec fn view(&self) -> EntryView {
        EntryView {
            name: self.sym@,
            kind: self.kind,
            parent_st: self.parent_st,
            st: self.st,
            is_const: self.is_const,
        }
    }
}

impl SymTabEntry {
    /// An entry that owns no scope (field, parameter, local variable).
    pub fn new(sym: &str, kind: SymbolKind, parent: usize, is_const: bool) -> (r: SymTabEntry)
        ensures
            r@ == (EntryView { name: sym@, kind, parent_st: parent, st: None, is_const }),
    {
        SymTabEntry { sym: sym.to_owned(), parent_st: parent, st: None, is_const, kind }
    }

    /// An entry that owns the scope `child` (class or method).
    pub fn with_scope(
        sym: &str,
        kind: SymbolKind,
        parent: usize,
        is_const: bool,
        child: usize,
    ) -> (r: SymTabEntry)
        ensures
            r@ == (EntryView { name: sym@, kind, parent_st: parent, st: Some(child), is_const }),
    {
        SymTabEntry { sym: sym.to_owned(), parent_st: parent, st: Some(child), is_const, kind }
    }

    /// A copy of this entry.
    pub fn duplicate(&self) -> (r: SymTabEntry)
        ensures
            r@ == self@,
    {
        SymTabEntry {
            sym: self.sym.clone(),
            parent_st: self.parent_st,
            st: self.st,
            is_const: self.is_const,
            kind: self.kind,
        }
    }
}

/// The entry named `name` among `es`, if any (the latest one, should there
/// be several).
pub open spec fn find_entry(es: Seq<EntryView>, name: Seq<char>) -> Option<EntryView>
    decreases es.len(),
{
    if es.len() == 0 {
        None
    } else if es.last().name == name {
        Some(es.last())
    } else {
        find_entry(es.drop_last(), name)
    }
}

/// The view of an optional entry.
pub open spec fn view_of(r: Option<SymTabEntry>) -> Option<EntryView> {
    match r {
        Some(e) => Some(e@),
        None => None,
    }
}

/// No two entries share a name.
pub open spec fn names_unique(es: Seq<EntryView>) -> bool {
    forall|i: int, j: int|
        0 <= i < es.len() && 0 <= j < es.len() && i != j ==> es[i].name != es[j].name
}

/// A scope as plain values: its label, its enclosing scope and its entries in
/// declaration order.
pub struct ScopeView {
    pub label: Seq<char>,
    pub parent: Option<usize>,
    pub entries: Seq<EntryView>,
}

/// One lexical scope: a label, the handle of the enclosing scope (none for
/// the global scope) and the entries declared here, in declaration order.
#[derive(Debug)]
pub struct SymTab {
    pub scope: String,
    pub parent: Option<usize>,
    entries: Vec<SymTabEntry>,
}

impl View for SymTab {
    type V = ScopeView;

    closed spec fn view(&self) -> ScopeView {
        ScopeView {
            label: self.scope@,
            parent: self.parent,
            entries: self.entries@.map_values(|e: SymTabEntry| e@),
        }
    }
}


/// `es` with no entry named `name` after index `i` finds the same entry as
/// its first `i` elements.
proof fn lemma_find_prefix(es: Seq<EntryView>, name: Seq<char>, i: int)
    requires
        0 <= i <= es.len(),
        forall|j: int| i <= j < es.len() ==> es[j].name != name,
    ensures
        find_entry(es, name) == find_entry(es.subrange(0, i), name),
    decreases es.len(),
{
    if es.len() > i {
        assert(es.drop_last().subrange(0, i) =~= es.subrange(0, i));
        lemma_find_prefix(es.drop_last(), name, i);
    } else {
        assert(es.subrange(0, i) =~= es);
    }
}

/// An entry that `find_entry` returns is one of the entries, under its name.
pub proof fn lemma_find_entry_member(es: Seq<EntryView>, name: Seq<char>)
    ensures
        find_entry(es, name) is None <==> (forall|j: int| 0 <= j < es.len() ==> es[j].name != name),
        find_entry(es, name) is Some ==> exists|j: int|
            0 <= j < es.len() && es[j] == find_entry(es, name)->0 && es[j].name == name,
    decreases es.len(),
{
    if es.len() > 0 {
        lemma_find_entry_member(es.drop_last(), name);
        if find_entry(es, name) is None {
            assert forall|j: int| 0 <= j < es.len() implies es[j].name != name by {
                if j < es.len() - 1 {
                    assert(es[j] == es.drop_last()[j]);
                }
            }
        } else if es.last().name != name {
            let j = choose|j: int|
                0 <= j < es.drop_last().len() && es.drop_last()[j] == find_entry(es, name)->0
                    && es.drop_last()[j].name == name;
            assert(es[j] == es.drop_last()[j]);
        } else {
            assert(es[es.len() - 1] == es.last());
        }
        if forall|j: int| 0 <= j < es.len() ==> es[j].name != name {
            assert(es[es.len() - 1] == es.last());
            assert forall|j: int| 0 <= j < es.drop_last().len() implies es.drop_last()[j].name
                != name by {
                assert(es.drop_last()[j] == es[j]);
            }
        }
    }
}

/// Appending an entry under a fresh name keeps the names unique.
proof fn lemma_push_unique(es: Seq<EntryView>, e: EntryView)
    requires
        names_unique(es),
        find_entry(es, e.name) is None,
    ensures
        names_unique(es.push(e)),
{
    lemma_find_entry_member(es, e.name);
    let es2 = es.push(e);
    assert forall|i: int, j: int|
        0 <= i < es2.len() && 0 <= j < es2.len() && i != j implies es2[i].name
        != es2[j].name by {
        if i < es.len() {
            assert(es2[i] == es[i]);
        }
        if j < es.len() {
            assert(es2[j] == es[j]);
        }
    }
}

/// The handles in an entry point into an arena of `n` scopes.
pub open spec fn entry_ok(e: EntryView, n: int) -> bool {
    &&& e.parent_st < n
    &&& e.st is Some ==> e.st->0 < n
}

/// Scope `s`, at handle `i` of an arena of `n` scopes, has unique names, an
/// enclosing scope allocated before it, and handles that point into the
/// arena.
pub open spec fn scope_ok(s: ScopeView, i: int, n: int) -> bool {
    &&& names_unique(s.entries)
    &&& s.parent is Some ==> s.parent->0 < i
    &&& forall|j: int| 0 <= j < s.entries.len() ==> entry_ok(#[trigger] s.entries[j], n)
}

/// Every scope of the arena is well formed; the chain of enclosing scopes
/// therefore ends at a root.
pub open spec fn arena_wf(a: Seq<ScopeView>) -> bool {
    forall|i: int| 0 <= i < a.len() ==> scope_ok(#[trigger] a[i], i, a.len() as int)
}

/// `a` with the entry `e` appended to scope `h` (no change when `h` is not
/// a handle of `a`).
pub open spec fn add_entry(a: Seq<ScopeView>, h: int, e: EntryView) -> Seq<ScopeView> {
    if 0 <= h < a.len() {
        a.update(
            h,
            ScopeView { label: a[h].label, parent: a[h].parent, entries: a[h].entries.push(e) },
        )
    } else {
        a
    }
}

/// `a` with an empty scope appended; its handle is `a.len()`.
pub open spec fn add_scope(a: Seq<ScopeView>, label: Seq<char>, parent: Option<usize>) -> Seq<
    ScopeView,
> {
    a.push(ScopeView { label, parent, entries: Seq::empty() })
}

/// Resolution of `name` from scope `h`: the entry declared in `h`, else the
/// resolution from its enclosing scope.
pub open spec fn resolve(a: Seq<ScopeView>, h: int, name: Seq<char>) -> Option<EntryView>
    decreases h,
{
    if 0 <= h < a.len() {
        match find_entry(a[h].entries, name) {
            Some(e) => Some(e),
            None => match a[h].parent {
                Some(p) => if p < h {
                    resolve(a, p as int, name)
                } else {
                    None
                },
                None => None,
            },
        }
    } else {
        None
    }
}

impl SymTab {
    /// A new, empty scope.
    pub fn new(scope: &str, parent: Option<usize>) -> (r: SymTab)
        ensures
            r@ == (ScopeView { label: scope@, parent, entries: Seq::empty() }),
    {
        let r = SymTab { scope: scope.to_owned(), parent, entries: Vec::new() };
        assert(r@.entries =~= Seq::empty());
        r
    }

    /// Moves this table into `arena` and returns its handle there.
    pub fn into_rc(self, arena: &mut ScopeArena) -> (h: usize)
        requires
            scope_ok(self@, old(arena)@.len() as int, old(arena)@.len() as int),
            arena_wf(old(arena)@),
        ensures
            h == old(arena)@.len(),
            final(arena)@ == old(arena)@.push(self@),
            arena_wf(final(arena)@),
    {
        arena.add(self)
    }

    /// Number of entries declared in this scope.
    pub fn len(&self) -> (r: usize)
        ensures
            r == self@.entries.len(),
    {
        self.entries.len()
    }

    pub fn is_empty(&self) -> (r: bool)
        ensures
            r == (self@.entries.len() == 0),
    {
        self.entries.len() == 0
    }

    /// Index of the entry named `key`, searching from the latest.
    fn position(&self, key: &String) -> (r: Option<usize>)
        ensures
            match r {
                Some(i) => i < self@.entries.len() && find_entry(self@.entries, key@) == Some(
                    self@.entries[i as int],
                ),
                None => find_entry(self@.entries, key@) is None,
            },
    {
        let ghost es = self@.entries;
        let mut i: usize = self.entries.len();
        while i > 0
            invariant
                i <= self.entries.len(),
                es == self@.entries,
                forall|j: int| i <= j < es.len() ==> es[j].name != key@,
            decreases i,
        {
            if self.entries[i - 1].sym == *key {
                proof {
                    assert(es[i - 1] == self.entries@[i - 1]@);
                    lemma_find_prefix(es, key@, i as int);
                    assert(es.subrange(0, i as int).drop_last() =~= es.subrange(0, i - 1));
                }
                return Some(i - 1);
            }
            assert(es[i - 1] == self.entries@[i - 1]@);
            i = i - 1;
        }
        proof {
            lemma_find_prefix(es, key@, 0);
        }
        None
    }

    /// Declares `entry` here. Fails, with a copy of the entry already
    /// declared, when this scope already holds its name; the scope is then
    /// left as it was.
    pub fn insert(&mut self, entry: SymTabEntry) -> (r: Result<(), SymTabEntry>)
        ensures
            match find_entry(old(self)@.entries, entry@.name) {
                Some(x) => r matches Err(e) && e@ == x && final(self)@ == old(self)@,
                None => r is Ok && final(self)@ == (ScopeView {
                    entries: old(self)@.entries.push(entry@),
                    ..old(self)@
                }),
            },
    {
        match self.position(&entry.sym) {
            Some(i) => Err(self.entries[i].duplicate()),
            None => {
                self.entries.push(entry);
                proof {
                    assert(self@.entries =~= old(self)@.entries.push(entry@));
                }
                Ok(())
            },
        }
    }

    /// The entry declared directly in this scope under `name`.
    pub fn lookup_local(&self, name: &str) -> (r: Option<&SymTabEntry>)
        ensures
            match r {
                Some(e) => find_entry(self@.entries, name@) == Some(e@),
                None => find_entry(self@.entries, name@) is None,
            },
    {
        let key = name.to_owned();
        match self.position(&key) {
            Some(i) => Some(&self.entries[i]),
            None => None,
        }
    }

    /// Resolves `name` here, then in each enclosing scope of `arena` outward.
    pub fn lookup(&self, arena: &ScopeArena, name: &str) -> (r: Option<SymTabEntry>)
        requires
            arena_wf(arena@),
        ensures
            view_of(r) == match find_entry(self@.entries, name@) {
                Some(e) => Some(e),
                None => match self@.parent {
                    Some(p) => resolve(arena@, p as int, name@),
                    None => None,
                },
            },
    {
        match self.lookup_local(name) {
            Some(e) => Some(e.duplicate()),
            None => match self.parent {
                Some(p) => arena.lookup(p, name),
                None => None,
            },
        }
    }

    /// The entries, as (name, entry) pairs in declaration order.
    pub fn iter(&self) -> (r: Vec<(String, SymTabEntry)>)
        ensures
            r@.len() == self@.entries.len(),
            forall|i: int|
                0 <= i < r@.len() ==> r@[i].0@ == self@.entries[i].name && (#[trigger] r@[i]).1@
                    == self@.entries[i],
    {
        let mut r: Vec<(String, SymTabEntry)> = Vec::new();
        let mut i: usize = 0;
        while i < self.entries.len()
            invariant
                i <= self.entries.len(),
                r@.len() == i,
                forall|k: int|
                    0 <= k < i ==> r@[k].0@ == self@.entries[k].name && (#[trigger] r@[k]).1@
                        == self@.entries[k],
            decreases self.entries.len() - i,
        {
            let e = self.entries[i].duplicate();
            r.push((self.entries[i].sym.clone(), e));
            i = i + 1;
        }
        r
    }
}

/// All scopes of one analysis, addressed by handle (their index).
#[derive(Debug)]
pub struct ScopeArena {
    tables: Vec<SymTab>,
}

impl View for ScopeArena {
    type V = Seq<ScopeView>;

    closed spec fn view(&self) -> Seq<ScopeView> {
        self.tables@.map_values(|t: SymTab| t@)
    }
}

impl ScopeArena {
    /// An arena holding no scope.
    pub fn new() -> (r: ScopeArena)
        ensures
            r@ == Seq::<ScopeView>::empty(),
            arena_wf(r@),
    {
        let r = ScopeArena { tables: Vec::new() };
        assert(r@ =~= Seq::<ScopeView>::empty());
        r
    }

    /// Number of scopes.
    pub fn len(&self) -> (r: usize)
        ensures
            r == self@.len(),
    {
        self.tables.len()
    }

    /// The scope at handle `h`.
    pub fn table(&self, h: usize) -> (r: &SymTab)
        requires
            h < self@.len(),
        ensures
            r@ == self@[h as int],
    {
        &self.tables[h]
    }

    /// Adds `t` as a new scope and returns its handle.
    pub fn add(&mut self, t: SymTab) -> (h: usize)
        requires
            scope_ok(t@, old(self)@.len() as int, old(self)@.len() as int),
            arena_wf(old(self)@),
        ensures
            h == old(self)@.len(),
            final(self)@ == old(self)@.push(t@),
            arena_wf(final(self)@),
    {
        let h = self.tables.len();
        let ghost tv = t@;
        self.tables.push(t);
        proof {
            assert(self@ =~= old(self)@.push(tv));
            let a = self@;
            assert forall|i: int| 0 <= i < a.len() implies scope_ok(#[trigger] a[i], i, a.len() as int) by {
                if i < h {
                    assert(scope_ok(old(self)@[i], i, h as int));
                    assert(a[i] == old(self)@[i]);
                }
            }
        }
        h
    }

    /// Declares `entry` in scope `h`; fails as `SymTab::insert` does.
    pub fn insert(&mut self, h: usize, entry: SymTabEntry) -> (r: Result<(), SymTabEntry>)
        requires
            arena_wf(old(self)@),
            h < old(self)@.len(),
            entry_ok(entry@, old(self)@.len() as int),
        ensures
            match find_entry(old(self)@[h as int].entries, entry@.name) {
                Some(x) => r matches Err(e) && e@ == x && final(self)@ == old(self)@,
                None => r is Ok && final(self)@ == add_entry(old(self)@, h as int, entry@),
            },
            arena_wf(final(self)@),
    {
        let ghost ev = entry@;
        let ghost a0 = self@;
        assert(a0[h as int] == self.tables@[h as int]@);
        let r = self.tables[h].insert(entry);
        proof {
            let a = self@;
            match find_entry(a0[h as int].entries, ev.name) {
                Some(x) => {
                    assert(a =~= a0);
                },
                None => {
                    assert(a =~= add_entry(a0, h as int, ev));
                    assert(scope_ok(a0[h as int], h as int, a0.len() as int));
                    lemma_push_unique(a0[h as int].entries, ev);
                    assert forall|i: int| 0 <= i < a.len() implies scope_ok(#[trigger] a[i], i, a.len() as int) by {
                        if i != h {
                            assert(a[i] == a0[i]);
                        } else {
                            let es = a[i].entries;
                            assert forall|j: int| 0 <= j < es.len() implies entry_ok(#[trigger] es[j], a.len() as int) by {
                                if j < es.len() - 1 {
                                    assert(es[j] == a0[i].entries[j]);
                                }
                            }
                        }
                    }
                },
            }
        }
        r
    }

    /// Resolves `name` from scope `h` outward.
    pub fn lookup(&self, h: usize, name: &str) -> (r: Option<SymTabEntry>)
        requires
            arena_wf(self@),
        ensures
            view_of(r) == resolve(self@, h as int, name@),
        decreases h,
    {
        if h >= self.tables.len() {
            return None;
        }
        assert(self@[h as int] == self.tables@[h as int]@);
        assert(scope_ok(self@[h as int], h as int, self@.len() as int));
        match self.tables[h].lookup_local(name) {
            Some(e) => Some(e.duplicate()),
            None => match self.tables[h].parent {
                Some(p) => self.lookup(p, name),
                None => None,
            },
        }
    }
}


/// `n` spaces.
pub open spec fn spaces(n: nat) -> Seq<char>
    decreases n,
{
    if n == 0 {
        Seq::empty()
    } else {
        spaces((n - 1) as nat) + " "@
    }
}

/// The printout of scope `t` at depth `indent`: a header line with its label
/// and size, then each entry's name one space deeper, each followed by the
/// printout of the scope it owns two spaces deeper. Owned scopes are
/// followed at most `budget` levels down.
pub open spec fn table_text(a: Seq<ScopeView>, t: ScopeView, indent: nat, budget: nat) -> Seq<char>
    decreases budget, 1nat, 0int,
{
    spaces(indent) + t.label + " - "@ + decimal(t.entries.len()) + " symbols\n"@ + entries_text(
        a,
        t.entries,
        t.entries.len() as int,
        indent,
        budget,
    )
}

/// The printout of the entries `es[..n]`.
pub open spec fn entries_text(
    a: Seq<ScopeView>,
    es: Seq<EntryView>,
    n: int,
    indent: nat,
    budget: nat,
) -> Seq<char>
    decreases budget, 0nat, n,
{
    if n <= 0 || n > es.len() {
        Seq::empty()
    } else {
        entries_text(a, es, n - 1, indent, budget) + spaces(indent + 1) + es[n - 1].name + "\n"@
            + match es[n - 1].st {
            Some(c) => if budget > 0 && c < a.len() {
                table_text(a, a[c as int], indent + 2, (budget - 1) as nat)
            } else {
                Seq::empty()
            },
            None => Seq::empty(),
        }
    }
}

impl SymTab {
    /// The printout of this scope and, through `arena`, of the scopes its
    /// entries own. Every chain of owned scopes the library builds is
    /// shorter than the arena, so a budget of the arena's size cuts none.
    pub fn render(&self, arena: &ScopeArena, indent: usize) -> (r: String)
        requires
            indent + 2 * arena@.len() + 2 <= usize::MAX,
        ensures
            r@ == table_text(arena@, self@, indent as nat, arena@.len()),
    {
        let mut buf = String::new();
        self.render_into(arena, indent, arena.len(), &mut buf);
        proof {
            assert(buf@ =~= table_text(arena@, self@, indent as nat, arena@.len()));
        }
        buf
    }

    fn render_into(&self, arena: &ScopeArena, indent: usize, budget: usize, buf: &mut String)
        requires
            indent + 2 * budget + 2 <= usize::MAX,
        ensures
            final(buf)@ == old(buf)@ + table_text(arena@, self@, indent as nat, budget as nat),
        decreases budget, 1nat, 0int,
    {
        let ghost b0 = buf@;
        let mut k: usize = 0;
        while k < indent
            invariant
                k <= indent,
                buf@ == b0 + spaces(k as nat),
            decreases indent - k,
        {
            buf.append(" ");
            k = k + 1;
        }
        buf.append(self.scope.as_str());
        buf.append(" - ");
        buf.append(decimal_string(self.entries.len() as u64).as_str());
        buf.append(" symbols\n");
        let ghost b1 = buf@;
        assert(b1 =~= b0 + spaces(indent as nat) + self@.label + " - "@ + decimal(
            self@.entries.len(),
        ) + " symbols\n"@);
        let mut i: usize = 0;
        while i < self.entries.len()
            invariant
                i <= self.entries@.len(),
                indent + 2 * budget + 2 <= usize::MAX,
                buf@ == b1 + entries_text(arena@, self@.entries, i as int, indent as nat, budget as nat),
            decreases self.entries@.len() - i,
        {
            let ghost before = buf@;
            let e = &self.entries[i];
            assert(self@.entries[i as int] == e@);
            let mut k: usize = 0;
            while k < indent + 1
                invariant
                    k <= indent + 1,
                    indent + 2 * budget + 2 <= usize::MAX,
                    buf@ == before + spaces(k as nat),
                decreases indent + 1 - k,
            {
                buf.append(" ");
                k = k + 1;
            }
            buf.append(e.sym.as_str());
            buf.append("\n");
            match e.st {
                Some(c) => {
                    if budget > 0 && c < arena.len() {
                        arena.table(c).render_into(arena, indent + 2, budget - 1, buf);
                    }
                },
                None => {},
            }
            proof {
                assert(buf@ =~= b1 + entries_text(
                    arena@,
                    self@.entries,
                    i + 1,
                    indent as nat,
                    budget as nat,
                ));
            }
            i = i + 1;
        }
    }
}

} // verus!
