//! The predefined environment: `System.out.println`.
use vstd::prelude::*;

use crate::symtab::{
    add_entry, arena_wf, find_entry, EntryView, ScopeArena, ScopeView, SymTab, SymTabEntry,
    SymbolKind,
};

verus! {

/// The arena `a` after seeding scope `g` with the predefined names: three new
/// scopes at handles `n`, `n + 1`, `n + 2` (with `n == a.len()`) for
/// `println`, `out` and `System`, each enclosed by `g`; `out`'s scope holds
/// the `println` method, `System`'s holds the class-valued `out`, and `g`
/// gains the class `System`.
pub open spec fn predefined(a: Seq<ScopeView>, g: usize) -> Seq<ScopeView> {
    let n = a.len() as usize;
    let println_scope = ScopeView { label: "method"@, parent: Some(g), entries: Seq::empty() };
    let out_scope = ScopeView {
        label: "class"@,
        parent: Some(g),
        entries: seq![
            EntryView {
                name: "println"@,
                kind: SymbolKind::Method,
                parent_st: (n + 1) as usize,
                st: Some(n),
                is_const: false,
            },
        ],
    };
    let system_scope = ScopeView {
        label: "class"@,
        parent: Some(g),
        entries: seq![
            EntryView {
                name: "out"@,
                kind: SymbolKind::Class,
                parent_st: (n + 2) as usize,
                st: Some((n + 1) as usize),
                is_const: false,
            },
        ],
    };
    add_entry(
        a.push(println_scope).push(out_scope).push(system_scope),
        g as int,
        EntryView {
            name: "System"@,
            kind: SymbolKind::Class,
            parent_st: g,
            st: Some((n + 2) as usize),
            is_const: false,
        },
    )
}

/// Seeds the global scope `global` with `System`, whose scope holds `out`,
/// whose scope holds the method `println`, whose scope is empty. It must
/// run before `System` is declared there.
pub fn build_predefined(arena: &mut ScopeArena, global: usize)
    requires
        arena_wf(old(arena)@),
        global < old(arena)@.len(),
        old(arena)@.len() + 3 <= usize::MAX,
        find_entry(old(arena)@[global as int].entries, "System"@) is None,
    ensures
        arena_wf(final(arena)@),
        final(arena)@ == predefined(old(arena)@, global),
{
    let ghost a0 = arena@;
    let println_st = SymTab::new("method", Some(global)).into_rc(arena);
    let out_st = SymTab::new("class", Some(global)).into_rc(arena);
    let println_entry = SymTabEntry::with_scope(
        "println",
        SymbolKind::Method,
        out_st,
        false,
        println_st,
    );
    let _ = arena.insert(out_st, println_entry);
    let system_st = SymTab::new("class", Some(global)).into_rc(arena);
    let out_entry = SymTabEntry::with_scope("out", SymbolKind::Class, system_st, false, out_st);
    let _ = arena.insert(system_st, out_entry);
    let system_entry = SymTabEntry::with_scope(
        "System",
        SymbolKind::Class,
        global,
        false,
        system_st,
    );
    let _ = arena.insert(global, system_entry);
    proof {
        let p = predefined(a0, global);
        assert(arena@.len() == p.len());
        assert forall|i: int| 0 <= i < p.len() implies arena@[i] == p[i] by {
            if i == a0.len() + 1 {
                assert(arena@[i].entries =~= p[i].entries);
            }
            if i == a0.len() + 2 {
                assert(arena@[i].entries =~= p[i].entries);
            }
        }
        assert(arena@ =~= p);
    }
}

} // verus!
