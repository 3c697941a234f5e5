//! The entry point of semantic analysis.
use vstd::prelude::*;

use crate::builder::{annotated, build_symtabs, env_of, walk, Env};
use crate::error::{ErrorView, SemanticError};
use crate::predef::{build_predefined, predefined};
use crate::symtab::{arena_wf, ScopeArena, ScopeView, SymTab};
use crate::tree::Tree;

verus! {

/// The outcome of an analysis: every scope, the handle of the global scope
/// (the root of the scope tree) and the errors found, in order.
pub struct SemanticResult {
    pub scopes: ScopeArena,
    pub global: usize,
    pub errors: Vec<SemanticError>,
}

/// The scopes an analysis starts from: the global scope, at handle 0,
/// seeded with the predefined names.
pub open spec fn initial_env() -> Env {
    Env {
        scopes: predefined(
            seq![ScopeView { label: "global"@, parent: None, entries: Seq::empty() }],
            0,
        ),
        errors: Seq::<ErrorView>::empty(),
    }
}

/// Analyses `tree`: creates the global scope, seeds it with the predefined
/// names, then builds the scopes of the tree from it and attaches them.
pub fn analyze(tree: &mut Tree) -> (r: SemanticResult)
    ensures
        r.global == 0,
        arena_wf(r.scopes@),
        env_of(r.scopes, r.errors) == walk(*old(tree), 0, initial_env()),
        annotated(*old(tree), *final(tree), 0, initial_env()),
{
    let mut scopes = ScopeArena::new();
    let global = SymTab::new("global", None).into_rc(&mut scopes);
    build_predefined(&mut scopes, global);
    let mut errors: Vec<SemanticError> = Vec::new();
    proof {
        assert(env_of(scopes, errors).errors =~= Seq::<ErrorView>::empty());
        assert(env_of(scopes, errors) == initial_env());
    }
    build_symtabs(tree, global, &mut scopes, &mut errors);
    SemanticResult { scopes, global, errors }
}

} // verus!
