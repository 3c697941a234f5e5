//! The diagnostics of semantic analysis.
use vstd::prelude::*;
use vstd::string::StringExecFns;

use crate::text::{decimal, decimal_string};

verus! {

/// A diagnostic as plain values.
pub enum ErrorView {
    Undeclared { name: Seq<char>, lineno: usize },
    Redeclared { name: Seq<char>, lineno: usize },
}

/// A semantic error: a name used but never declared, or declared twice in
/// one scope.
#[derive(Debug, Clone)]
pub enum SemanticError {
    UndeclaredVariable { name: String, lineno: usize },
    RedeclaredVariable { name: String, lineno: usize },
}

impl View for SemanticError {
    type V = ErrorView;

    open spec fn view(&self) -> ErrorView {
        match self {
            SemanticError::UndeclaredVariable { name, lineno } => ErrorView::Undeclared {
                name: name@,
                lineno: *lineno,
            },
            SemanticError::RedeclaredVariable { name, lineno } => ErrorView::Redeclared {
                name: name@,
                lineno: *lineno,
            },
        }
    }
}

/// The diagnostic text of an error: `line N: redeclared variable 'x'` (or
/// `undeclared`).
pub open spec fn message_text(e: ErrorView) -> Seq<char> {
    match e {
        ErrorView::Undeclared { name, lineno } => "line "@ + decimal(lineno as nat)
            + ": undeclared variable '"@ + name + "'"@,
        ErrorView::Redeclared { name, lineno } => "line "@ + decimal(lineno as nat)
            + ": redeclared variable '"@ + name + "'"@,
    }
}

impl SemanticError {
    /// The diagnostic text shown to users.
    pub fn message(&self) -> (r: String)
        ensures
            r@ == message_text(self@),
    {
        let (kind, name, lineno) = match self {
            SemanticError::UndeclaredVariable { name, lineno } => (
                ": undeclared variable '",
                name,
                *lineno,
            ),
            SemanticError::RedeclaredVariable { name, lineno } => (
                ": redeclared variable '",
                name,
                *lineno,
            ),
        };
        let mut r = String::from_str("line ");
        r.append(decimal_string(lineno as u64).as_str());
        r.append(kind);
        r.append(name.as_str());
        r.append("'");
        proof {
            assert(r@ =~= message_text(self@));
        }
        r
    }
}

/// The views of a list of errors.
pub open spec fn errors_view(es: Seq<SemanticError>) -> Seq<ErrorView> {
    es.map_values(|e: SemanticError| e@)
}

} // verus!
