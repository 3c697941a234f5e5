//! Front end of a small teaching compiler for a Java-like language: syntax
//! trees with semantic attributes, nested symbol tables held in an arena of
//! scopes, and the pass that builds those tables from a tree.
pub mod symtab;
pub mod predef;
pub mod tree;
pub mod error;
pub mod builder;
pub mod analysis;
pub mod loc;
pub mod text;
pub mod lemmas;
pub mod render;
pub mod lexer;
pub mod tok;
