//! A static borrow-and-ownership checker for a subset of C.
//!
//! The checker walks a parsed C translation unit and reports places where the
//! source would violate a Rust-style discipline of unique ownership,
//! exclusive mutable borrows, and shared immutable borrows.  Parsing and
//! printing are left to the surrounding program; the analysis itself works on
//! the syntax model in [`ast`] and reports through [`diagnostics`].
//!
//! Almost everything here is verified.  The only outside code relied on is
//! the parser crate's byte-offset-to-line lookup (wrapped in [`lines`]) and
//! the standard library's character append for strings (wrapped in
//! [`strings`]); each wrapper's contract says exactly what is assumed of
//! the call behind it.

pub mod strings;
pub mod tables;
pub mod ast;
pub mod borrows;
pub mod checker;
pub mod diagnostics;
pub mod laws;
pub mod lines;
pub mod merge;
pub mod ownership;
pub mod scope;
pub mod traversal;
pub mod typing;
pub mod variable;
