//! A scanner and a compiler from a small Lisp-like language into editor
//! configuration statements.

pub mod compiler;
pub mod expr;
pub mod lexer;
pub mod text;
