//! Typed views over a concrete syntax tree, and the construction of the
//! formatting intermediate representation from those views.

pub mod ast;
pub mod format;
pub mod syntax;
