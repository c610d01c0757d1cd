//! TODO annotations as structured data.
//!
//! An annotation is a comment such as `// TODO(#12, @ann, 2030-01-31): note`.
//! The library reads the payload between the parentheses into fields, writes
//! fields back as canonical text, selects and counts annotations by their
//! fields, holds them to lint rules, and computes the lines of a file after a
//! batch of changes. Reading and writing files is left to the caller.

pub mod codemod;
pub mod date;
pub mod issue;
pub mod lint;
pub mod metadata;
pub mod query;
pub mod rewrite;
pub mod text;
pub mod todo;
