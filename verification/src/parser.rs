//! Grammar rules of the language and reading token blocks by them.
pub mod syntax;
