//! A first sketch of the grammar of the language.
pub mod syntax;
