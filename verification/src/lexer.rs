//! The lexer: turns source text into a flat list of tokens.
pub mod compiler;
pub mod compiler_data;
pub mod lexemes;
