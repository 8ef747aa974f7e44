//! Reading grammar (AST description) files.
pub mod ast_parser;
pub mod formater;
