use vstd::prelude::*;

pub mod text;
pub mod lexer;
pub mod compiler;
pub mod runtime;
pub mod writer;
pub mod test;
pub mod syntax;
pub mod parser;
pub mod words;
pub mod intermediate;
pub mod expression_parser;
pub mod codeblock_parser;
pub mod libloader;
pub mod dll_loader;
pub mod token_refactor;
pub mod ast_parser;

verus! {

} // verus!
