//! A first sketch of the grammar of the language.
use vstd::prelude::*;

use crate::lexer::compiler_data::{Keywords, Tokens};
use vstd::string::StringExecFns;

verus! {

/// Builds the grammar rule of `if` (the rule is not used yet).
pub fn tokenize(file: String) {
    let _if = SyntaxNode {
        kind: Kinds::Token(Tokens::Keyword(Keywords::If)),
        node: vec![
            NodeOptional::Expect(SyntaxNode { kind: Kinds::Value, node: vec![] }),
            NodeOptional::Expect(SyntaxNode { kind: Kinds::Block, node: vec![] }),
            NodeOptional::Maybe(
                SyntaxNode {
                    kind: Kinds::Word(String::from_str("else if")),
                    node: vec![
                        NodeOptional::Expect(SyntaxNode { kind: Kinds::Value, node: vec![] }),
                        NodeOptional::Expect(SyntaxNode { kind: Kinds::Block, node: vec![] }),
                        NodeOptional::Jmp(3),
                    ],
                },
            ),
            NodeOptional::Maybe(
                SyntaxNode {
                    kind: Kinds::Word(String::from_str("else")),
                    node: vec![NodeOptional::Expect(SyntaxNode { kind: Kinds::Block, node: vec![] })],
                },
            ),
        ],
    };
}

pub struct SyntaxNode {
    kind: Kinds,
    node: Vec<NodeOptional>,
}

pub enum NodeOptional {
    Expect(SyntaxNode),
    Maybe(SyntaxNode),
    Jmp(i128),
    End(Tokens),
}

pub enum Kinds {
    Token(Tokens),
    Block,
    Value,
    Word(String),
}

} // verus!
