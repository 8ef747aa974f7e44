//! Grammar rules of the language and reading token blocks by them.
use vstd::prelude::*;

use crate::lexer::compiler_data::{Keywords, Tokens};
use vstd::string::StringExecFns;

verus! {

/// Builds the grammar rules (they are not used yet).
pub fn tokenize(file: String) {
    let parse_rules = get_rules();
}

/// Change of the `{ }` nesting depth caused by a token.
pub open spec fn curly_delta(t: Tokens) -> int {
    match t {
        Tokens::CurlyBracket(closing) => if closing {
            -1
        } else {
            1
        },
        _ => 0,
    }
}

/// Position of the `}` that closes a block, scanning from `i` at depth `d`.
pub open spec fn block_close_from(t: Seq<Tokens>, i: int, d: int) -> Option<int>
    decreases t.len() - i,
{
    if i >= t.len() || i < 0 {
        None
    } else if d + curly_delta(t[i]) == 0 {
        Some(i)
    } else {
        block_close_from(t, i + 1, d + curly_delta(t[i]))
    }
}

/// The nesting depth stays within `i32` while scanning from `i` at depth `d`
/// until the block closes.
pub open spec fn block_depth_fits(t: Seq<Tokens>, i: int, d: int) -> bool
    decreases t.len() - i,
{
    if i >= t.len() || i < 0 {
        true
    } else {
        let d2 = d + curly_delta(t[i]);
        &&& i32::MIN <= d2 <= i32::MAX
        &&& (d2 == 0 || block_depth_fits(t, i + 1, d2))
    }
}

/// Position of the first `;` or `:`, which ends a value.
pub open spec fn value_end_from(t: Seq<Tokens>, i: int) -> Option<int>
    decreases t.len() - i,
{
    if i >= t.len() || i < 0 {
        None
    } else if t[i] is Semicolon || t[i] is Colon {
        Some(i)
    } else {
        value_end_from(t, i + 1)
    }
}

proof fn lemma_value_end_from(t: Seq<Tokens>, i: int)
    requires
        0 <= i,
    ensures
        match value_end_from(t, i) {
            Some(e) => i <= e < t.len() && (t[e] is Semicolon || t[e] is Colon) && forall|j: int|
                i <= j < e ==> !(#[trigger] t[j] is Semicolon || t[j] is Colon),
            None => forall|j: int| i <= j < t.len() ==> !(#[trigger] t[j] is Semicolon || t[j] is Colon),
        },
    decreases t.len() - i,
{
    if i < t.len() && !(t[i] is Semicolon || t[i] is Colon) {
        lemma_value_end_from(t, i + 1);
    }
}

/// A value ends exactly at the first `;` or `:` of the tokens: every token
/// before it, whatever it is (a `,` too), belongs to the value; with no `;`
/// or `:` the value never ends.
pub proof fn law_value_ends_at_first_separator(t: Seq<Tokens>)
    ensures
        match value_end_from(t, 0) {
            Some(e) => 0 <= e < t.len() && (t[e] is Semicolon || t[e] is Colon) && forall|j: int|
                0 <= j < e ==> !(#[trigger] t[j] is Semicolon || t[j] is Colon),
            None => forall|j: int| 0 <= j < t.len() ==> !(#[trigger] t[j] is Semicolon || t[j] is Colon),
        },
{
    lemma_value_end_from(t, 0);
}

/// The `{ }` nesting depth before position `m` of a block that opens at
/// position 0: 1 after the opening `{`, then changed by each token.
pub open spec fn curly_depth(t: Seq<Tokens>, m: int) -> int
    decreases m,
{
    if m <= 1 {
        1
    } else {
        curly_depth(t, m - 1) + curly_delta(t[m - 1])
    }
}

proof fn lemma_block_close_from(t: Seq<Tokens>, i: int)
    requires
        1 <= i,
    ensures
        match block_close_from(t, i, curly_depth(t, i)) {
            Some(e) => i <= e < t.len() && curly_depth(t, e + 1) == 0 && forall|m: int|
                i < m <= e ==> #[trigger] curly_depth(t, m) != 0,
            None => forall|m: int| i < m <= t.len() ==> #[trigger] curly_depth(t, m) != 0,
        },
    decreases t.len() - i,
{
    if i < t.len() {
        assert(curly_depth(t, i + 1) == curly_depth(t, i) + curly_delta(t[i]));
        if curly_depth(t, i) + curly_delta(t[i]) != 0 {
            lemma_block_close_from(t, i + 1);
        }
    }
}

/// A block ends at the `}` that brings the nesting depth back to 0: the
/// depth (1 after the opening `{`, one more for each `{`, one less for
/// each `}`) is 0 just after it and not before; when the depth never comes
/// back to 0 the block never ends.
pub proof fn law_block_ends_where_depth_returns_to_zero(t: Seq<Tokens>)
    ensures
        match block_close_from(t, 1, 1) {
            Some(e) => 1 <= e < t.len() && curly_depth(t, e + 1) == 0 && forall|m: int|
                1 <= m <= e ==> #[trigger] curly_depth(t, m) != 0,
            None => forall|m: int| 1 <= m <= t.len() ==> #[trigger] curly_depth(t, m) != 0,
        },
{
    lemma_block_close_from(t, 1);
}

/// Reads from the front of `tokens` a code block (from its `{` up to, not
/// including, the matching `}`) or a value (up to, not including, the first
/// `;` or `:`), removing what was read from `tokens`.
pub fn get_token_block(kind: Kinds, tokens: &mut Vec<Tokens>) -> (r: Result<Vec<Tokens>, ParseErr>)
    requires
        kind is Block ==> old(tokens)@.len() > 0,
        kind is Block ==> block_depth_fits(old(tokens)@, 1, 1),
    ensures
        match kind {
            Kinds::Block => if !(old(tokens)@[0] matches Tokens::CurlyBracket(closing) && !closing) {
                r == Err::<Vec<Tokens>, ParseErr>(ParseErr::UnexpectedToken) && final(tokens)@ == old(tokens)@
            } else {
                match block_close_from(old(tokens)@, 1, 1) {
                    Some(i) => r matches Ok(block) && block@ == old(tokens)@.take(i) && final(tokens)@ == old(tokens)@.skip(i),
                    None => r == Err::<Vec<Tokens>, ParseErr>(ParseErr::FileEnd) && final(tokens)@ == old(tokens)@,
                }
            },
            Kinds::Value => match value_end_from(old(tokens)@, 0) {
                Some(i) => r matches Ok(value) && value@ == old(tokens)@.take(i) && final(tokens)@ == old(tokens)@.skip(i),
                None => r == Err::<Vec<Tokens>, ParseErr>(ParseErr::FileEnd) && final(tokens)@ == old(tokens)@,
            },
            _ => r == Err::<Vec<Tokens>, ParseErr>(ParseErr::Unhandled) && final(tokens)@ == old(tokens)@,
        },
{
    match kind {
        Kinds::Block => {
            let mut cur_brackets: i32 = 1;
            let mut i: usize = 1;
            if let Tokens::CurlyBracket(bol) = tokens[0] {
                if bol {
                    return Err(ParseErr::UnexpectedToken);
                    // syntax err: expected "{" at the start of code block, found "}"
                }
            } else {
                return Err(ParseErr::UnexpectedToken);
                // syntax err: expected "{" at the start of code block
            }
            loop
                invariant
                    1 <= i <= tokens@.len(),
                    tokens@ == old(tokens)@,
                    kind is Block,
                    old(tokens)@[0] == Tokens::CurlyBracket(false),
                    block_close_from(tokens@, 1, 1) == block_close_from(tokens@, i as int, cur_brackets as int),
                    block_depth_fits(tokens@, i as int, cur_brackets as int),
                    cur_brackets != 0,
                decreases tokens@.len() - i,
            {
                if i == tokens.len() {
                    return Err(ParseErr::FileEnd);
                    // syntax err: end of block never found
                }
                if let Tokens::CurlyBracket(bol) = tokens[i] {
                    cur_brackets += if bol {
                        -1
                    } else {
                        1
                    }
                }
                if cur_brackets == 0 {
                    return Ok(take_front(tokens, i));
                }
                i += 1;
            }
        },
        Kinds::Token(token) => {},
        Kinds::Value => {
            let mut i: usize = 0;
            loop
                invariant
                    i <= tokens@.len(),
                    tokens@ == old(tokens)@,
                    kind is Value,
                    value_end_from(tokens@, 0) == value_end_from(tokens@, i as int),
                ensures
                    i < tokens@.len(),
                    tokens@ == old(tokens)@,
                    kind is Value,
                    value_end_from(tokens@, 0) == Some(i as int),
                decreases tokens@.len() - i,
            {
                if i == tokens.len() {
                    return Err(ParseErr::FileEnd);
                }
                let mut brackets: (i32, i32, i32, i32) = (0, 0, 0, 0);
                match tokens[i] {
                    Tokens::Parenteses(bol) => {
                        if bol {
                            brackets.0 += 1;
                            if brackets.0 == -1 {
                                break ;
                            }
                        } else {
                            brackets.0 -= 1;
                        }
                    },
                    Tokens::AngleBracket(bol) => {
                        if bol {
                            brackets.1 += 1;
                            if brackets.1 == -1 {
                                break ;
                            }
                        } else {
                            brackets.1 -= 1;
                        }
                    },
                    Tokens::CurlyBracket(bol) => {
                        if bol {
                            brackets.2 += 1;
                            if brackets.2 == -1 {
                                break ;
                            }
                        } else {
                            brackets.2 -= 1;
                        }
                    },
                    Tokens::SquareBracket(bol) => {
                        if bol {
                            brackets.3 += 1;
                            if brackets.3 == -1 {
                                break ;
                            }
                        } else {
                            brackets.3 -= 1;
                        }
                    },
                    Tokens::Semicolon => {
                        if brackets.0 == 0 && brackets.1 == 0 && brackets.2 == 0 && brackets.3 == 0 {
                            break ;
                        }
                    },
                    Tokens::Colon => {
                        if brackets.0 == 0 && brackets.1 == 0 && brackets.2 == 0 && brackets.3 == 0 {
                            break ;
                        }
                    },
                    _ => {},
                }
                i += 1;
            }
            return Ok(take_front(tokens, i));
        },
        Kinds::Word(txt) => {},
    }
    Err(ParseErr::Unhandled)
}

/// Removes the first `i` tokens from `tokens` and returns them.
fn take_front(tokens: &mut Vec<Tokens>, i: usize) -> (front: Vec<Tokens>)
    requires
        i <= old(tokens)@.len(),
    ensures
        front@ == old(tokens)@.take(i as int),
        final(tokens)@ == old(tokens)@.skip(i as int),
{
    let mut rest = tokens.split_off(i);
    core::mem::swap(tokens, &mut rest);
    rest
}

/// `op` expects (`maybe == false`) or may hold (`maybe == true`) a node
/// of kind `kind` with `children` nodes under it.
spec fn is_node(op: NodeOp, maybe: bool, kind: Kinds, children: nat) -> bool {
    match op {
        NodeOp::Expect(n) => !maybe && n.kind == kind && n.node@.len() == children,
        NodeOp::Maybe(n) => maybe && n.kind == kind && n.node@.len() == children,
        _ => false,
    }
}

/// `op` is a node whose kind is the word `w`, with `children` nodes under
/// it.
spec fn is_word_node(op: NodeOp, maybe: bool, w: Seq<char>, children: nat) -> bool {
    match op {
        NodeOp::Expect(n) => !maybe && (n.kind matches Kinds::Word(s) && s@ == w) && n.node@.len()
            == children,
        NodeOp::Maybe(n) => maybe && (n.kind matches Kinds::Word(s) && s@ == w) && n.node@.len()
            == children,
        _ => false,
    }
}

/// The nodes under the node `op`.
spec fn children(op: NodeOp) -> Seq<NodeOp> {
    match op {
        NodeOp::Expect(n) => n.node@,
        NodeOp::Maybe(n) => n.node@,
        _ => seq![],
    }
}

fn get_rules() -> (rules: Vec<SyntaxNodeHead>)
    ensures
        rules@.len() == 2,
        rules@[0].kind == Tokens::Keyword(Keywords::If),
        rules@[0].node@.len() == 4,
        is_node(rules@[0].node@[0], false, Kinds::Value, 0),
        is_node(rules@[0].node@[1], false, Kinds::Block, 0),
        is_word_node(rules@[0].node@[2], true, "else if"@, 3),
        is_node(children(rules@[0].node@[2])[0], false, Kinds::Value, 0),
        is_node(children(rules@[0].node@[2])[1], false, Kinds::Block, 0),
        children(rules@[0].node@[2])[2] == NodeOp::Jmp(3),
        is_word_node(rules@[0].node@[3], true, "else"@, 1),
        is_node(children(rules@[0].node@[3])[0], false, Kinds::Block, 0),
        rules@[1].kind == Tokens::Keyword(Keywords::Switch),
        rules@[1].node@.len() == 2,
        is_word_node(rules@[1].node@[0], false, "{"@, 3),
        is_node(children(rules@[1].node@[0])[0], true, Kinds::Value, 2),
        is_node(children(children(rules@[1].node@[0])[0])[0], false, Kinds::Block, 0),
        children(children(rules@[1].node@[0])[0])[1] == NodeOp::Jmp(2),
        is_word_node(children(rules@[1].node@[0])[1], true, "_"@, 1),
        is_node(children(children(rules@[1].node@[0])[1])[0], false, Kinds::Block, 0),
        children(rules@[1].node@[0])[2] == NodeOp::Jmp(3),
        is_word_node(rules@[1].node@[1], false, "}"@, 0),
{
    vec![
        SyntaxNodeHead {
            kind: Tokens::Keyword(Keywords::If),
            node: vec![
                NodeOp::Expect(SyntaxNode { kind: Kinds::Value, node: vec![] }),
                NodeOp::Expect(SyntaxNode { kind: Kinds::Block, node: vec![] }),
                NodeOp::Maybe(
                    SyntaxNode {
                        kind: Kinds::Word(String::from_str("else if")),
                        node: vec![
                            NodeOp::Expect(SyntaxNode { kind: Kinds::Value, node: vec![] }),
                            NodeOp::Expect(SyntaxNode { kind: Kinds::Block, node: vec![] }),
                            NodeOp::Jmp(3),
                        ],
                    },
                ),
                NodeOp::Maybe(
                    SyntaxNode {
                        kind: Kinds::Word(String::from_str("else")),
                        node: vec![NodeOp::Expect(SyntaxNode { kind: Kinds::Block, node: vec![] })],
                    },
                ),
            ],
        },
        SyntaxNodeHead {
            kind: Tokens::Keyword(Keywords::Switch),
            node: vec![
                NodeOp::Expect(
                    SyntaxNode {
                        kind: Kinds::Word(String::from_str("{")),
                        node: vec![
                            NodeOp::Maybe(
                                SyntaxNode {
                                    kind: Kinds::Value,
                                    node: vec![
                                        NodeOp::Expect(SyntaxNode { kind: Kinds::Block, node: vec![] }),
                                        NodeOp::Jmp(2),
                                    ],
                                },
                            ),
                            NodeOp::Maybe(
                                SyntaxNode {
                                    kind: Kinds::Word(String::from_str("_")),
                                    node: vec![NodeOp::Expect(SyntaxNode { kind: Kinds::Block, node: vec![] })],
                                },
                            ),
                            NodeOp::Jmp(3),
                        ],
                    },
                ),
                NodeOp::Expect(SyntaxNode { kind: Kinds::Word(String::from_str("}")), node: vec![] }),
            ],
        },
    ]
}

pub struct SyntaxNode {
    kind: Kinds,
    node: Vec<NodeOp>,
}

pub struct SyntaxNodeHead {
    kind: Tokens,
    node: Vec<NodeOp>,
}

pub enum NodeOp {
    Expect(SyntaxNode),
    Maybe(SyntaxNode),
    Jmp(i128),
    End(Tokens),
}

#[derive(PartialEq)]
pub enum Kinds {
    Token(Tokens),
    Block,
    Value,
    Word(String),
}

#[derive(Debug)]
pub enum ParseErr {
    /// the kind of block asked for has no reading rule
    Unhandled,
    UnexpectedToken,
    FileEnd,
}

} // verus!
