use rusty_danda::ast_parser::ast_parser::analize_tree;
use rusty_danda::lexer::lexemes::{Operators, Tokens};

fn txt(s: &str) -> Tokens {
    Tokens::Text(String::from(s))
}

fn string(s: &str) -> Tokens {
    Tokens::String(String::from(s))
}

#[test]
fn head_with_parameters_and_expected_node() {
    let mut tokens = vec![
        txt("h"),
        txt("p"),
        Tokens::SquareBracket(false),
        txt("a"),
        Tokens::Tab,
        txt("k"),
        txt("n"),
        Tokens::Operator(Operators::Equal),
        string("v"),
        Tokens::Operator(Operators::Not),
    ];
    let tree = analize_tree(&mut tokens);
    assert_eq!(tree.len(), 1);
    assert_eq!(
        format!("{:?}", tree[0]),
        "Head { name: \"h\", parameters: [Value(\"p\"), Array(\"a\")], nodes: [Expect(Node { kind: Text(\"k\"), arguments: [NodeParam { name: \"n\", value: \"v\" }], nodes: [] })] }"
    );
    // the node's kind token was taken out of the list
    assert_eq!(tokens.len(), 9);
    assert_eq!(tokens[5], txt("n"));
}

#[test]
fn nested_condition_with_optional_node() {
    let mut tokens = vec![
        txt("h"),
        Tokens::Tab,
        txt("n"),
        Tokens::Operator(Operators::Equal),
        string("v"),
        Tokens::Tab,
        Tokens::Tab,
        txt("k"),
        Tokens::Optional,
        Tokens::Operator(Operators::Not),
    ];
    let tree = analize_tree(&mut tokens);
    assert_eq!(tree.len(), 1);
    assert_eq!(
        format!("{:?}", tree[0]),
        "Head { name: \"h\", parameters: [], nodes: [ArgsCondition(ArgsCon { params: [NodeParam { name: \"n\", value: \"v\" }], nodes: [Maybe(Node { kind: Text(\"k\"), arguments: [], nodes: [] })] })] }"
    );
    assert_eq!(
        tokens,
        vec![
            txt("h"),
            Tokens::Tab,
            txt("n"),
            Tokens::Operator(Operators::Equal),
            string("v"),
            Tokens::Tab,
            Tokens::Tab,
            Tokens::Operator(Operators::Not),
        ]
    );
}

#[test]
fn two_heads_with_commands() {
    let mut tokens = vec![
        txt("x"),
        Tokens::Tab,
        txt("k"),
        Tokens::Operator(Operators::Not),
        Tokens::Operator(Operators::Add),
        txt("y"),
        Tokens::Tab,
        txt("m"),
        Tokens::Operator(Operators::Not),
        Tokens::Operator(Operators::Sub),
    ];
    let tree = analize_tree(&mut tokens);
    assert_eq!(tree.len(), 2);
    assert_eq!(
        format!("{:?}", tree[0]),
        "Head { name: \"x\", parameters: [], nodes: [Command(Node { kind: Text(\"k\"), arguments: [], nodes: [] })] }"
    );
    assert_eq!(
        format!("{:?}", tree[1]),
        "Head { name: \"y\", parameters: [], nodes: [Command(Node { kind: Text(\"m\"), arguments: [], nodes: [] })] }"
    );
    assert_eq!(
        tokens,
        vec![
            txt("x"),
            Tokens::Tab,
            Tokens::Operator(Operators::Add),
            txt("y"),
            Tokens::Tab,
            Tokens::Operator(Operators::Sub),
        ]
    );
}

#[test]
fn closing_bracket_in_parameters_ends_reading() {
    let mut tokens = vec![txt("x"), Tokens::SquareBracket(true)];
    let tree = analize_tree(&mut tokens);
    assert_eq!(tree.len(), 0);
    assert_eq!(tokens, vec![txt("x"), Tokens::SquareBracket(true)]);
}

#[test]
fn no_tokens_no_heads() {
    let mut tokens: Vec<Tokens> = vec![];
    let tree = analize_tree(&mut tokens);
    assert_eq!(tree.len(), 0);
}

#[test]
fn head_must_start_with_a_name() {
    let mut tokens = vec![Tokens::Operator(Operators::Add), txt("x")];
    let tree = analize_tree(&mut tokens);
    assert_eq!(tree.len(), 0);
    assert_eq!(tokens.len(), 2);
}
