use rusty_danda::lexer::compiler_data::{Keywords, Tokens};
use rusty_danda::parser::syntax::{get_token_block, tokenize, Kinds, ParseErr};
use rusty_danda::syntax::syntax as first_syntax;
use rusty_danda::words::dictionary::{get_word, Words};

fn txt(s: &str) -> Tokens {
    Tokens::Text(String::from(s))
}

#[test]
fn block_up_to_matching_brace() {
    let mut tokens = vec![
        Tokens::CurlyBracket(false),
        txt("a"),
        Tokens::CurlyBracket(false),
        txt("b"),
        Tokens::CurlyBracket(true),
        Tokens::CurlyBracket(true),
        txt("rest"),
    ];
    let block = get_token_block(Kinds::Block, &mut tokens).unwrap();
    assert_eq!(
        block,
        vec![
            Tokens::CurlyBracket(false),
            txt("a"),
            Tokens::CurlyBracket(false),
            txt("b"),
            Tokens::CurlyBracket(true),
        ]
    );
    assert_eq!(tokens, vec![Tokens::CurlyBracket(true), txt("rest")]);
}

#[test]
fn block_must_open_with_brace() {
    let mut tokens = vec![txt("a"), Tokens::CurlyBracket(true)];
    assert!(matches!(get_token_block(Kinds::Block, &mut tokens), Err(ParseErr::UnexpectedToken)));
    assert_eq!(tokens.len(), 2);
    let mut tokens = vec![Tokens::CurlyBracket(true)];
    assert!(matches!(get_token_block(Kinds::Block, &mut tokens), Err(ParseErr::UnexpectedToken)));
}

#[test]
fn block_never_closed() {
    let mut tokens = vec![Tokens::CurlyBracket(false), txt("a"), Tokens::CurlyBracket(false)];
    assert!(matches!(get_token_block(Kinds::Block, &mut tokens), Err(ParseErr::FileEnd)));
    assert_eq!(tokens.len(), 3);
}

#[test]
fn value_up_to_semicolon_or_colon() {
    let mut tokens = vec![txt("x"), Tokens::Parenteses(false), txt("y"), Tokens::Parenteses(true), Tokens::Semicolon, txt("z")];
    let value = get_token_block(Kinds::Value, &mut tokens).unwrap();
    assert_eq!(value, vec![txt("x"), Tokens::Parenteses(false), txt("y"), Tokens::Parenteses(true)]);
    assert_eq!(tokens, vec![Tokens::Semicolon, txt("z")]);

    let mut tokens = vec![txt("k"), Tokens::Colon, txt("v")];
    let value = get_token_block(Kinds::Value, &mut tokens).unwrap();
    assert_eq!(value, vec![txt("k")]);
    assert_eq!(tokens, vec![Tokens::Colon, txt("v")]);
}

#[test]
fn value_empty_when_first_is_semicolon() {
    let mut tokens = vec![Tokens::Semicolon];
    let value = get_token_block(Kinds::Value, &mut tokens).unwrap();
    assert!(value.is_empty());
    assert_eq!(tokens, vec![Tokens::Semicolon]);
}

#[test]
fn value_without_end() {
    let mut tokens = vec![txt("x"), txt("y")];
    assert!(matches!(get_token_block(Kinds::Value, &mut tokens), Err(ParseErr::FileEnd)));
    assert_eq!(tokens.len(), 2);
}

#[test]
fn other_kinds_have_no_rule() {
    let mut tokens = vec![txt("x"), Tokens::Semicolon];
    assert!(matches!(
        get_token_block(Kinds::Token(Tokens::Keyword(Keywords::If)), &mut tokens),
        Err(ParseErr::Unhandled)
    ));
    assert!(matches!(
        get_token_block(Kinds::Word(String::from("else")), &mut tokens),
        Err(ParseErr::Unhandled)
    ));
    assert_eq!(tokens.len(), 2);
}

#[test]
fn rules_build() {
    tokenize(String::from("if x {}"));
    first_syntax::tokenize(String::from("if x {}"));
    get_word(&vec![Words::Keyword, Words::Value]);
}
