use rusty_danda::lexer::compiler_data::Keywords;
use rusty_danda::lexer::lexemes::{Operators, Tokens};
use rusty_danda::token_refactor::refactorer::refactor;

fn txt(s: &str) -> Tokens {
    Tokens::Text(String::from(s))
}

fn positions(n: usize) -> Vec<(usize, usize)> {
    (0..n).map(|i| (1, i + 1)).collect()
}

#[test]
fn line_comment_is_taken_out() {
    let tokens = vec![
        txt("a"),
        Tokens::Operator(Operators::Div),
        Tokens::Operator(Operators::Div),
        txt("x"),
        txt("\n"),
        txt("b"),
    ];
    let mut lines = positions(6);
    let mut errors = vec![];
    let refined = refactor(tokens, &mut lines, &mut errors);
    assert_eq!(refined, vec![txt("a"), txt("b")]);
    assert_eq!(lines, vec![(1, 1), (1, 6)]);
    assert!(errors.is_empty());
}

#[test]
fn comment_keyword_is_taken_out() {
    let tokens = vec![Tokens::Keyword(Keywords::CommentLine), txt("note"), txt("\n"), txt("b")];
    let mut lines = positions(4);
    let mut errors = vec![];
    let refined = refactor(tokens, &mut lines, &mut errors);
    assert_eq!(refined, vec![txt("b")]);
    assert_eq!(lines, vec![(1, 4)]);
}

#[test]
fn block_comment_and_semicolon_run() {
    let tokens = vec![
        Tokens::Operator(Operators::Div),
        Tokens::Operator(Operators::Mul),
        txt("x"),
        Tokens::Operator(Operators::Mul),
        txt("y"),
        Tokens::Operator(Operators::Mul),
        Tokens::Operator(Operators::Div),
        Tokens::Semicolon,
        Tokens::Semicolon,
        Tokens::Semicolon,
        txt("z"),
    ];
    let mut lines = positions(11);
    let mut errors = vec![];
    let refined = refactor(tokens, &mut lines, &mut errors);
    assert_eq!(refined, vec![Tokens::Semicolon, txt("z")]);
    assert_eq!(lines, vec![(1, 8), (1, 11)]);
}

#[test]
fn operators_and_numbers() {
    let tokens = vec![
        Tokens::Operator(Operators::Add),
        Tokens::Operator(Operators::Equal),
        Tokens::Operator(Operators::Div),
        Tokens::Operator(Operators::Equal),
        txt("5"),
        txt("x"),
    ];
    let mut lines = positions(6);
    let mut errors = vec![];
    let refined = refactor(tokens, &mut lines, &mut errors);
    assert_eq!(
        refined,
        vec![
            Tokens::Operator(Operators::AddEq),
            Tokens::Operator(Operators::DivEq),
            Tokens::Number(5, 0, 'i'),
            txt("x"),
        ]
    );
    assert_eq!(lines, vec![(1, 1), (1, 3), (1, 5), (1, 6)]);
}

#[test]
fn blanks_and_tabs_go_strings_join() {
    let tokens = vec![
        txt("\t"),
        Tokens::Space,
        Tokens::DoubleQuotes,
        txt("hi"),
        Tokens::Space,
        Tokens::Semicolon,
        Tokens::DoubleQuotes,
        Tokens::Colon,
        Tokens::Colon,
        txt("a"),
    ];
    let mut lines = positions(10);
    let mut errors = vec![];
    let refined = refactor(tokens, &mut lines, &mut errors);
    assert_eq!(
        refined,
        vec![Tokens::String(String::from("hi ;")), Tokens::DoubleColon, txt("a")]
    );
    assert_eq!(lines, vec![(1, 3), (1, 8), (1, 10)]);
}

#[test]
fn lone_semicolon_and_slash_stay() {
    let tokens = vec![
        Tokens::Semicolon,
        txt("a"),
        Tokens::Operator(Operators::Div),
        txt("b"),
    ];
    let mut lines = positions(4);
    let mut errors = vec![];
    let refined = refactor(tokens.clone(), &mut lines, &mut errors);
    assert_eq!(refined, tokens);
    assert_eq!(lines, positions(4));
}
