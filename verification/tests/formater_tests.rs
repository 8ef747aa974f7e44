use rusty_danda::ast_parser::formater::refactor;
use rusty_danda::lexer::lexemes::{deparse_token, Operators, Tokens};
use rusty_danda::token_refactor::parse_err::Errors;

fn txt(s: &str) -> Tokens {
    Tokens::Text(String::from(s))
}

fn positions(n: usize) -> Vec<(usize, usize)> {
    (0..n).map(|i| (1, i + 1)).collect()
}

fn number_error(e: &Errors) -> ((usize, usize), String) {
    match e {
        Errors::InvalidNumber(pos, text) => (*pos, text.clone()),
        Errors::UnexpectedToken(_, _) => panic!("not a number error"),
    }
}

#[test]
fn quoted_run_becomes_one_string() {
    let tokens = vec![
        Tokens::DoubleQuotes,
        txt("hello"),
        Tokens::Space,
        txt("world"),
        Tokens::DoubleQuotes,
        txt("x"),
    ];
    let mut lines = positions(6);
    let mut errors = vec![];
    let refined = refactor(tokens, &mut lines, &mut errors);
    assert_eq!(refined, vec![Tokens::String(String::from("hello world")), txt("x")]);
    assert_eq!(lines, vec![(1, 1), (1, 6)]);
    assert!(errors.is_empty());
}

#[test]
fn unclosed_quote_takes_the_rest() {
    let tokens = vec![txt("a"), Tokens::DoubleQuotes, txt("b"), Tokens::Colon];
    let mut lines = positions(4);
    let mut errors = vec![];
    let refined = refactor(tokens, &mut lines, &mut errors);
    assert_eq!(refined, vec![txt("a"), Tokens::String(String::from("b:"))]);
    assert_eq!(lines, vec![(1, 1), (1, 2)]);
    assert!(errors.is_empty());
}

#[test]
fn numbers_and_joined_operators() {
    let tokens = vec![
        txt("12"),
        Tokens::Dot,
        txt("5"),
        txt("7"),
        txt("3u"),
        txt("9x9"),
        Tokens::Operator(Operators::Add),
        Tokens::Operator(Operators::Equal),
        txt("abc"),
    ];
    let mut lines = positions(9);
    let mut errors = vec![];
    let refined = refactor(tokens, &mut lines, &mut errors);
    assert_eq!(
        refined,
        vec![
            Tokens::Number(12, 5, 'f'),
            Tokens::Number(7, 0, 'i'),
            Tokens::Number(3, 0, 'u'),
            txt("9x9"),
            Tokens::Operator(Operators::AddEq),
            txt("abc"),
        ]
    );
    assert_eq!(lines, vec![(1, 1), (1, 4), (1, 5), (1, 6), (1, 7), (1, 9)]);
    assert_eq!(errors.len(), 1);
    assert_eq!(number_error(&errors[0]), ((1, 6), String::from("9x9")));
}

#[test]
fn blanks_go_tabs_stay_pairs_join() {
    let tokens = vec![
        txt("\t"),
        Tokens::Space,
        txt("  "),
        txt("a"),
        Tokens::Colon,
        Tokens::Colon,
        txt("b"),
        Tokens::AngleBracket(true),
        Tokens::Operator(Operators::Equal),
        txt("c"),
    ];
    let mut lines = positions(10);
    let mut errors = vec![];
    let refined = refactor(tokens, &mut lines, &mut errors);
    assert_eq!(
        refined,
        vec![
            Tokens::Tab,
            txt("a"),
            Tokens::DoubleColon,
            txt("b"),
            Tokens::Operator(Operators::LessEq),
            txt("c"),
        ]
    );
    assert_eq!(lines, vec![(1, 1), (1, 4), (1, 5), (1, 7), (1, 8), (1, 10)]);
    assert!(errors.is_empty());
}

#[test]
fn malformed_fraction_is_reported() {
    let tokens = vec![txt("1"), Tokens::Dot, txt("x"), txt("y")];
    let mut lines = positions(4);
    let mut errors = vec![];
    let refined = refactor(tokens, &mut lines, &mut errors);
    assert_eq!(refined, vec![txt("1"), Tokens::Dot, txt("x"), txt("y")]);
    assert_eq!(lines, positions(4));
    assert_eq!(errors.len(), 1);
    assert_eq!(number_error(&errors[0]), ((1, 1), String::from("1.x")));
}

#[test]
fn fraction_may_carry_a_plus_sign() {
    let tokens = vec![txt("1"), Tokens::Dot, txt("+5"), txt("z")];
    let mut lines = positions(4);
    let mut errors = vec![];
    let refined = refactor(tokens, &mut lines, &mut errors);
    assert_eq!(refined, vec![Tokens::Number(1, 5, 'f'), txt("z")]);
    assert_eq!(lines, vec![(1, 1), (1, 4)]);
    assert!(errors.is_empty());
}

#[test]
fn other_operators_and_closing_brackets_are_kept() {
    let tokens = vec![
        Tokens::Operator(Operators::Mod),
        Tokens::Operator(Operators::Not),
        Tokens::Operator(Operators::Equal),
        Tokens::Operator(Operators::Equal),
        Tokens::Operator(Operators::Equal),
        Tokens::AngleBracket(false),
        Tokens::Operator(Operators::Equal),
        Tokens::SquareBracket(true),
    ];
    let mut lines = positions(8);
    let mut errors = vec![];
    let refined = refactor(tokens, &mut lines, &mut errors);
    assert_eq!(
        refined,
        vec![
            Tokens::Operator(Operators::Mod),
            Tokens::Operator(Operators::NotEqual),
            Tokens::Operator(Operators::DoubleEq),
            Tokens::Operator(Operators::MoreEq),
            Tokens::SquareBracket(true),
        ]
    );
    assert_eq!(lines, vec![(1, 1), (1, 2), (1, 4), (1, 6), (1, 8)]);
}

#[test]
fn no_tokens() {
    let mut lines = vec![];
    let mut errors = vec![];
    let refined = refactor(vec![], &mut lines, &mut errors);
    assert!(refined.is_empty());
}

#[test]
fn tokens_read_back_as_text() {
    assert_eq!(deparse_token(&Tokens::Operator(Operators::AddEq)), "+=");
    assert_eq!(deparse_token(&Tokens::Number(3, 25, 'f')), "3.25");
    assert_eq!(deparse_token(&Tokens::Number(40, 0, 'i')), "40");
    assert_eq!(deparse_token(&Tokens::Number(7, 0, 'u')), "7u");
    assert_eq!(deparse_token(&Tokens::String(String::from("hi"))), "\"hi\"");
    assert_eq!(deparse_token(&Tokens::Tab), "\t");
    assert_eq!(deparse_token(&txt("word")), "word");
}

#[test]
fn no_blank_tokens_remain() {
    let tokens = vec![
        Tokens::Space,
        txt(" "),
        txt("a"),
        Tokens::Space,
        Tokens::DoubleQuotes,
        Tokens::Space,
        txt("b"),
        Tokens::DoubleQuotes,
        txt(""),
        Tokens::Space,
        txt("c"),
    ];
    let mut lines = positions(11);
    let mut errors = vec![];
    let refined = refactor(tokens, &mut lines, &mut errors);
    assert_eq!(refined, vec![txt("a"), Tokens::String(String::from(" b")), txt("c")]);
    assert_eq!(lines.len(), refined.len());
    for t in &refined {
        assert_ne!(*t, Tokens::Space);
        if let Tokens::Text(s) = t {
            assert!(!s.chars().all(|c| c.is_whitespace()));
        }
    }
}
