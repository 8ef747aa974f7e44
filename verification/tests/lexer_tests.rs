use rusty_danda::lexer::compiler::{
    compare, find_keyword, find_ws_str, get_token, parse, parse_keyword, parse_token, KEYWORDS,
};
use rusty_danda::lexer::compiler_data::{Dictionary, Keywords, Operators, Tokens};

#[test]
fn find_keyword_at_start() {
    assert_eq!(find_keyword("if x"), Some(0));
    assert_eq!(find_keyword("while(true)"), Some(10));
    assert_eq!(find_keyword("/* note */"), Some(18));
}

#[test]
fn find_keyword_only_at_start() {
    assert_eq!(find_keyword(" if"), None);
    assert_eq!(find_keyword("x if"), None);
    assert_eq!(find_keyword(""), None);
}

#[test]
fn find_keyword_matches_prefixes() {
    // "iffy" starts with the keyword "if"
    assert_eq!(find_keyword("iffy"), Some(0));
    assert_eq!(find_keyword("done"), Some(11));
}

#[test]
fn parse_keyword_every_keyword() {
    let expected = [
        Keywords::If,
        Keywords::Switch,
        Keywords::Let,
        Keywords::Const,
        Keywords::Function,
        Keywords::Struct,
        Keywords::Trait,
        Keywords::Enum,
        Keywords::Loop,
        Keywords::For,
        Keywords::While,
        Keywords::DoWhile,
        Keywords::Return,
        Keywords::Break,
        Keywords::Continue,
        Keywords::Lib,
        Keywords::Use,
        Keywords::CommentLine,
        Keywords::CommentBlock,
    ];
    for (i, key) in KEYWORDS.iter().enumerate() {
        assert_eq!(parse_keyword(key), expected[i]);
        assert_eq!(find_keyword(key), Some(i));
    }
}

#[test]
fn parse_keyword_other_text_is_value() {
    assert_eq!(parse_keyword("iffy"), Keywords::Value);
    assert_eq!(parse_keyword(""), Keywords::Value);
    assert_eq!(parse_keyword("return"), Keywords::Value);
}

#[test]
fn parse_token_symbols() {
    assert_eq!(parse_token("+"), Tokens::Operator(Operators::Add));
    assert_eq!(parse_token("-"), Tokens::Operator(Operators::Sub));
    assert_eq!(parse_token("*"), Tokens::Operator(Operators::Mul));
    assert_eq!(parse_token("/"), Tokens::Operator(Operators::Div));
    assert_eq!(parse_token("="), Tokens::Operator(Operators::Equal));
    assert_eq!(parse_token("%"), Tokens::Operator(Operators::Mod));
    assert_eq!(parse_token("&"), Tokens::Operator(Operators::And));
    assert_eq!(parse_token("|"), Tokens::Operator(Operators::Or));
    assert_eq!(parse_token("!"), Tokens::Operator(Operators::Not));
    assert_eq!(parse_token("?"), Tokens::Optional);
    assert_eq!(parse_token(";"), Tokens::Semicolon);
    assert_eq!(parse_token(":"), Tokens::Colon);
    assert_eq!(parse_token(","), Tokens::Comma);
    assert_eq!(parse_token("."), Tokens::Dot);
    assert_eq!(parse_token("\""), Tokens::DoubleQuotes);
    assert_eq!(parse_token("'"), Tokens::Quotes);
    assert_eq!(parse_token("("), Tokens::Parenteses(false));
    assert_eq!(parse_token(")"), Tokens::Parenteses(true));
    assert_eq!(parse_token("{"), Tokens::CurlyBracket(false));
    assert_eq!(parse_token("}"), Tokens::CurlyBracket(true));
    assert_eq!(parse_token("<"), Tokens::AngleBracket(false));
    assert_eq!(parse_token(">"), Tokens::AngleBracket(true));
    assert_eq!(parse_token("["), Tokens::SquareBracket(false));
    assert_eq!(parse_token("]"), Tokens::SquareBracket(true));
    assert_eq!(parse_token(" "), Tokens::Space);
}

#[test]
fn parse_token_text() {
    assert_eq!(parse_token("abc"), Tokens::Text(String::from("abc")));
    assert_eq!(parse_token("\\"), Tokens::Text(String::from("\\")));
    assert_eq!(parse_token("++"), Tokens::Text(String::from("++")));
    assert_eq!(parse_token(""), Tokens::Text(String::new()));
}

#[test]
fn compare_lowers_only() {
    let mut x = 10;
    compare(&mut x, Some(4));
    assert_eq!(x, 4);
    compare(&mut x, Some(7));
    assert_eq!(x, 4);
    compare(&mut x, None);
    assert_eq!(x, 4);
}

#[test]
fn find_ws_str_byte_offsets() {
    assert_eq!(find_ws_str("abc+def", "+"), 3);
    assert_eq!(find_ws_str("abc def", "+"), 3);
    assert_eq!(find_ws_str("abcdef", "+"), 6);
    assert_eq!(find_ws_str("ab\tc", ""), 2);
    // 'é' takes two bytes
    assert_eq!(find_ws_str("héllo world", ""), 6);
    assert_eq!(find_ws_str("", "+"), 0);
}

#[test]
fn get_token_keyword() {
    assert_eq!(get_token("if(x)"), (Tokens::Keyword(Keywords::If), 2));
    assert_eq!(get_token("yeet 5;"), (Tokens::Keyword(Keywords::Return), 4));
    assert_eq!(get_token("iffy"), (Tokens::Keyword(Keywords::If), 2));
}

#[test]
fn get_token_text_and_symbols() {
    assert_eq!(get_token("abc+1"), (Tokens::Text(String::from("abc")), 3));
    assert_eq!(get_token("+1"), (Tokens::Operator(Operators::Add), 1));
    assert_eq!(get_token(" x"), (Tokens::Space, 1));
    assert_eq!(get_token("\nx"), (Tokens::Text(String::from("\n")), 1));
    assert_eq!(get_token("héllo"), (Tokens::Text(String::from("héllo")), 6));
}

#[test]
fn parse_whole_file() {
    let tokens = parse(String::from("let x = 5;"), String::new());
    assert_eq!(
        tokens,
        vec![
            Tokens::Keyword(Keywords::Let),
            Tokens::Space,
            Tokens::Text(String::from("x")),
            Tokens::Space,
            Tokens::Operator(Operators::Equal),
            Tokens::Space,
            Tokens::Text(String::from("5")),
            Tokens::Semicolon,
        ]
    );
}

#[test]
fn parse_empty_file() {
    assert_eq!(parse(String::new(), String::new()), vec![]);
}

#[test]
fn lexer_dictionary_starts_empty() {
    let d = Dictionary::new();
    assert!(d.functions.is_empty());
    assert!(d.enums.is_empty());
    assert!(d.structs.is_empty());
    assert!(d.variables.is_empty());
    assert!(d.identifiers.is_empty());
}

#[test]
fn every_keyword_is_read_as_itself() {
    for (i, key) in KEYWORDS.iter().enumerate() {
        assert_eq!(find_keyword(key), Some(i));
        assert_ne!(parse_keyword(key), Keywords::Value);
    }
}
