use rusty_danda::compiler::compiler::{
    compile_file, find_keyword, find_ws_rc, global_keyword, match_keyword, validate_identifier,
    KEYWORDS,
};
use rusty_danda::compiler::compiler_data::Keywords;

#[test]
fn validate_identifier_accepts_names() {
    assert!(validate_identifier("counter"));
    assert!(validate_identifier("x1"));
    assert!(validate_identifier("returned"));
}

#[test]
fn validate_identifier_rejects_keywords() {
    assert!(!validate_identifier("return"));
    assert!(!validate_identifier("if"));
    assert!(!validate_identifier("//"));
}

#[test]
fn validate_identifier_rejects_reserved_and_space() {
    assert!(!validate_identifier("a+b"));
    assert!(!validate_identifier("a b"));
    assert!(!validate_identifier("name;"));
    assert!(!validate_identifier("tab\there"));
}

#[test]
fn find_keyword_trims_first() {
    assert_eq!(find_keyword("   while x"), Some(9));
    assert_eq!(find_keyword("\treturn 5"), Some(11));
    assert_eq!(find_keyword("x return"), None);
    assert_eq!(find_keyword("   "), None);
}

#[test]
fn match_keyword_table() {
    let expected = [
        Keywords::If,
        Keywords::Switch,
        Keywords::Let,
        Keywords::Const,
        Keywords::Function,
        Keywords::Struct,
        Keywords::Enum,
        Keywords::Loop,
        Keywords::For,
        Keywords::While,
        Keywords::DoWhile,
        Keywords::Return,
        Keywords::Break,
        Keywords::Continue,
        Keywords::Lib,
        Keywords::Use,
        Keywords::CommentLine,
        Keywords::CommentBlock,
    ];
    for (i, key) in KEYWORDS.iter().enumerate() {
        assert_eq!(match_keyword(key), expected[i]);
    }
    assert_eq!(match_keyword("yeet"), Keywords::Value);
    assert_eq!(match_keyword("trait"), Keywords::Value);
}

#[test]
fn global_keyword_table() {
    for k in [
        Keywords::Lib,
        Keywords::Use,
        Keywords::Const,
        Keywords::Function,
        Keywords::Struct,
        Keywords::Enum,
        Keywords::CommentLine,
        Keywords::CommentBlock,
    ] {
        assert!(global_keyword(k));
    }
    for k in [
        Keywords::If,
        Keywords::Switch,
        Keywords::Let,
        Keywords::Loop,
        Keywords::For,
        Keywords::While,
        Keywords::DoWhile,
        Keywords::Return,
        Keywords::Break,
        Keywords::Continue,
        Keywords::Value,
    ] {
        assert!(!global_keyword(k));
    }
}

#[test]
fn find_ws_rc_offsets() {
    assert_eq!(find_ws_rc("name=5"), 4);
    assert_eq!(find_ws_rc("name 5"), 4);
    assert_eq!(find_ws_rc("name"), 4);
    assert_eq!(find_ws_rc("ñame(x)"), 5);
}

#[test]
fn compile_file_runs() {
    compile_file(String::from("main.rd"), String::from("out"));
}

#[test]
fn every_keyword_name_is_reserved() {
    for key in KEYWORDS.iter() {
        assert!(!validate_identifier(key));
        assert_ne!(match_keyword(key), Keywords::Value);
    }
}
