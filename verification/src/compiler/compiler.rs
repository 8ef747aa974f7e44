//! Identifier and keyword checks.
use vstd::prelude::*;

use super::compiler_data::{Dictionary, Keywords};
use crate::text::{
    byte_len, byte_offset, chars_of, find_stop, first_stop, lemma_byte_len_is_utf8_len,
    lemma_byte_offset_mono, lemma_stop_from_bounds, same_chars, starts_with, trim_chars, trimmed,
};

verus! {

/// The characters that end an identifier.
const RESERVED_CHARS: &'static str = "+-*/=%;:,.({<[]>})&|!?\"'\\";

pub const KEYWORDS: [&'static str; 18] = ["if", "switch", "let", "const", "fun", "struct", "enum", "loop", "for", "while", "do", "return", "break", "continue", "lib", "use", "//", "/*"];

/// The set of characters that end an identifier, as a sequence.
pub closed spec fn reserved_set() -> Seq<char> {
    RESERVED_CHARS@
}

/// The characters that end a word, one by one.
pub proof fn lemma_reserved_set()
    ensures
        reserved_set() == seq!['+', '-', '*', '/', '=', '%', ';', ':', ',', '.', '(', '{', '<', '[', ']', '>', '}', ')', '&', '|', '!', '?', '"', '\'', '\\'],
{
    reveal_strlit("+-*/=%;:,.({<[]>})&|!?\"'\\");
    assert(reserved_set() =~= seq!['+', '-', '*', '/', '=', '%', ';', ':', ',', '.', '(', '{', '<', '[', ']', '>', '}', ')', '&', '|', '!', '?', '"', '\'', '\\']);
}

/// The text of keyword number `i`.
pub open spec fn keyword_text(i: int) -> Seq<char> {
    KEYWORDS@[i]@
}

/// Index of the first keyword, from `i` on, that `s` starts with.
pub open spec fn keyword_from(s: Seq<char>, i: int) -> Option<usize>
    decreases 18 - i,
{
    if i >= 18 || i < 0 {
        None
    } else if keyword_text(i).is_prefix_of(s) {
        Some(i as usize)
    } else {
        keyword_from(s, i + 1)
    }
}

/// The keyword named exactly by `s` (`Value` when `s` names none).
pub open spec fn spec_match_keyword(s: Seq<char>) -> Keywords {
    if s == "if"@ {
        Keywords::If
    } else if s == "switch"@ {
        Keywords::Switch
    } else if s == "let"@ {
        Keywords::Let
    } else if s == "const"@ {
        Keywords::Const
    } else if s == "fun"@ {
        Keywords::Function
    } else if s == "struct"@ {
        Keywords::Struct
    } else if s == "enum"@ {
        Keywords::Enum
    } else if s == "loop"@ {
        Keywords::Loop
    } else if s == "for"@ {
        Keywords::For
    } else if s == "while"@ {
        Keywords::While
    } else if s == "do"@ {
        Keywords::DoWhile
    } else if s == "return"@ {
        Keywords::Return
    } else if s == "break"@ {
        Keywords::Break
    } else if s == "continue"@ {
        Keywords::Continue
    } else if s == "lib"@ {
        Keywords::Lib
    } else if s == "use"@ {
        Keywords::Use
    } else if s == "//"@ {
        Keywords::CommentLine
    } else if s == "/*"@ {
        Keywords::CommentBlock
    } else {
        Keywords::Value
    }
}

/// Keywords allowed at the top level of a file.
pub open spec fn is_global_keyword(k: Keywords) -> bool {
    match k {
        Keywords::Lib => true,
        Keywords::Use => true,
        Keywords::Const => true,
        Keywords::Function => true,
        Keywords::Struct => true,
        Keywords::Enum => true,
        Keywords::CommentLine => true,
        Keywords::CommentBlock => true,
        _ => false,
    }
}

/// `s` holds no reserved character and no white space.
pub open spec fn has_no_reserved(s: Seq<char>) -> bool {
    first_stop(s, reserved_set()) == s.len()
}

/// `s` can name a new identifier: no reserved character, no white space,
/// and it is not a keyword.
pub open spec fn is_valid_identifier(s: Seq<char>) -> bool {
    has_no_reserved(s) && spec_match_keyword(s) == Keywords::Value
}

/// Keyword names are reserved: the text of a keyword is never a valid
/// identifier.
pub proof fn law_keywords_are_reserved(i: int)
    requires
        0 <= i < 18,
    ensures
        spec_match_keyword(keyword_text(i)) != Keywords::Value,
        !is_valid_identifier(keyword_text(i)),
{
    reveal_strlit("if");
    reveal_strlit("switch");
    reveal_strlit("let");
    reveal_strlit("const");
    reveal_strlit("fun");
    reveal_strlit("struct");
    reveal_strlit("enum");
    reveal_strlit("loop");
    reveal_strlit("for");
    reveal_strlit("while");
    reveal_strlit("do");
    reveal_strlit("return");
    reveal_strlit("break");
    reveal_strlit("continue");
    reveal_strlit("lib");
    reveal_strlit("use");
    reveal_strlit("//");
    reveal_strlit("/*");
    assert(i == 0 || i == 1 || i == 2 || i == 3 || i == 4 || i == 5 || i == 6 || i == 7 || i == 8 || i == 9 || i == 10 || i == 11 || i == 12 || i == 13 || i == 14 || i == 15 || i == 16 || i == 17);
}

/// Creates the global dictionary a compilation starts from.
pub fn compile_file(file: String, target: String) {
    let mut global = Dictionary::new();
}

pub fn validate_identifier(string: &str) -> (b: bool)
    requires
        byte_len(string@) <= usize::MAX,
    ensures
        b == is_valid_identifier(string@),
{
    let found = find_ws_rc(string);
    let len = string.len();
    proof {
        let k = first_stop(string@, reserved_set());
        lemma_stop_from_bounds(string@, reserved_set(), 0);
        lemma_byte_len_is_utf8_len(string@);
        lemma_byte_offset_mono(string@, k, string@.len() as int);
        assert(string@.take(string@.len() as int) =~= string@);
    }
    if found == len {
        if match_keyword(string) == Keywords::Value {
            return true;
        }
        // syntax err: keyword names are reserved
        return false;
    }
    // syntax err: identifier contains reserved character
    false
}

/// returns index of found keyword in const KEYWORDS
pub fn find_keyword(string: &str) -> (r: Option<usize>)
    ensures
        r == keyword_from(trimmed(string@), 0),
{
    let v = chars_of(string);
    let t = trim_chars(&v);
    let mut i: usize = 0;
    while i < 18
        invariant
            i <= 18,
            t@ == trimmed(string@),
            keyword_from(t@, 0) == keyword_from(t@, i as int),
        decreases 18 - i,
    {
        let key = chars_of(KEYWORDS[i]);
        if starts_with(&t, &key) {
            return Some(i);
        }
        i = i + 1;
    }
    None
}

pub fn match_keyword(string: &str) -> (k: Keywords)
    ensures
        k == spec_match_keyword(string@),
{
    let v = chars_of(string);
    if same_chars(&v, &chars_of("if")) {
        Keywords::If
    } else if same_chars(&v, &chars_of("switch")) {
        Keywords::Switch
    } else if same_chars(&v, &chars_of("let")) {
        Keywords::Let
    } else if same_chars(&v, &chars_of("const")) {
        Keywords::Const
    } else if same_chars(&v, &chars_of("fun")) {
        Keywords::Function
    } else if same_chars(&v, &chars_of("struct")) {
        Keywords::Struct
    } else if same_chars(&v, &chars_of("enum")) {
        Keywords::Enum
    } else if same_chars(&v, &chars_of("loop")) {
        Keywords::Loop
    } else if same_chars(&v, &chars_of("for")) {
        Keywords::For
    } else if same_chars(&v, &chars_of("while")) {
        Keywords::While
    } else if same_chars(&v, &chars_of("do")) {
        Keywords::DoWhile
    } else if same_chars(&v, &chars_of("return")) {
        Keywords::Return
    } else if same_chars(&v, &chars_of("break")) {
        Keywords::Break
    } else if same_chars(&v, &chars_of("continue")) {
        Keywords::Continue
    } else if same_chars(&v, &chars_of("lib")) {
        Keywords::Lib
    } else if same_chars(&v, &chars_of("use")) {
        Keywords::Use
    } else if same_chars(&v, &chars_of("//")) {
        Keywords::CommentLine
    } else if same_chars(&v, &chars_of("/*")) {
        Keywords::CommentBlock
    } else {
        Keywords::Value
    }
}

pub fn global_keyword(keyword: Keywords) -> (b: bool)
    ensures
        b == is_global_keyword(keyword),
{
    match keyword {
        Keywords::Lib => true,
        Keywords::Use => true,
        Keywords::Const => true,
        Keywords::Function => true,
        Keywords::Struct => true,
        Keywords::Enum => true,
        Keywords::CommentLine => true,
        Keywords::CommentBlock => true,
        _ => false,
    }
}

/// Byte offset in `expression` of its first reserved or white-space
/// character; the byte length of `expression` when there is none.
pub fn find_ws_rc(expression: &str) -> (idx: usize)
    requires
        byte_len(expression@) <= usize::MAX,
    ensures
        idx == byte_offset(expression@, first_stop(expression@, reserved_set())),
{
    let e = chars_of(expression);
    let set = chars_of(RESERVED_CHARS);
    let r = find_stop(&e, &set);
    r.1
}

} // verus!
