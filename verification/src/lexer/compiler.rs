//! Splitting source text into tokens.
use vstd::prelude::*;

use super::compiler_data::{Keywords, Operators, Tokens};
use crate::text::{
    byte_len, byte_offset, char_width, chars_of, find_stop, find_stop_at, first_stop, is_stop, is_ws,
    lemma_byte_len_concat, lemma_byte_len_is_utf8_len, lemma_byte_offset_step,
    lemma_stop_from_bounds, same_chars, starts_with_at, string_from_range, utf8_width,
};

verus! {

const RESERVED_CHARS: &'static str = " +-*/=%;:,.({<[]>})&|!?\"'\\";

pub const KEYWORDS: [&'static str; 19] = ["if", "switch", "let", "const", "fun", "struct", "trait", "enum", "loop", "for", "while", "do", "yeet", "break", "continue", "lib", "use", "//", "/*"];

pub const GLOBALS: [Keywords; 9] = [
    Keywords::Lib,
    Keywords::Use,
    Keywords::Const,
    Keywords::Function,
    Keywords::Struct,
    Keywords::Trait,
    Keywords::Enum,
    Keywords::CommentLine,
    Keywords::CommentBlock,
];

pub const VALUE_HOLDERS: [Keywords; 3] = [Keywords::If, Keywords::Loop, Keywords::Switch];

/// The characters that end a word.
pub closed spec fn reserved_set() -> Seq<char> {
    RESERVED_CHARS@
}

/// The characters that end a word, one by one.
pub proof fn lemma_reserved_set()
    ensures
        reserved_set() == seq![' ', '+', '-', '*', '/', '=', '%', ';', ':', ',', '.', '(', '{', '<', '[', ']', '>', '}', ')', '&', '|', '!', '?', '"', '\'', '\\'],
{
    reveal_strlit(" +-*/=%;:,.({<[]>})&|!?\"'\\");
    assert(reserved_set() =~= seq![' ', '+', '-', '*', '/', '=', '%', ';', ':', ',', '.', '(', '{', '<', '[', ']', '>', '}', ')', '&', '|', '!', '?', '"', '\'', '\\']);
}

/// The text of keyword number `i`.
pub open spec fn keyword_text(i: int) -> Seq<char> {
    KEYWORDS@[i]@
}

/// Index of the first keyword, from `i` on, that `s` starts with.
pub open spec fn keyword_from(s: Seq<char>, i: int) -> Option<usize>
    decreases 19 - i,
{
    if i >= 19 || i < 0 {
        None
    } else if keyword_text(i).is_prefix_of(s) {
        Some(i as usize)
    } else {
        keyword_from(s, i + 1)
    }
}

/// Index of the first keyword in `KEYWORDS` that `s` starts with.
pub open spec fn spec_find_keyword(s: Seq<char>) -> Option<usize> {
    keyword_from(s, 0)
}

/// The keyword named exactly by `s` (`Value` when `s` names none).
pub open spec fn spec_parse_keyword(s: Seq<char>) -> Keywords {
    if s == "if"@ {
        Keywords::If
    } else if s == "switch"@ {
        Keywords::Switch
    } else if s == "let"@ {
        Keywords::Let
    } else if s == "const"@ {
        Keywords::Const
    } else if s == "fun"@ {
        Keywords::Function
    } else if s == "struct"@ {
        Keywords::Struct
    } else if s == "trait"@ {
        Keywords::Trait
    } else if s == "enum"@ {
        Keywords::Enum
    } else if s == "loop"@ {
        Keywords::Loop
    } else if s == "for"@ {
        Keywords::For
    } else if s == "while"@ {
        Keywords::While
    } else if s == "do"@ {
        Keywords::DoWhile
    } else if s == "yeet"@ {
        Keywords::Return
    } else if s == "break"@ {
        Keywords::Break
    } else if s == "continue"@ {
        Keywords::Continue
    } else if s == "lib"@ {
        Keywords::Lib
    } else if s == "use"@ {
        Keywords::Use
    } else if s == "//"@ {
        Keywords::CommentLine
    } else if s == "/*"@ {
        Keywords::CommentBlock
    } else {
        Keywords::Value
    }
}

/// The token that the single-symbol text `s` stands for, if it is one.
pub open spec fn symbol_token(s: Seq<char>) -> Option<Tokens> {
    if s == "+"@ {
        Some(Tokens::Operator(Operators::Add))
    } else if s == "-"@ {
        Some(Tokens::Operator(Operators::Sub))
    } else if s == "*"@ {
        Some(Tokens::Operator(Operators::Mul))
    } else if s == "/"@ {
        Some(Tokens::Operator(Operators::Div))
    } else if s == "="@ {
        Some(Tokens::Operator(Operators::Equal))
    } else if s == "%"@ {
        Some(Tokens::Operator(Operators::Mod))
    } else if s == "&"@ {
        Some(Tokens::Operator(Operators::And))
    } else if s == "|"@ {
        Some(Tokens::Operator(Operators::Or))
    } else if s == "!"@ {
        Some(Tokens::Operator(Operators::Not))
    } else if s == "?"@ {
        Some(Tokens::Optional)
    } else if s == ";"@ {
        Some(Tokens::Semicolon)
    } else if s == ":"@ {
        Some(Tokens::Colon)
    } else if s == ","@ {
        Some(Tokens::Comma)
    } else if s == "."@ {
        Some(Tokens::Dot)
    } else if s == "\""@ {
        Some(Tokens::DoubleQuotes)
    } else if s == "'"@ {
        Some(Tokens::Quotes)
    } else if s == "("@ {
        Some(Tokens::Parenteses(false))
    } else if s == ")"@ {
        Some(Tokens::Parenteses(true))
    } else if s == "{"@ {
        Some(Tokens::CurlyBracket(false))
    } else if s == "}"@ {
        Some(Tokens::CurlyBracket(true))
    } else if s == "<"@ {
        Some(Tokens::AngleBracket(false))
    } else if s == ">"@ {
        Some(Tokens::AngleBracket(true))
    } else if s == "["@ {
        Some(Tokens::SquareBracket(false))
    } else if s == "]"@ {
        Some(Tokens::SquareBracket(true))
    } else if s == " "@ {
        Some(Tokens::Space)
    } else {
        None
    }
}

/// `t` is the token `parse_token` gives for the text `s`.
pub open spec fn is_token_of(t: Tokens, s: Seq<char>) -> bool {
    match symbol_token(s) {
        Some(k) => t == k,
        None => t matches Tokens::Text(x) && x@ == s,
    }
}

/// Number of characters of `s` that `get_token` consumes.
pub open spec fn token_len(s: Seq<char>) -> int {
    match spec_find_keyword(s) {
        Some(i) => keyword_text(i as int).len() as int,
        None => if first_stop(s, reserved_set()) == 0 {
            1
        } else {
            first_stop(s, reserved_set())
        },
    }
}

/// `t` is the token `get_token` reads at the start of `s`.
pub open spec fn is_lexed_token(t: Tokens, s: Seq<char>) -> bool {
    match spec_find_keyword(s) {
        Some(i) => t == Tokens::Keyword(spec_parse_keyword(keyword_text(i as int))),
        None => is_token_of(t, s.take(token_len(s))),
    }
}

/// A white-space character whose UTF-8 encoding is longer than one byte.
pub open spec fn is_wide_ws(c: char) -> bool {
    is_ws(c) && utf8_width(c) > 1
}

/// The remaining texts at which `parse` reads its tokens, in order.
pub open spec fn token_starts(s: Seq<char>) -> Seq<Seq<char>>
    decreases s.len(),
{
    if s.len() == 0 {
        seq![]
    } else if 0 < token_len(s) <= s.len() {
        seq![s] + token_starts(s.skip(token_len(s)))
    } else {
        seq![s]
    }
}

proof fn lemma_keyword_from(s: Seq<char>, i: int)
    requires
        0 <= i,
    ensures
        match keyword_from(s, i) {
            Some(k) => i <= k < 19 && keyword_text(k as int).is_prefix_of(s),
            None => forall|j: int| i <= j < 19 ==> !(#[trigger] keyword_text(j)).is_prefix_of(s),
        },
    decreases 19 - i,
{
    if i < 19 && !keyword_text(i).is_prefix_of(s) {
        lemma_keyword_from(s, i + 1);
    }
}

/// Every keyword is a non-empty text.
pub proof fn lemma_keywords_nonempty(i: int)
    requires
        0 <= i < 19,
    ensures
        keyword_text(i).len() >= 1,
{
    reveal_strlit("if");
    reveal_strlit("switch");
    reveal_strlit("let");
    reveal_strlit("const");
    reveal_strlit("fun");
    reveal_strlit("struct");
    reveal_strlit("trait");
    reveal_strlit("enum");
    reveal_strlit("loop");
    reveal_strlit("for");
    reveal_strlit("while");
    reveal_strlit("do");
    reveal_strlit("yeet");
    reveal_strlit("break");
    reveal_strlit("continue");
    reveal_strlit("lib");
    reveal_strlit("use");
    reveal_strlit("//");
    reveal_strlit("/*");
}

/// A token read from non-empty text consumes at least one character and
/// no more than the text holds.
pub proof fn lemma_token_len_bounds(s: Seq<char>)
    requires
        s.len() > 0,
    ensures
        1 <= token_len(s) <= s.len(),
{
    lemma_keyword_from(s, 0);
    lemma_stop_from_bounds(s, reserved_set(), 0);
    if let Some(i) = spec_find_keyword(s) {
        lemma_keywords_nonempty(i as int);
    }
}

/// returns index of found keyword in const KEYWORDS
pub fn find_keyword(string: &str) -> (r: Option<usize>)
    ensures
        r == spec_find_keyword(string@),
{
    let v = chars_of(string);
    assert(v@.skip(0) =~= v@);
    find_keyword_at(&v, 0)
}

fn find_keyword_at(v: &Vec<char>, at: usize) -> (r: Option<usize>)
    requires
        at <= v@.len(),
    ensures
        r == spec_find_keyword(v@.skip(at as int)),
{
    let mut i: usize = 0;
    while i < 19
        invariant
            i <= 19,
            at <= v@.len(),
            spec_find_keyword(v@.skip(at as int)) == keyword_from(v@.skip(at as int), i as int),
        decreases 19 - i,
    {
        let key = chars_of(KEYWORDS[i]);
        if starts_with_at(v, at, &key) {
            return Some(i);
        }
        i = i + 1;
    }
    None
}

pub fn parse_keyword(string: &str) -> (k: Keywords)
    ensures
        k == spec_parse_keyword(string@),
{
    let v = chars_of(string);
    if same_chars(&v, &chars_of("if")) {
        Keywords::If
    } else if same_chars(&v, &chars_of("switch")) {
        Keywords::Switch
    } else if same_chars(&v, &chars_of("let")) {
        Keywords::Let
    } else if same_chars(&v, &chars_of("const")) {
        Keywords::Const
    } else if same_chars(&v, &chars_of("fun")) {
        Keywords::Function
    } else if same_chars(&v, &chars_of("struct")) {
        Keywords::Struct
    } else if same_chars(&v, &chars_of("trait")) {
        Keywords::Trait
    } else if same_chars(&v, &chars_of("enum")) {
        Keywords::Enum
    } else if same_chars(&v, &chars_of("loop")) {
        Keywords::Loop
    } else if same_chars(&v, &chars_of("for")) {
        Keywords::For
    } else if same_chars(&v, &chars_of("while")) {
        Keywords::While
    } else if same_chars(&v, &chars_of("do")) {
        Keywords::DoWhile
    } else if same_chars(&v, &chars_of("yeet")) {
        Keywords::Return
    } else if same_chars(&v, &chars_of("break")) {
        Keywords::Break
    } else if same_chars(&v, &chars_of("continue")) {
        Keywords::Continue
    } else if same_chars(&v, &chars_of("lib")) {
        Keywords::Lib
    } else if same_chars(&v, &chars_of("use")) {
        Keywords::Use
    } else if same_chars(&v, &chars_of("//")) {
        Keywords::CommentLine
    } else if same_chars(&v, &chars_of("/*")) {
        Keywords::CommentBlock
    } else {
        Keywords::Value
    }
}

pub fn parse_token(string: &str) -> (t: Tokens)
    ensures
        is_token_of(t, string@),
{
    let v = chars_of(string);
    let t = token_of_range(&v, 0, v.len());
    assert(v@.subrange(0, v@.len() as int) =~= string@);
    t
}

fn token_of_range(s: &Vec<char>, a: usize, b: usize) -> (t: Tokens)
    requires
        a <= b <= s@.len(),
    ensures
        is_token_of(t, s@.subrange(a as int, b as int)),
{
    let v = slice_chars(s, a, b);
    if same_chars(&v, &chars_of("+")) {
        Tokens::Operator(Operators::Add)
    } else if same_chars(&v, &chars_of("-")) {
        Tokens::Operator(Operators::Sub)
    } else if same_chars(&v, &chars_of("*")) {
        Tokens::Operator(Operators::Mul)
    } else if same_chars(&v, &chars_of("/")) {
        Tokens::Operator(Operators::Div)
    } else if same_chars(&v, &chars_of("=")) {
        Tokens::Operator(Operators::Equal)
    } else if same_chars(&v, &chars_of("%")) {
        Tokens::Operator(Operators::Mod)
    } else if same_chars(&v, &chars_of("&")) {
        Tokens::Operator(Operators::And)
    } else if same_chars(&v, &chars_of("|")) {
        Tokens::Operator(Operators::Or)
    } else if same_chars(&v, &chars_of("!")) {
        Tokens::Operator(Operators::Not)
    } else if same_chars(&v, &chars_of("?")) {
        Tokens::Optional
    } else if same_chars(&v, &chars_of(";")) {
        Tokens::Semicolon
    } else if same_chars(&v, &chars_of(":")) {
        Tokens::Colon
    } else if same_chars(&v, &chars_of(",")) {
        Tokens::Comma
    } else if same_chars(&v, &chars_of(".")) {
        Tokens::Dot
    } else if same_chars(&v, &chars_of("\"")) {
        Tokens::DoubleQuotes
    } else if same_chars(&v, &chars_of("'")) {
        Tokens::Quotes
    } else if same_chars(&v, &chars_of("(")) {
        Tokens::Parenteses(false)
    } else if same_chars(&v, &chars_of(")")) {
        Tokens::Parenteses(true)
    } else if same_chars(&v, &chars_of("{")) {
        Tokens::CurlyBracket(false)
    } else if same_chars(&v, &chars_of("}")) {
        Tokens::CurlyBracket(true)
    } else if same_chars(&v, &chars_of("<")) {
        Tokens::AngleBracket(false)
    } else if same_chars(&v, &chars_of(">")) {
        Tokens::AngleBracket(true)
    } else if same_chars(&v, &chars_of("[")) {
        Tokens::SquareBracket(false)
    } else if same_chars(&v, &chars_of("]")) {
        Tokens::SquareBracket(true)
    } else if same_chars(&v, &chars_of(" ")) {
        Tokens::Space
    } else {
        Tokens::Text(string_from_range(s, a, b))
    }
}

fn slice_chars(s: &Vec<char>, a: usize, b: usize) -> (v: Vec<char>)
    requires
        a <= b <= s@.len(),
    ensures
        v@ == s@.subrange(a as int, b as int),
{
    let mut v: Vec<char> = Vec::new();
    let mut i: usize = a;
    while i < b
        invariant
            a <= i <= b <= s@.len(),
            v@ == s@.subrange(a as int, i as int),
        decreases b - i,
    {
        v.push(s[i]);
        assert(s@.subrange(a as int, i + 1) =~= s@.subrange(a as int, i as int).push(s@[i as int]));
        i = i + 1;
    }
    v
}

/// Lowers `original` to `compared` when that is given and smaller.
pub fn compare(original: &mut usize, compared: Option<usize>)
    ensures
        *final(original) == match compared {
            Some(c) => if c < *old(original) {
                c
            } else {
                *old(original)
            },
            None => *old(original),
        },
{
    if let Some(compared) = compared {
        if compared < *original {
            *original = compared
        }
    }
}

/// Byte offset in `expression` of its first character that occurs in
/// `str` or is white space; the byte length of `expression` when there is
/// none.
pub fn find_ws_str(expression: &str, str: &str) -> (idx: usize)
    requires
        byte_len(expression@) <= usize::MAX,
    ensures
        idx == byte_offset(expression@, first_stop(expression@, str@)),
{
    let e = chars_of(expression);
    let set = chars_of(str);
    let r = find_stop(&e, &set);
    r.1
}

/// Reads one token at the start of `line`; returns it with the number of
/// bytes it takes.
pub fn get_token(line: &str) -> (r: (Tokens, usize))
    requires
        line@.len() > 0,
        !is_wide_ws(line@[0]),
        byte_len(line@) <= usize::MAX,
    ensures
        is_lexed_token(r.0, line@),
        r.1 == byte_offset(line@, token_len(line@)),
{
    let v = chars_of(line);
    assert(v@.skip(0) =~= v@);
    let (t, bytes, _n) = get_token_at(&v, 0);
    (t, bytes)
}

/// Reads one token at position `at` of `v`; returns it with the number of
/// bytes and of characters it takes.
fn get_token_at(v: &Vec<char>, at: usize) -> (r: (Tokens, usize, usize))
    requires
        at < v@.len(),
        byte_len(v@.skip(at as int)) <= usize::MAX,
    ensures
        is_lexed_token(r.0, v@.skip(at as int)),
        r.2 == token_len(v@.skip(at as int)),
        r.1 == byte_offset(v@.skip(at as int), r.2 as int),
        1 <= r.2 <= v@.len() - at,
{
    let ghost s = v@.skip(at as int);
    let n = v.len();
    proof {
        lemma_token_len_bounds(s);
        lemma_keyword_from(s, 0);
        lemma_stop_from_bounds(s, reserved_set(), 0);
    }
    if let Some(idx) = find_keyword_at(v, at) {
        // keyword
        let key = chars_of(KEYWORDS[idx]);
        let kw = parse_keyword(KEYWORDS[idx]);
        let bytes = KEYWORDS[idx].len();
        proof {
            lemma_byte_len_is_utf8_len(keyword_text(idx as int));
            assert(s.take(key@.len() as int) =~= key@);
            assert(s =~= s.take(key@.len() as int) + s.skip(key@.len() as int));
            lemma_byte_len_concat(s.take(key@.len() as int), s.skip(key@.len() as int));
            assert(byte_len(key@) <= usize::MAX);
        }
        (Tokens::Keyword(kw), bytes, key.len())
    } else {
        // expression
        let set = chars_of(RESERVED_CHARS);
        let (k, bytes) = find_stop_at(v, at, &set);
        if k == 0 {
            proof {
                lemma_byte_offset_step(s, 0);
                assert(s.take(0) =~= Seq::<char>::empty());
            }
            let t = token_of_range(v, at, at + 1);
            assert(v@.subrange(at as int, at + 1) =~= s.take(1));
            (t, char_width(v[at]), 1)
        } else {
            let t = token_of_range(v, at, at + k);
            assert(v@.subrange(at as int, (at + k) as int) =~= s.take(k as int));
            (t, bytes, k)
        }
    }
}

/// Reads the tokens of `file` from start to end.
pub fn parse(file: String, target: String) -> (tokens: Vec<Tokens>)
    requires
        byte_len(file@) <= usize::MAX,
        forall|i: int| 0 <= i < file@.len() ==> !is_wide_ws(#[trigger] file@[i]),
    ensures
        tokens@.len() == token_starts(file@).len(),
        forall|j: int|
            0 <= j < tokens@.len() ==> is_lexed_token(#[trigger] tokens@[j], token_starts(file@)[j]),
{
    let v = chars_of(file.as_str());
    let mut tokens: Vec<Tokens> = vec![];
    let mut i: usize = 0;
    let ghost mut done: Seq<Seq<char>> = seq![];
    proof {
        assert(v@.skip(0) =~= v@);
        assert(done + token_starts(v@.skip(0)) =~= token_starts(file@));
    }
    while i < v.len()
        invariant
            i <= v@.len(),
            v@ == file@,
            byte_len(file@) <= usize::MAX,
            token_starts(file@) == done + token_starts(v@.skip(i as int)),
            tokens@.len() == done.len(),
            forall|j: int| 0 <= j < tokens@.len() ==> is_lexed_token(#[trigger] tokens@[j], done[j]),
        decreases v@.len() - i,
    {
        let ghost rest = v@.skip(i as int);
        proof {
            assert(v@ =~= v@.take(i as int) + rest);
            lemma_byte_len_concat(v@.take(i as int), rest);
        }
        let res = get_token_at(&v, i);
        tokens.push(res.0);
        proof {
            assert(rest.skip(res.2 as int) =~= v@.skip(i + res.2));
            assert(token_starts(rest) == seq![rest] + token_starts(rest.skip(res.2 as int)));
            assert(done.push(rest) + token_starts(v@.skip(i + res.2)) =~= done + token_starts(rest));
            done = done.push(rest);
        }
        i += res.2;
    }
    proof {
        assert(v@.skip(i as int) =~= Seq::<char>::empty());
        assert(done + token_starts(v@.skip(i as int)) =~= done);
    }
    tokens
}


proof fn lemma_no_symbol(w: Seq<char>)
    requires
        w.len() > 0,
        forall|j: int| 0 <= j < w.len() ==> !(#[trigger] reserved_set().contains(w[j])),
    ensures
        symbol_token(w) is None,
{
    reveal_strlit(" ");
    reveal_strlit("+");
    reveal_strlit("-");
    reveal_strlit("*");
    reveal_strlit("/");
    reveal_strlit("=");
    reveal_strlit("%");
    reveal_strlit(";");
    reveal_strlit(":");
    reveal_strlit(",");
    reveal_strlit(".");
    reveal_strlit("(");
    reveal_strlit("{");
    reveal_strlit("<");
    reveal_strlit("[");
    reveal_strlit("]");
    reveal_strlit(">");
    reveal_strlit("}");
    reveal_strlit(")");
    reveal_strlit("&");
    reveal_strlit("|");
    reveal_strlit("!");
    reveal_strlit("?");
    reveal_strlit("\"");
    reveal_strlit("'");
    reveal_strlit("\\");
    lemma_reserved_set();
    if symbol_token(w) is Some {
        assert(w.len() == 1);
        let c = w[0];
        if c == ' ' {
            assert(reserved_set()[0] == c);
        } else if c == '+' {
            assert(reserved_set()[1] == c);
        } else if c == '-' {
            assert(reserved_set()[2] == c);
        } else if c == '*' {
            assert(reserved_set()[3] == c);
        } else if c == '/' {
            assert(reserved_set()[4] == c);
        } else if c == '=' {
            assert(reserved_set()[5] == c);
        } else if c == '%' {
            assert(reserved_set()[6] == c);
        } else if c == ';' {
            assert(reserved_set()[7] == c);
        } else if c == ':' {
            assert(reserved_set()[8] == c);
        } else if c == ',' {
            assert(reserved_set()[9] == c);
        } else if c == '.' {
            assert(reserved_set()[10] == c);
        } else if c == '(' {
            assert(reserved_set()[11] == c);
        } else if c == '{' {
            assert(reserved_set()[12] == c);
        } else if c == '<' {
            assert(reserved_set()[13] == c);
        } else if c == '[' {
            assert(reserved_set()[14] == c);
        } else if c == ']' {
            assert(reserved_set()[15] == c);
        } else if c == '>' {
            assert(reserved_set()[16] == c);
        } else if c == '}' {
            assert(reserved_set()[17] == c);
        } else if c == ')' {
            assert(reserved_set()[18] == c);
        } else if c == '&' {
            assert(reserved_set()[19] == c);
        } else if c == '|' {
            assert(reserved_set()[20] == c);
        } else if c == '!' {
            assert(reserved_set()[21] == c);
        } else if c == '?' {
            assert(reserved_set()[22] == c);
        } else if c == '"' {
            assert(reserved_set()[23] == c);
        } else if c == '\'' {
            assert(reserved_set()[24] == c);
        } else if c == '\\' {
            assert(reserved_set()[25] == c);
        }
        assert(reserved_set().contains(c));
    }
}

/// A word is read whole: text that starts with no keyword is read up to
/// the first reserved character or white space, as one text token of all
/// the characters before it.
pub proof fn law_words_read_whole(s: Seq<char>, k: int)
    requires
        0 < k <= s.len(),
        forall|j: int| 0 <= j < k ==> !is_stop(#[trigger] s[j], reserved_set()),
        k < s.len() ==> is_stop(s[k], reserved_set()),
        forall|i: int| 0 <= i < 19 ==> !(#[trigger] keyword_text(i)).is_prefix_of(s),
    ensures
        token_len(s) == k,
        forall|t: Tokens| is_lexed_token(t, s) <==> (t matches Tokens::Text(x) && x@ == s.take(k)),
{
    lemma_keyword_from(s, 0);
    if let Some(i) = keyword_from(s, 0) {
        assert(keyword_text(i as int).is_prefix_of(s));
    }
    lemma_stop_from_bounds(s, reserved_set(), 0);
    let e = first_stop(s, reserved_set());
    if e < k {
        assert(!is_stop(s[e], reserved_set()));
    }
    if e > k {
        assert(!is_stop(s[k], reserved_set()));
    }
    assert(e == k);
    lemma_no_symbol(s.take(k));
}

/// A reserved character or white space that starts no keyword is read
/// alone, as the token of that one character.
pub proof fn law_symbols_read_alone(s: Seq<char>)
    requires
        s.len() > 0,
        is_stop(s[0], reserved_set()),
        forall|i: int| 0 <= i < 19 ==> !(#[trigger] keyword_text(i)).is_prefix_of(s),
    ensures
        token_len(s) == 1,
        forall|t: Tokens| is_lexed_token(t, s) <==> is_token_of(t, seq![s[0]]),
{
    lemma_keyword_from(s, 0);
    if let Some(i) = keyword_from(s, 0) {
        assert(keyword_text(i as int).is_prefix_of(s));
    }
    assert(first_stop(s, reserved_set()) == 0);
    assert(s.take(1) =~= seq![s[0]]);
}

/// Every keyword is read as itself: searching `KEYWORDS` for a keyword's
/// text finds that keyword's own position, and its text names a keyword
/// (never `Value`).
pub proof fn law_keywords_read_as_themselves(i: int)
    requires
        0 <= i < 19,
    ensures
        spec_find_keyword(keyword_text(i)) == Some(i as usize),
        spec_parse_keyword(keyword_text(i)) != Keywords::Value,
{
    reveal_strlit("if");
    reveal_strlit("switch");
    reveal_strlit("let");
    reveal_strlit("const");
    reveal_strlit("fun");
    reveal_strlit("struct");
    reveal_strlit("trait");
    reveal_strlit("enum");
    reveal_strlit("loop");
    reveal_strlit("for");
    reveal_strlit("while");
    reveal_strlit("do");
    reveal_strlit("yeet");
    reveal_strlit("break");
    reveal_strlit("continue");
    reveal_strlit("lib");
    reveal_strlit("use");
    reveal_strlit("//");
    reveal_strlit("/*");
    lemma_no_earlier_keyword_prefix(i);
    assert(keyword_text(i).is_prefix_of(keyword_text(i))) by {
        assert(keyword_text(i).subrange(0, keyword_text(i).len() as int) =~= keyword_text(i));
    }
    lemma_first_keyword_is(keyword_text(i), i);
}

/// No keyword is a prefix of a keyword listed after it.
proof fn lemma_no_earlier_keyword_prefix(i: int)
    requires
        0 <= i < 19,
    ensures
        forall|j: int| 0 <= j < i ==> !(#[trigger] keyword_text(j)).is_prefix_of(keyword_text(i)),
{
    reveal_strlit("if");
    reveal_strlit("switch");
    reveal_strlit("let");
    reveal_strlit("const");
    reveal_strlit("fun");
    reveal_strlit("struct");
    reveal_strlit("trait");
    reveal_strlit("enum");
    reveal_strlit("loop");
    reveal_strlit("for");
    reveal_strlit("while");
    reveal_strlit("do");
    reveal_strlit("yeet");
    reveal_strlit("break");
    reveal_strlit("continue");
    reveal_strlit("lib");
    reveal_strlit("use");
    reveal_strlit("//");
    reveal_strlit("/*");
    assert forall|j: int| 0 <= j < i implies !(#[trigger] keyword_text(j)).is_prefix_of(keyword_text(i)) by {
        assert(i == 0 || i == 1 || i == 2 || i == 3 || i == 4 || i == 5 || i == 6 || i == 7 || i == 8 || i == 9 || i == 10 || i == 11 || i == 12 || i == 13 || i == 14 || i == 15 || i == 16 || i == 17 || i == 18);
        assert(j == 0 || j == 1 || j == 2 || j == 3 || j == 4 || j == 5 || j == 6 || j == 7 || j == 8 || j == 9 || j == 10 || j == 11 || j == 12 || j == 13 || j == 14 || j == 15 || j == 16 || j == 17 || j == 18);
        let d: int = if keyword_text(j)[0] != keyword_text(i)[0] {
            0
        } else if keyword_text(j)[1] != keyword_text(i)[1] {
            1
        } else {
            3
        };
        assert(d < keyword_text(j).len() && d < keyword_text(i).len() && keyword_text(j)[d] != keyword_text(i)[d]);
        if keyword_text(j).is_prefix_of(keyword_text(i)) {
            assert(keyword_text(i).subrange(0, keyword_text(j).len() as int)[d] == keyword_text(i)[d]);
        }
    }
}

proof fn lemma_first_keyword_is(s: Seq<char>, i: int)
    requires
        0 <= i < 19,
        keyword_text(i).is_prefix_of(s),
        forall|j: int| 0 <= j < i ==> !(#[trigger] keyword_text(j)).is_prefix_of(s),
    ensures
        spec_find_keyword(s) == Some(i as usize),
{
    lemma_keyword_from_skips(s, 0, i);
}

proof fn lemma_keyword_from_skips(s: Seq<char>, j: int, i: int)
    requires
        0 <= j <= i < 19,
        keyword_text(i).is_prefix_of(s),
        forall|m: int| j <= m < i ==> !(#[trigger] keyword_text(m)).is_prefix_of(s),
    ensures
        keyword_from(s, j) == Some(i as usize),
    decreases i - j,
{
    if j < i {
        lemma_keyword_from_skips(s, j + 1, i);
    }
}

} // verus!
