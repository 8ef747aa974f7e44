//! Token kinds handed from the tokenizer to the later passes: reading
//! grammar files, building expressions and filling dictionaries.
use vstd::prelude::*;

use crate::lexer::compiler_data::Keywords;
use crate::text::{dec_digits, push_char, push_dec, push_str};

verus! {

/// A token after tokenizing.
#[derive(Debug, PartialEq, Clone)]
pub enum Tokens {
    /// opening 0, closing 1
    SquareBracket(bool),
    /// opening 0, closing 1
    AngleBracket(bool),
    Operator(Operators),
    Colon,
    DoubleColon,
    Dot,
    DoubleQuotes,
    Optional,
    Semicolon,
    Space,
    Tab,
    Keyword(Keywords),
    /// content of a string literal
    String(String),
    /// number literal: integer part, fractional part, kind letter
    /// (`'i'` integer, `'f'` float, or the suffix letter written after it)
    Number(usize, usize, char),
    /// in case we can not identify token at the moment
    Text(String),
}

/// An operator token.
#[derive(Debug, PartialEq, Eq, Structural, Clone, Copy)]
pub enum Operators {
    Add,
    Sub,
    Mul,
    Div,
    Mod,
    AddEq,
    SubEq,
    MulEq,
    DivEq,
    Equal,
    DoubleEq,
    NotEqual,
    And,
    Or,
    Not,
    Ampersant,
    /// opening 0, closing 1
    AngleBracket(bool),
    LessEq,
    MoreEq,
    Plus,
    Minus,
    Star,
    Slash,
}

/// What a token holds, with its texts as character sequences.
pub enum Lexeme {
    SquareBracket(bool),
    AngleBracket(bool),
    Operator(Operators),
    Colon,
    DoubleColon,
    Dot,
    DoubleQuotes,
    Optional,
    Semicolon,
    Space,
    Tab,
    Keyword(Keywords),
    String(Seq<char>),
    Number(usize, usize, char),
    Text(Seq<char>),
}

impl View for Tokens {
    type V = Lexeme;

    open spec fn view(&self) -> Lexeme {
        match self {
            Tokens::SquareBracket(c) => Lexeme::SquareBracket(*c),
            Tokens::AngleBracket(c) => Lexeme::AngleBracket(*c),
            Tokens::Operator(op) => Lexeme::Operator(*op),
            Tokens::Colon => Lexeme::Colon,
            Tokens::DoubleColon => Lexeme::DoubleColon,
            Tokens::Dot => Lexeme::Dot,
            Tokens::DoubleQuotes => Lexeme::DoubleQuotes,
            Tokens::Optional => Lexeme::Optional,
            Tokens::Semicolon => Lexeme::Semicolon,
            Tokens::Space => Lexeme::Space,
            Tokens::Tab => Lexeme::Tab,
            Tokens::Keyword(k) => Lexeme::Keyword(*k),
            Tokens::String(s) => Lexeme::String(s@),
            Tokens::Number(a, b, k) => Lexeme::Number(*a, *b, *k),
            Tokens::Text(s) => Lexeme::Text(s@),
        }
    }
}

/// What a sequence of tokens holds.
pub open spec fn lexemes_of(ts: Seq<Tokens>) -> Seq<Lexeme> {
    ts.map_values(|t: Tokens| t@)
}

/// The source text of an operator.
pub open spec fn operator_text(op: Operators) -> Seq<char> {
    match op {
        Operators::Add => seq!['+'],
        Operators::Sub => seq!['-'],
        Operators::Mul => seq!['*'],
        Operators::Div => seq!['/'],
        Operators::Mod => seq!['%'],
        Operators::AddEq => seq!['+', '='],
        Operators::SubEq => seq!['-', '='],
        Operators::MulEq => seq!['*', '='],
        Operators::DivEq => seq!['/', '='],
        Operators::Equal => seq!['='],
        Operators::DoubleEq => seq!['=', '='],
        Operators::NotEqual => seq!['!', '='],
        Operators::And => seq!['&', '&'],
        Operators::Or => seq!['|', '|'],
        Operators::Not => seq!['!'],
        Operators::Ampersant => seq!['&'],
        Operators::AngleBracket(c) => if c {
            seq!['>']
        } else {
            seq!['<']
        },
        Operators::LessEq => seq!['<', '='],
        Operators::MoreEq => seq!['>', '='],
        Operators::Plus => seq!['+'],
        Operators::Minus => seq!['-'],
        Operators::Star => seq!['*'],
        Operators::Slash => seq!['/'],
    }
}

/// The word a keyword is written with (none for `Value`).
pub open spec fn keyword_word(k: Keywords) -> Seq<char> {
    match k {
        Keywords::If => seq!['i', 'f'],
        Keywords::Switch => seq!['s', 'w', 'i', 't', 'c', 'h'],
        Keywords::Let => seq!['l', 'e', 't'],
        Keywords::Const => seq!['c', 'o', 'n', 's', 't'],
        Keywords::Function => seq!['f', 'u', 'n'],
        Keywords::Struct => seq!['s', 't', 'r', 'u', 'c', 't'],
        Keywords::Trait => seq!['t', 'r', 'a', 'i', 't'],
        Keywords::Enum => seq!['e', 'n', 'u', 'm'],
        Keywords::Loop => seq!['l', 'o', 'o', 'p'],
        Keywords::For => seq!['f', 'o', 'r'],
        Keywords::While => seq!['w', 'h', 'i', 'l', 'e'],
        Keywords::DoWhile => seq!['d', 'o'],
        Keywords::Return => seq!['y', 'e', 'e', 't'],
        Keywords::Break => seq!['b', 'r', 'e', 'a', 'k'],
        Keywords::Continue => seq!['c', 'o', 'n', 't', 'i', 'n', 'u', 'e'],
        Keywords::Lib => seq!['l', 'i', 'b'],
        Keywords::Use => seq!['u', 's', 'e'],
        Keywords::Value => Seq::<char>::empty(),
        Keywords::CommentLine => seq!['/', '/'],
        Keywords::CommentBlock => seq!['/', '*'],
    }
}

fn keyword_str(k: Keywords) -> (s: &'static str)
    ensures
        s@ == keyword_word(k),
{
    let s = match k {
        Keywords::If => "if",
        Keywords::Switch => "switch",
        Keywords::Let => "let",
        Keywords::Const => "const",
        Keywords::Function => "fun",
        Keywords::Struct => "struct",
        Keywords::Trait => "trait",
        Keywords::Enum => "enum",
        Keywords::Loop => "loop",
        Keywords::For => "for",
        Keywords::While => "while",
        Keywords::DoWhile => "do",
        Keywords::Return => "yeet",
        Keywords::Break => "break",
        Keywords::Continue => "continue",
        Keywords::Lib => "lib",
        Keywords::Use => "use",
        Keywords::Value => "",
        Keywords::CommentLine => "//",
        Keywords::CommentBlock => "/*",
    };
    proof {
        reveal_strlit("if");
        reveal_strlit("switch");
        reveal_strlit("let");
        reveal_strlit("const");
        reveal_strlit("fun");
        reveal_strlit("struct");
        reveal_strlit("trait");
        reveal_strlit("enum");
        reveal_strlit("loop");
        reveal_strlit("for");
        reveal_strlit("while");
        reveal_strlit("do");
        reveal_strlit("yeet");
        reveal_strlit("break");
        reveal_strlit("continue");
        reveal_strlit("lib");
        reveal_strlit("use");
        reveal_strlit("");
        reveal_strlit("//");
        reveal_strlit("/*");
    }
    s
}

/// The source text a token stands for.
pub open spec fn lexeme_text(l: Lexeme) -> Seq<char> {
    match l {
        Lexeme::SquareBracket(c) => if c {
            seq![']']
        } else {
            seq!['[']
        },
        Lexeme::AngleBracket(c) => if c {
            seq!['>']
        } else {
            seq!['<']
        },
        Lexeme::Operator(op) => operator_text(op),
        Lexeme::Colon => seq![':'],
        Lexeme::DoubleColon => seq![':', ':'],
        Lexeme::Dot => seq!['.'],
        Lexeme::DoubleQuotes => seq!['"'],
        Lexeme::Optional => seq!['?'],
        Lexeme::Semicolon => seq![';'],
        Lexeme::Space => seq![' '],
        Lexeme::Tab => seq!['\t'],
        Lexeme::Keyword(k) => keyword_word(k),
        Lexeme::String(s) => seq!['"'] + s + seq!['"'],
        Lexeme::Number(a, b, k) => if k == 'i' {
            dec_digits(a as nat)
        } else if k == 'f' {
            dec_digits(a as nat) + seq!['.'] + dec_digits(b as nat)
        } else {
            dec_digits(a as nat).push(k)
        },
        Lexeme::Text(s) => s,
    }
}

fn operator_str(op: Operators) -> (s: &'static str)
    ensures
        s@ == operator_text(op),
{
    let s = match op {
        Operators::Add => "+",
        Operators::Sub => "-",
        Operators::Mul => "*",
        Operators::Div => "/",
        Operators::Mod => "%",
        Operators::AddEq => "+=",
        Operators::SubEq => "-=",
        Operators::MulEq => "*=",
        Operators::DivEq => "/=",
        Operators::Equal => "=",
        Operators::DoubleEq => "==",
        Operators::NotEqual => "!=",
        Operators::And => "&&",
        Operators::Or => "||",
        Operators::Not => "!",
        Operators::Ampersant => "&",
        Operators::AngleBracket(c) => if c {
            ">"
        } else {
            "<"
        },
        Operators::LessEq => "<=",
        Operators::MoreEq => ">=",
        Operators::Plus => "+",
        Operators::Minus => "-",
        Operators::Star => "*",
        Operators::Slash => "/",
    };
    proof {
        reveal_strlit("+");
        reveal_strlit("-");
        reveal_strlit("*");
        reveal_strlit("/");
        reveal_strlit("%");
        reveal_strlit("+=");
        reveal_strlit("-=");
        reveal_strlit("*=");
        reveal_strlit("/=");
        reveal_strlit("=");
        reveal_strlit("==");
        reveal_strlit("!=");
        reveal_strlit("&&");
        reveal_strlit("||");
        reveal_strlit("!");
        reveal_strlit("&");
        reveal_strlit(">");
        reveal_strlit("<");
        reveal_strlit("<=");
        reveal_strlit(">=");
    }
    s
}

/// The source text of a token: the symbol or word it is read from (the
/// tokens keep no text of their own but for words, strings and numbers).
pub fn deparse_token(token: &Tokens) -> (s: String)
    ensures
        s@ == lexeme_text(token@),
{
    let mut out = String::new();
    match token {
        Tokens::SquareBracket(c) => push_char(&mut out, if *c { ']' } else { '[' }),
        Tokens::AngleBracket(c) => push_char(&mut out, if *c { '>' } else { '<' }),
        Tokens::Operator(op) => push_str(&mut out, operator_str(*op)),
        Tokens::Colon => push_char(&mut out, ':'),
        Tokens::DoubleColon => {
            push_char(&mut out, ':');
            push_char(&mut out, ':');
        },
        Tokens::Dot => push_char(&mut out, '.'),
        Tokens::DoubleQuotes => push_char(&mut out, '"'),
        Tokens::Optional => push_char(&mut out, '?'),
        Tokens::Semicolon => push_char(&mut out, ';'),
        Tokens::Space => push_char(&mut out, ' '),
        Tokens::Tab => push_char(&mut out, '\t'),
        Tokens::Keyword(k) => push_str(&mut out, keyword_str(*k)),
        Tokens::String(s) => {
            push_char(&mut out, '"');
            push_str(&mut out, s.as_str());
            push_char(&mut out, '"');
        },
        Tokens::Number(a, b, k) => {
            push_dec(&mut out, *a as u64);
            if *k == 'f' {
                push_char(&mut out, '.');
                push_dec(&mut out, *b as u64);
            } else if *k != 'i' {
                push_char(&mut out, *k);
            }
        },
        Tokens::Text(s) => push_str(&mut out, s.as_str()),
    }
    out
}

} // verus!
