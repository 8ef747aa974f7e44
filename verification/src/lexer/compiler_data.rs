//! Data produced and consumed by the lexer.
use vstd::prelude::*;

verus! {

/// all of the defined types/variables (enum, struct, function) in the current scope will be registered here
pub struct Dictionary {
    pub functions: Vec<Function>,
    pub enums: Vec<Enum>,
    pub structs: Vec<Struct>,
    pub variables: Vec<Variable>,
    pub identifiers: Vec<(String, Types)>,
}

pub struct Function {
    /// function identifiers will be changed to allow for function overload
    /// name mangler rules: "{identifier}:{args.foreach("{typeof}:")}"
    /// example:
    /// fun myFun(n: int, type: char): int
    /// fun nothing()
    /// are mangled to:
    /// "myFun:int:char"
    /// "nothing:"
    pub identifier: String,
    /// type of args in order
    pub args: Vec<Types>,
    /// size needed to allocate on stack while function call (args.len() included)
    pub stack_size: Option<usize>,
    /// location in bytecode, so runtime knows where to jump
    pub location: Option<usize>,
    pub return_type: Types,
    /// location in source code
    pub src_loc: usize,
    /// points of a function: places a call can start from, written
    /// `'name(args);` inside the body and called as `foo'name(..)`;
    /// identifier, location, source location
    pub points: Vec<(String, usize, usize)>,
}

pub struct Enum {
    pub identifier: String,
    /// enum values and their offset
    /// enum ErrCode { Continue = 100, SwitchingProtocols, ..., Ok = 200, ... }
    pub keys: Vec<(String, usize)>,
    /// location in source code
    pub src_loc: usize,
    pub methods: Vec<Function>,
}

pub struct Struct {
    pub identifier: String,
    pub keys: Vec<(String, Types)>,
    /// location in source code
    pub src_loc: usize,
    pub methods: Vec<Function>,
}

pub struct Variable {
    pub kind: Types,
    pub identifier: String,
}

/// identifiers can not contain these characters: + - * / = % ; : , . ({<[]>}) & | ! ? " '
pub enum Types {
    Int,
    Float,
    Usize,
    Char,
    Byte,
    Bool,
    Null,
    /// refference type
    Pointer(Box<Types>),
    /// type of an array, lenght
    Array(Box<Types>, usize),
    /// non-primmitive types holding their identifiers
    Function(String),
    Enum(String),
    Struct(String),
}

/// "+-*/=%;:,.({<[]>})&|!?\"'\\"
#[derive(Debug, PartialEq, Clone)]
pub enum Tokens {
    /// opening 0, closing 1
    Parenteses(bool),
    /// opening 0, closing 1
    CurlyBracket(bool),
    /// opening 0, closing 1
    SquareBracket(bool),
    /// opening 0, closing 1
    AngleBracket(bool),
    Operator(Operators),
    Colon,
    Dot,
    Semicolon,
    Comma,
    Quotes,
    DoubleQuotes,
    Optional,
    Space,
    Block,
    /// content
    String(String),
    Char(char),
    Number(u128),
    /// floating-point literal, held as its IEEE-754 bit pattern
    Float(u64),
    /// variable name
    Identifier(String),
    Keyword(Keywords),
    /// no token
    Nil,
    /// in case we can not identify token at the moment
    Text(String),
    DoubleColon,
}

#[derive(Debug, PartialEq, Eq, Structural, Clone, Copy)]
pub enum Operators {
    Add,
    Sub,
    Mul,
    Div,
    Mod,
    AddEq,
    SubEq,
    MulEq,
    DivEq,
    Compare,
    Equal,
    DoubleEq,
    NotEqual,
    And,
    Or,
    Not,
}

/// compiler iterates over source, looking for theese keywords
/// dependent keywords: Break, Continue
/// global allowed: Lib, Use, Const, Fun, Struct, Enum, CommentLine, CommentBlock
#[derive(Debug, PartialEq, Eq, Structural, Clone, Copy)]
pub enum Keywords {
    /// value, code_block, "else if" (value, code_block)*, "else" code_block?
    If,
    /// value { (value | "_") code_block ... }
    Switch,
    /// identifier (: type)? (= value)? (, ...)* ;
    Let,
    /// identifier (: type)? (= value)? (, ...)* ;
    Const,
    /// identifier ( args ) (: return_type)? code_block
    Function,
    /// identifier { Trait_identifier* (key : type ,)* }
    Struct,
    /// identifier { Function* (key : type ,)* }
    Trait,
    /// identifier { (identifier (= number)? ,)* }
    Enum,
    /// code_block {breakIf: [<Continue>, <Break>]}
    Loop,
    /// code_block {breakIf: [<Continue>, <Break>]}
    For,
    /// value code_block {breakIf: [<Continue>, <Break>]}
    While,
    /// code_block value ; {breakIf: [<Continue>, <Break>]}
    DoWhile,
    /// value? ;
    Return,
    /// value? ;
    Break,
    Continue,
    /// file_identifier ("as" alias)? ;
    Lib,
    /// file_identifier ("as" alias)? ;
    Use,
    /// checked after all other keywords: value ;
    Value,
    /// _ "\n"
    CommentLine,
    /// _ "*/"
    CommentBlock,
}

pub enum Modifyers {
    Const,
    Imutable,
}

impl Dictionary {
    pub fn new() -> (d: Self)
        ensures
            d.functions@.len() == 0,
            d.enums@.len() == 0,
            d.structs@.len() == 0,
            d.variables@.len() == 0,
            d.identifiers@.len() == 0,
    {
        Dictionary {
            functions: vec![],
            enums: vec![],
            structs: vec![],
            variables: vec![],
            identifiers: vec![],
        }
    }

    fn index_of(&self, identifier: String) -> (r: Option<usize>)
        ensures
            match r {
                Some(i) => i < self.identifiers@.len() && self.identifiers@[i as int].0@ == identifier@
                    && forall|j: int| 0 <= j < i ==> (#[trigger] self.identifiers@[j]).0@ != identifier@,
                None => forall|j: int| 0 <= j < self.identifiers@.len() ==> (#[trigger] self.identifiers@[j]).0@ != identifier@,
            },
    {
        let mut i: usize = 0;
        loop
            invariant
                i <= self.identifiers@.len(),
                forall|j: int| 0 <= j < i ==> (#[trigger] self.identifiers@[j]).0@ != identifier@,
            decreases self.identifiers@.len() - i,
        {
            if i >= self.identifiers.len() {
                return None;
            }
            if self.identifiers[i].0 == identifier {
                return Some(i);
            }
            i += 1;
        }
    }

    fn type_of(&self, idx: usize) -> (t: &Types)
        requires
            idx < self.identifiers@.len(),
        ensures
            *t == self.identifiers@[idx as int].1,
    {
        &self.identifiers[idx].1
    }
}

} // verus!
