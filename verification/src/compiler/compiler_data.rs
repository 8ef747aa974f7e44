//! Data kept by the compiler about the names it has seen.
use vstd::prelude::*;

verus! {

/// all of the defined types/variables (enum, struct, function) in the current scope will be registered here
pub struct Dictionary {
    pub functions: Vec<Function>,
    pub enums: Vec<Enum>,
    pub structs: Vec<Struct>,
    pub variables: Vec<(String, Types, Identyfiers)>,
    pub identifiers: Vec<(String, Types)>,
}

pub struct Function {
    /// function identifiers will be changed to allow for function overload
    /// name mangler rules: "{identifier}:{args.foreach("{typeof}:")}"
    /// example:
    /// fun myFun(n: int, type: char): int
    /// fun nothing()
    /// are mangled to:
    /// "myFun:int:char"
    /// "nothing:"
    pub identifier: String,
    /// identifier and type of arguments
    pub args: Vec<(String, Types)>,
    /// size needed to allocate on stack while function call (args.len() included)
    pub stack_size: usize,
    /// location in code, so runtime knows where to jump
    pub location: usize,
    pub return_type: Types,
}

pub struct Enum {
    pub identifier: String,
    /// enum values and their offset
    /// enum ErrCode { Continue = 100, SwitchingProtocols, ..., Ok = 200, ... }
    pub keys: Vec<(String, usize)>,
}

pub struct Struct {
    pub identifier: String,
    pub keys: Vec<(String, Types)>,
}

/// identifiers can not contain these characters: + - * / = % ; : , . ({<[]>}) & | ! ? " '
pub enum Types {
    Int,
    Float,
    Usize,
    Char,
    Byte,
    Bool,
    Null,
    /// refference type
    Pointer(Box<Types>),
    /// type of an array, lenght
    Array(Box<Types>, usize),
    /// non-primmitive types holding their identifiers
    Function(String),
    Enum(String),
    Struct(String),
}

/// "+-*/=%;:,.({<[]>})&|!?\"'\\"
enum Tokens {
    /// opening 0, closing 1
    Parenteses(bool),
    /// opening 0, closing 1
    CurlyBracket(bool),
    /// opening 0, closing 1
    SquareBracket(bool),
    /// opening 0, closing 1
    AngleBracket(bool),
    Operator(Operators),
    Colon,
    Dot,
    Semicolon,
    Comma,
    /// content
    String(String),
    Char(char),
    Number(u128),
    /// floating-point literal, held as its IEEE-754 bit pattern
    Float(u64),
    /// variable name
    Variable(String),
    /// function name, args
    Call(String, Vec<String>),
}

enum Operators {
    Add,
    Sub,
    Mul,
    Div,
    Mod,
    AddEq,
    SubEq,
    MulEq,
    DivEq,
    Compare,
    Equal,
    NotEqual,
    And,
    Or,
    Not,
}

/// compiler iterates over source, looking for theese keywords
/// dependent keywords: Break, Continue
/// global allowed: Lib, Use, Const, Fun, Struct, Enum, CommentLine, CommentBlock
#[derive(Debug, PartialEq, Eq, Structural, Clone, Copy)]
pub enum Keywords {
    /// "if" statement code_block ("else if" statement code_block)* ("else" code_block)?
    If,
    /// "switch" value { (comparing | "_") code_block ... }
    Switch,
    /// "let" identifier (: type)? (= value)? (, ...)* ;
    Let,
    /// "const" identifier (: type)? (= value)? (, ...)* ;
    Const,
    /// "fun" identifier ( args ) (: return_type)? code_block
    Function,
    /// "struct" identifier { (key : type ,)* }
    Struct,
    /// "enum" identifier { (identifier (= number)? ,)* }
    Enum,
    /// "loop" code_block {breakIf: <Continue>, <Break>}
    Loop,
    /// "for" code_block {breakIf: <Continue>, <Break>}
    For,
    /// "while" statement code_block {breakIf: <Continue>, <Break>}
    While,
    /// "do" code_block statement ; {breakIf: <Continue>, <Break>}
    DoWhile,
    /// "return" value? ;
    Return,
    /// "break" value? ;
    Break,
    /// "continue"
    Continue,
    /// "lib" file_identifier ("as" alias)? ;
    Lib,
    /// "use" file_identifier ("as" alias)? ;
    Use,
    /// checked after all other keywords: value ;
    Value,
    /// "//" _ "\n"
    CommentLine,
    /// "/*" _ "*/"
    CommentBlock,
}

pub enum Identyfiers {
    Const,
    Imutable,
}

impl Dictionary {
    pub fn new() -> (d: Self)
        ensures
            d.functions@.len() == 0,
            d.enums@.len() == 0,
            d.structs@.len() == 0,
            d.variables@.len() == 0,
            d.identifiers@.len() == 0,
    {
        Dictionary {
            functions: vec![],
            enums: vec![],
            structs: vec![],
            variables: vec![],
            identifiers: vec![],
        }
    }

    fn index_of(&self, identifier: String) -> (r: Option<usize>)
        ensures
            match r {
                Some(i) => i < self.identifiers@.len() && self.identifiers@[i as int].0@ == identifier@
                    && forall|j: int| 0 <= j < i ==> (#[trigger] self.identifiers@[j]).0@ != identifier@,
                None => forall|j: int| 0 <= j < self.identifiers@.len() ==> (#[trigger] self.identifiers@[j]).0@ != identifier@,
            },
    {
        let mut i: usize = 0;
        loop
            invariant
                i <= self.identifiers@.len(),
                forall|j: int| 0 <= j < i ==> (#[trigger] self.identifiers@[j]).0@ != identifier@,
            decreases self.identifiers@.len() - i,
        {
            if i >= self.identifiers.len() {
                return None;
            }
            if self.identifiers[i].0 == identifier {
                return Some(i);
            }
            i += 1;
        }
    }

    fn type_of(&self, idx: usize) -> (t: &Types)
        requires
            idx < self.identifiers@.len(),
        ensures
            *t == self.identifiers@[idx as int].1,
    {
        &self.identifiers[idx].1
    }
}

} // verus!
