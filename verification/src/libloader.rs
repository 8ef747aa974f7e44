//! What a library registry declares: functions with the registers and
//! stack slots of their arguments, structs, enums, types and traits.
use vstd::prelude::*;

use crate::expression_parser::ValueType;
use crate::intermediate::dictionary::{GenericDecl, ShallowType};
use crate::intermediate::AnalyzationError::ErrType;
use crate::text::{chars_of, same_chars, string_from_chars};

verus! {

#[derive(Debug)]
pub enum MemoryTypes {
    Stack(usize),
    Register(Registers),
}

#[derive(Debug, PartialEq, Eq, Structural, Clone, Copy)]
pub enum Registers {
    G1,
    G2,
    G3,
    G4,
    G5,
    G6,
    Ptr,
    Ret,
    CodePtr,
}

/// The register named by `s`, if any.
pub open spec fn register_named(s: Seq<char>) -> Option<Registers> {
    if s == "g1"@ {
        Some(Registers::G1)
    } else if s == "g2"@ {
        Some(Registers::G2)
    } else if s == "g3"@ {
        Some(Registers::G3)
    } else if s == "g4"@ {
        Some(Registers::G4)
    } else if s == "g5"@ {
        Some(Registers::G5)
    } else if s == "g6"@ {
        Some(Registers::G6)
    } else if s == "ptr"@ {
        Some(Registers::Ptr)
    } else if s == "ret"@ {
        Some(Registers::Ret)
    } else if s == "cptr"@ {
        Some(Registers::CodePtr)
    } else {
        None
    }
}

impl Registers {
    /// The register named by `s`; an unknown name is reported in `errors`.
    pub fn from_str(s: &str, errors: &mut Vec<ErrType>) -> (r: Option<Self>)
        ensures
            r == register_named(s@),
            r is Some ==> final(errors)@ == old(errors)@,
            r is None ==> final(errors)@.len() == old(errors)@.len() + 1
                && final(errors)@.take(old(errors)@.len() as int) == old(errors)@
                && (final(errors)@.last() matches ErrType::InvalidRegister(name) && name@ == s@),
    {
        let v = chars_of(s);
        if same_chars(&v, &chars_of("g1")) {
            Some(Registers::G1)
        } else if same_chars(&v, &chars_of("g2")) {
            Some(Registers::G2)
        } else if same_chars(&v, &chars_of("g3")) {
            Some(Registers::G3)
        } else if same_chars(&v, &chars_of("g4")) {
            Some(Registers::G4)
        } else if same_chars(&v, &chars_of("g5")) {
            Some(Registers::G5)
        } else if same_chars(&v, &chars_of("g6")) {
            Some(Registers::G6)
        } else if same_chars(&v, &chars_of("ptr")) {
            Some(Registers::Ptr)
        } else if same_chars(&v, &chars_of("ret")) {
            Some(Registers::Ret)
        } else if same_chars(&v, &chars_of("cptr")) {
            Some(Registers::CodePtr)
        } else {
            errors.push(ErrType::InvalidRegister(string_from_chars(&v)));
            assert(errors@.take(old(errors)@.len() as int) =~= old(errors)@);
            None
        }
    }
}

#[derive(Debug)]
pub struct Dictionary {
    pub functions: Vec<Function>,
    pub structs: Vec<Struct>,
    pub enums: Vec<Enum>,
    pub types: Vec<Type>,
    pub consts: Vec<Const>,
    pub traits: Vec<Trait>,
}

impl Dictionary {
    pub fn new() -> (d: Self)
        ensures
            d.functions@.len() == 0,
            d.structs@.len() == 0,
            d.enums@.len() == 0,
            d.types@.len() == 0,
            d.consts@.len() == 0,
            d.traits@.len() == 0,
    {
        Self {
            functions: Vec::new(),
            structs: Vec::new(),
            enums: Vec::new(),
            types: Vec::new(),
            consts: Vec::new(),
            traits: Vec::new(),
        }
    }
}

#[derive(Debug)]
pub struct Function {
    pub name: String,
    pub args: Vec<(String, ShallowType, MemoryTypes)>,
    pub return_type: ShallowType,
    pub errorable: bool,
    pub assign: usize,
}

#[derive(Debug)]
pub struct Struct {
    pub name: String,
    pub fields: Vec<(String, ShallowType)>,
    pub assign: usize,
    generics: Vec<GenericDecl>,
}

#[derive(Debug)]
pub struct Enum {
    pub name: String,
    pub variants: Vec<(String, usize)>,
    pub assign: usize,
}

#[derive(Debug)]
pub struct Type {
    pub name: String,
    pub kind: ShallowType,
    pub assign: usize,
}

#[derive(Debug)]
pub struct Const {
    pub name: String,
    pub kind: ShallowType,
    pub value: ValueType,
    pub location: usize,
}

#[derive(Debug)]
pub struct Trait {
    pub name: String,
    pub functions: Vec<Function>,
    pub assign: usize,
}

} // verus!
