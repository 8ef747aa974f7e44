//! What a compiled library declares.
use vstd::prelude::*;

use crate::expression_parser::ValueType;
use crate::intermediate::dictionary::ShallowType;

verus! {

pub struct Dictionary {
    pub functions: Vec<Function>,
    pub structs: Vec<Struct>,
    pub enums: Vec<Enum>,
    pub types: Vec<Type>,
    pub consts: Vec<Const>,
    pub traits: Vec<Trait>,
}

impl Dictionary {
    pub fn new() -> (d: Self)
        ensures
            d.functions@.len() == 0,
            d.structs@.len() == 0,
            d.enums@.len() == 0,
            d.types@.len() == 0,
            d.consts@.len() == 0,
            d.traits@.len() == 0,
    {
        Self {
            functions: Vec::new(),
            structs: Vec::new(),
            enums: Vec::new(),
            types: Vec::new(),
            consts: Vec::new(),
            traits: Vec::new(),
        }
    }
}

pub struct Function {
    pub name: String,
    pub args: Vec<(String, ShallowType)>,
    pub return_type: ShallowType,
    pub errorable: bool,
    pub assign: usize,
}

pub struct Struct {
    pub name: String,
    pub fields: Vec<(String, ShallowType)>,
    pub assign: usize,
}

pub struct Enum {
    pub name: String,
    pub variants: Vec<(String, ShallowType, usize)>,
}

pub struct Type {
    pub name: String,
    pub kind: ShallowType,
}

pub struct Const {
    pub name: String,
    pub kind: ShallowType,
    pub value: ValueType,
}

pub struct Trait {
    pub name: String,
    pub functions: Vec<Function>,
    pub assign: usize,
}

} // verus!
