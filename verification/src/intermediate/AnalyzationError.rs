//! Errors found while analysing a program.
use vstd::prelude::*;

use super::dictionary::IdentifierKinds;
use crate::expression_parser;

verus! {

#[derive(Debug)]
pub enum ErrType {
    /// assigned_number line col | occurs when you try to assign same number to two or more enum variants
    EnumVariantAssignedNumber(usize, (usize, usize)),
    /// variant_ident line col | occurs when you try to assign same identifier to two or more enum variants
    EnumVariantAssignedIdent(String, (usize, usize)),
    /// name | occurs when you try to assign same identifier twice
    ConflictingNames(String),
    /// name | occurs when you try to assign same identifier for two or more arguments
    ConflictingArgsName(String),
    /// name kind | occurs when you try to implement on non implementable identifier (implementable: enum, struct, type)
    BadImpl(String, IdentifierKinds),
    /// name kind | occurs when you try to use identifier that has not been declared
    NonExistentIdentifier(String),
    /// field line col | occurs when you try to assign same identifier to two or more struct fields
    StructVariantAssignedIdent(String, (usize, usize)),
    /// transform_error | occurs when there is an error in expression
    TreeTransformError(expression_parser::TreeTransformError),
    /// invalid_register | occurs when you try to use register that does not exist
    InvalidRegister(String),
    /// invalid_constant | occurs when you try to use constant that is not supported in rust libraries
    InvalidConstant(crate::lexer::lexemes::Tokens),
    /// import_path | occurs when you try to import file that does not exist
    ImportPathDoesNotExist(String),
    /// not_code_block | occurs when you try to use code block that is not code block (probably wont happen tho)
    NotCodeBlock,
    /// not_operator | occurs when you try to use operator that is not operator (probably wont happen tho)
    NotOperator,
}

} // verus!
