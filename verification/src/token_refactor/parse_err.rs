//! Errors reported while refining tokens.
use vstd::prelude::*;

use crate::lexer::compiler_data::Tokens;

verus! {

pub enum Errors {
    /// (line, column) token
    UnexpectedToken((usize, usize), Tokens),
    /// (line, column) number
    InvalidNumber((usize, usize), String),
}

} // verus!
