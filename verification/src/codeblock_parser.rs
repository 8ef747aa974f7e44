//! Statements of a code block.
use vstd::prelude::*;

use crate::expression_parser::ValueType;
use crate::intermediate::dictionary::ShallowType;

verus! {

#[derive(Debug)]
pub enum Nodes {
    Let { ident: String, expr: Option<ValueType>, kind: Option<ShallowType> },
    If { cond: ValueType, body: Vec<Nodes>, elif: Vec<Nodes>, els: Option<Vec<Nodes>> },
    While { cond: ValueType, body: Vec<Nodes> },
    For { ident: String, expr: ValueType, body: Vec<Nodes> },
    Return { expr: Option<ValueType> },
    Expr { expr: ValueType },
    Block { body: Vec<Nodes> },
    Break,
    Continue,
    Loop { body: Vec<Nodes> },
    Yeet { expr: ValueType },
    Try {
        body: Vec<Nodes>,
        ///     catches ((ident, [types]), body)
        catch: Vec<((String, Vec<String>), Vec<Nodes>)>,
        finally: Option<Vec<Nodes>>,
    },
    Switch { expr: ValueType, body: Vec<(ValueType, Vec<Nodes>)>, default: Option<Vec<Nodes>> },
    /// assignment of `expr` to `target`
    SetValue { target: ValueType, expr: ValueType },
}

} // verus!
