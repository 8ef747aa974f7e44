//! Built-in sample programs for trying out the runtime.
use vstd::prelude::*;

use crate::runtime::runtime_types::{Context, Instructions, Types};

verus! {

const ID: usize = 5;

/// The sample chosen when none is asked for.
pub open spec fn default_id() -> usize {
    5
}

/// Initial stack of sample program `id` (sample 0 for an unknown id).
pub open spec fn sample_stack(id: usize) -> Seq<Types> {
    if id == 0 {
        seq![Types::Int(0)]
    } else if id == 1 {
        seq![Types::Int(100), Types::Usize(1), Types::Bool(true), Types::Int(5000000), Types::Int(1)]
    } else if id == 2 {
        seq![Types::Usize(1), Types::Int(50), Types::Null, Types::Bool(false)]
    } else if id == 3 {
        seq![Types::Usize(1), Types::Int(50), Types::Null, Types::Bool(false)]
    } else if id == 4 {
        seq![Types::Int(0), Types::Usize(0)]
    } else if id == 5 {
        seq![Types::Int(0)]
    } else {
        seq![Types::Int(0)]
    }
}

/// Code of sample program `id` (sample 0 for an unknown id).
pub open spec fn sample_code(id: usize) -> Seq<Instructions> {
    if id == 0 {
        seq![Instructions::End]
    } else if id == 1 {
        seq![Instructions::Res(5), Instructions::Rd(4, 0), Instructions::Rd(0, 1), Instructions::Add, Instructions::Wr(4), Instructions::Rd(1, 1), Instructions::Less, Instructions::Brnc(1, 8), Instructions::Rd(4, 0), Instructions::Debug(0), Instructions::Rd(3, 0), Instructions::End]
    } else if id == 2 {
        seq![Instructions::Res(4), Instructions::Rd(3, 0), Instructions::Alc(0, 0), Instructions::Wr(1), Instructions::Rd(2, 1), Instructions::Wrp(0, 1), Instructions::Rdp(1, 0), Instructions::Mov(0, 1), Instructions::Wr(0), Instructions::Rd(0, 0), Instructions::Debug(0), Instructions::Rd(3, 0), Instructions::End]
    } else if id == 3 {
        seq![Instructions::Res(4), Instructions::Rd(3, 0), Instructions::Alc(0, 0), Instructions::Wr(1), Instructions::Rd(2, 1), Instructions::Wrp(0, 1), Instructions::Rdp(1, 0), Instructions::Mov(0, 1), Instructions::Wr(0), Instructions::Rd(0, 0), Instructions::Debug(0), Instructions::Rd(3, 0), Instructions::Rd(3, 1), Instructions::Add, Instructions::Rd(1, 1), Instructions::RAlc(1, 0), Instructions::Rd(1, 0), Instructions::Idx(1, 0), Instructions::Rd(3, 0), Instructions::Wrp(1, 0), Instructions::Rdp(0, 1), Instructions::Debug(0), Instructions::Rd(1, 0), Instructions::Debug(0), Instructions::Dalc(0), Instructions::Rd(3, 0), Instructions::End]
    } else if id == 4 {
        seq![Instructions::Rdc(0, 0), Instructions::Rdc(1, 1), Instructions::Add, Instructions::Debug(0), Instructions::End]
    } else if id == 5 {
        seq![Instructions::Ptr(0), Instructions::Dalc(0), Instructions::Debug(0), Instructions::End]
    } else {
        seq![Instructions::End]
    }
}

/// Loads sample program `id` (or the default sample) into `context`;
/// returns whether such a sample exists. An unknown id loads sample 0.
pub fn test_init(id: Option<usize>, context: &mut Context) -> (found: bool)
    ensures
        ({
            let test_id = match id {
                Some(num) => num,
                None => default_id(),
            };
            &&& found == (test_id <= 5)
            &&& final(context).stack@ == sample_stack(test_id)
            &&& final(context).code@ == sample_code(test_id)
            &&& final(context).call_stack == old(context).call_stack
            &&& final(context).stack_ptr == old(context).stack_ptr
            &&& final(context).registers == old(context).registers
            &&& final(context).code_ptr == old(context).code_ptr
            &&& final(context).heap == old(context).heap
            &&& final(context).heap_registry == old(context).heap_registry
        }),
{
    let test_id = if let Some(num) = id {
        num
    } else {
        ID
    };
    match test_id {
        0 => {
            context.stack = vec![Types::Int(0)];
            context.code = vec![Instructions::End];
            true
        },
        1 => {
            context.stack = vec![Types::Int(100), Types::Usize(1), Types::Bool(true), Types::Int(5000000), Types::Int(1)];
            context.code = vec![Instructions::Res(5), Instructions::Rd(4, 0), Instructions::Rd(0, 1), Instructions::Add, Instructions::Wr(4), Instructions::Rd(1, 1), Instructions::Less, Instructions::Brnc(1, 8), Instructions::Rd(4, 0), Instructions::Debug(0), Instructions::Rd(3, 0), Instructions::End];
            true
        },
        2 => {
            context.stack = vec![Types::Usize(1), Types::Int(50), Types::Null, Types::Bool(false)];
            context.code = vec![Instructions::Res(4), Instructions::Rd(3, 0), Instructions::Alc(0, 0), Instructions::Wr(1), Instructions::Rd(2, 1), Instructions::Wrp(0, 1), Instructions::Rdp(1, 0), Instructions::Mov(0, 1), Instructions::Wr(0), Instructions::Rd(0, 0), Instructions::Debug(0), Instructions::Rd(3, 0), Instructions::End];
            true
        },
        3 => {
            context.stack = vec![Types::Usize(1), Types::Int(50), Types::Null, Types::Bool(false)];
            context.code = vec![Instructions::Res(4), Instructions::Rd(3, 0), Instructions::Alc(0, 0), Instructions::Wr(1), Instructions::Rd(2, 1), Instructions::Wrp(0, 1), Instructions::Rdp(1, 0), Instructions::Mov(0, 1), Instructions::Wr(0), Instructions::Rd(0, 0), Instructions::Debug(0), Instructions::Rd(3, 0), Instructions::Rd(3, 1), Instructions::Add, Instructions::Rd(1, 1), Instructions::RAlc(1, 0), Instructions::Rd(1, 0), Instructions::Idx(1, 0), Instructions::Rd(3, 0), Instructions::Wrp(1, 0), Instructions::Rdp(0, 1), Instructions::Debug(0), Instructions::Rd(1, 0), Instructions::Debug(0), Instructions::Dalc(0), Instructions::Rd(3, 0), Instructions::End];
            true
        },
        4 => {
            context.stack = vec![Types::Int(0), Types::Usize(0)];
            context.code = vec![Instructions::Rdc(0, 0), Instructions::Rdc(1, 1), Instructions::Add, Instructions::Debug(0), Instructions::End];
            true
        },
        5 => {
            context.stack = vec![Types::Int(0)];
            context.code = vec![Instructions::Ptr(0), Instructions::Dalc(0), Instructions::Debug(0), Instructions::End];
            true
        },
        _ => {
            context.stack = vec![Types::Int(0)];
            context.code = vec![Instructions::End];
            false
        },
    }
}

} // verus!
