//! Values, instructions and execution state of the bytecode runtime.
use vstd::prelude::*;

use crate::text::{dec_digits, dec_signed, push_char, push_dec, push_dec_signed, push_str};

verus! {

/// context for a single thread of execution (may include multiple threads in future updates)
pub struct Context {
    pub stack: Vec<Types>,
    pub call_stack: [CallStack; 100],
    pub stack_ptr: usize,
    pub registers: [Types; 4],
    pub code: Vec<Instructions>,
    pub code_ptr: usize,
    pub heap: Vec<Types>,
    pub heap_registry: Vec<HeapRegistry>,
}

/// a structure used to register data on heap
#[derive(Clone, Copy, Debug)]
pub struct HeapRegistry {
    pub prev: Option<usize>,
    pub next: Option<usize>,
    pub len: usize,
    pub dels: usize,
}

/// A runtime value.
#[derive(Clone, Copy, Debug)]
pub enum Types {
    Int(i32),
    /// floating-point value, held as its IEEE-754 bit pattern
    Float(u64),
    Usize(usize),
    Char(char),
    Byte(u8),
    Bool(bool),
    Pointer(usize, PointerTypes),
    CodePointer(usize),
    Null,
}

/// The three ways a value can be displayed: `{}`, `{:+}` and `{:#}`.
#[derive(Clone, Copy, Debug, PartialEq, Eq, Structural)]
pub enum DisplayStyle {
    /// `{}`: the bare value
    Plain,
    /// `{:+}`: the value wrapped in its type's name
    Tagged,
    /// `{:#}`: the type's name only
    TypeName,
}

/// runtime
#[derive(Clone, Copy, Debug)]
pub enum PointerTypes {
    /// location on stack
    ///
    /// never expires
    Stack,
    /// heap pointer in "broken state"
    /// needs to be transformed into heap pointer
    ///
    /// never expires
    HeapReg,
    /// location on heap
    ///
    /// may expire at any time
    Heap,
}

/// complete list of runtime instructions
#[derive(Clone, Copy, Debug)]
pub enum Instructions {
    /// debug reg        | prints value of reg(<reg>)
    Debug(usize),
    /// write stack_offset           | moves value from reg(0) to stack(stack_end - <stack_offset>)
    Wr(usize),
    /// read stack_offset reg | reads value from stack(stack_end - <stack_offset>) to its reg(<reg>)
    Rd(usize, usize),
    /// write pointer value_reg   | moves value from reg(<reg2>) to stack(<reg1>)
    Wrp(usize, usize),
    /// read_pointer pointer_reg reg | reads value from stack(reg1) to its reg(<reg2>)
    Rdp(usize, usize),
    /// read constant    | reads value from stack(<stack_pos>) to its reg(<reg>)
    Rdc(usize, usize),
    /// pointer stack_pos | stores pointer to stack(stack_end - <stack_offset>) in reg(0)
    Ptr(usize),
    /// Index pointer idx<usize> | gets pointer from reg(<reg1>) repairs it and adds reg(<reg2>)
    Idx(usize, usize),
    /// Repair pointer   | Repairs pointer in reg(<reg>)
    Repp(usize),
    /// allocate pointer size_reg | reserves <size> on heap and stores location in registers(<reg>)
    Alc(usize, usize),
    /// deallocate pointer | frees heap(<reg>)
    Dalc(usize),
    /// reallocate pointer size_reg | resizes heap(<reg>) for <size>; additional space is filled with null
    RAlc(usize, usize),
    /// goto pos         | moves code_pointer to <pos>
    Goto(usize),
    /// goto pos_reg     | moves code pointer to reg(<reg>)
    Gotop(usize),
    /// branch pos1 pos2 | if reg(0), goto <pos1> else goto <pos2>
    Brnc(usize, usize),
    /// return           | moves code_pointer to the last position in stack retrieved from stack
    Ret,
    /// register return  | returns registers to their freezed previous state
    RRet,
    /// reserve size     | reserves <size> on stack and saves current reg(0)
    Res(usize),
    /// move reg1 reg2   | moves value of <reg1> to <reg2>
    Mov(usize, usize),
    /// add              | reg(0) is set to the result of operation: reg(0) + reg(1)
    Add,
    /// subtract         | reg(0) is set to the result of operation: reg(0) - reg(1)
    Sub,
    /// multiply         | reg(0) is set to the result of operation: reg(0) * reg(1)
    Mul,
    /// divide           | reg(0) is set to the result of operation: reg(0) / reg(1)
    Div,
    /// modulus          | reg(0) is set to the result of operation: reg(0) % reg(1)
    Mod,
    /// equals           | reg(0) is set to the result of operation: reg(0) = reg(1)
    Equ,
    /// greater than     | reg(0) is set to the result of operation: reg(0) > reg(1)
    Grt,
    /// less than        | reg(0) is set to the result of operation: reg(0) < reg(1)
    Less,
    /// and              | reg(0) is set to the result of operation: reg(0) & reg(1)
    And,
    /// or               | reg(0) is set to the result of operation: reg(0) | reg(1)
    Or,
    /// not              | reg(0) is set to the result of operation: !reg(0)
    Not,
    /// call             | calls external <procedure>(program state, <args>) written in rust (for syscalls etc..)
    Cal(usize, usize),
    /// end              | terminates program
    End,
    /// cast reg1 reg2   | casts value of reg1 to the type of reg2 and stores in reg1
    Cast(usize, usize),
    /// length reg       | sets reg to Usize(size of heap object)
    Len(usize),
    /// type val type    | sets reg(type) to bool(typeof(val) == typeof(type))
    Type(usize, usize),
}

/// holds information of where to jump after function call ends
#[derive(Clone, Copy)]
pub struct CallStack {
    pub reg_freeze: [Types; 4],
    pub end: usize,
    pub code_ptr: usize,
}

/// Text of a boolean.
pub open spec fn bool_text(b: bool) -> Seq<char> {
    if b {
        "true"@
    } else {
        "false"@
    }
}

impl PointerTypes {
    pub open spec fn spec_label(self) -> Seq<char> {
        match self {
            PointerTypes::Heap => "Heap"@,
            PointerTypes::HeapReg => "HeapRaw"@,
            PointerTypes::Stack => "Stack"@,
        }
    }

    /// How the pointer kind is displayed.
    pub fn label(&self) -> (s: &'static str)
        ensures
            s@ == self.spec_label(),
    {
        match *self {
            PointerTypes::Heap => "Heap",
            PointerTypes::HeapReg => "HeapRaw",
            PointerTypes::Stack => "Stack",
        }
    }
}

impl Instructions {
    pub open spec fn spec_label(self) -> Seq<char> {
        match self {
            Instructions::Debug(_) => "Debug"@,
            Instructions::Wr(_) => "Write"@,
            Instructions::Rd(_, _) => "Read"@,
            Instructions::Wrp(_, _) => "WriteRef"@,
            Instructions::Rdp(_, _) => "Dereference"@,
            Instructions::Rdc(_, _) => "ReadConst"@,
            Instructions::Ptr(_) => "StackPointer"@,
            Instructions::Idx(_, _) => "Indexing"@,
            Instructions::Repp(_) => "ReapirPointer"@,
            Instructions::Alc(_, _) => "Allocation"@,
            Instructions::Dalc(_) => "Deallocation"@,
            Instructions::RAlc(_, _) => "Reallocation"@,
            Instructions::Goto(_) => "GoTo"@,
            Instructions::Gotop(_) => "GoToDyn"@,
            Instructions::Brnc(_, _) => "Branch"@,
            Instructions::Ret => "Return"@,
            Instructions::RRet => "RegisterReturn"@,
            Instructions::Res(_) => "Reserve"@,
            Instructions::Mov(_, _) => "Move"@,
            Instructions::Add => "Addition"@,
            Instructions::Sub => "Subtract"@,
            Instructions::Mul => "Multiplication"@,
            Instructions::Div => "Division"@,
            Instructions::Mod => "Modulus"@,
            Instructions::Equ => "Equality"@,
            Instructions::Grt => "Greater"@,
            Instructions::Less => "Lesser"@,
            Instructions::And => "And"@,
            Instructions::Or => "Or"@,
            Instructions::Not => "Not"@,
            Instructions::Cal(_, _) => "Call"@,
            Instructions::End => "End"@,
            Instructions::Cast(_, _) => "Casting"@,
            Instructions::Len(_) => "Length"@,
            Instructions::Type(_, _) => "TypeOf"@,
        }
    }

    /// How the instruction is displayed.
    pub fn label(&self) -> (s: &'static str)
        ensures
            s@ == self.spec_label(),
    {
        match *self {
            Instructions::Debug(_) => "Debug",
            Instructions::Wr(_) => "Write",
            Instructions::Rd(_, _) => "Read",
            Instructions::Wrp(_, _) => "WriteRef",
            Instructions::Rdp(_, _) => "Dereference",
            Instructions::Rdc(_, _) => "ReadConst",
            Instructions::Ptr(_) => "StackPointer",
            Instructions::Idx(_, _) => "Indexing",
            Instructions::Repp(_) => "ReapirPointer",
            Instructions::Alc(_, _) => "Allocation",
            Instructions::Dalc(_) => "Deallocation",
            Instructions::RAlc(_, _) => "Reallocation",
            Instructions::Goto(_) => "GoTo",
            Instructions::Gotop(_) => "GoToDyn",
            Instructions::Brnc(_, _) => "Branch",
            Instructions::Ret => "Return",
            Instructions::RRet => "RegisterReturn",
            Instructions::Res(_) => "Reserve",
            Instructions::Mov(_, _) => "Move",
            Instructions::Add => "Addition",
            Instructions::Sub => "Subtract",
            Instructions::Mul => "Multiplication",
            Instructions::Div => "Division",
            Instructions::Mod => "Modulus",
            Instructions::Equ => "Equality",
            Instructions::Grt => "Greater",
            Instructions::Less => "Lesser",
            Instructions::And => "And",
            Instructions::Or => "Or",
            Instructions::Not => "Not",
            Instructions::Cal(_, _) => "Call",
            Instructions::End => "End",
            Instructions::Cast(_, _) => "Casting",
            Instructions::Len(_) => "Length",
            Instructions::Type(_, _) => "TypeOf",
        }
    }
}

impl Types {
    /// Name of the value's type.
    pub open spec fn kind_name(self) -> Seq<char> {
        match self {
            Types::Bool(_) => "Bool"@,
            Types::Byte(_) => "Byte"@,
            Types::Char(_) => "Char"@,
            Types::CodePointer(_) => "CodePointer"@,
            Types::Float(_) => "Float"@,
            Types::Int(_) => "Int"@,
            Types::Null => "Null"@,
            Types::Pointer(_, _) => "Pointer"@,
            Types::Usize(_) => "Usize"@,
        }
    }

    /// The bare value; `float_text` stands for the decimal text of a float.
    pub open spec fn value_text(self, float_text: Seq<char>) -> Seq<char> {
        match self {
            Types::Bool(b) => bool_text(b),
            Types::Byte(b) => dec_digits(b as nat),
            Types::Char(c) => seq![c],
            Types::CodePointer(loc) => dec_digits(loc as nat),
            Types::Float(_) => float_text,
            Types::Int(n) => dec_signed(n as int),
            Types::Null => "Null"@,
            Types::Pointer(loc, _) => dec_digits(loc as nat),
            Types::Usize(n) => dec_digits(n as nat),
        }
    }

    /// The text of the value in the given style; `float_text` stands for the
    /// decimal text of a float.
    pub open spec fn spec_render(self, style: DisplayStyle, float_text: Seq<char>) -> Seq<char> {
        match style {
            DisplayStyle::TypeName => self.kind_name(),
            DisplayStyle::Tagged => match self {
                Types::Null => "Null"@,
                Types::Pointer(loc, kind) => "Pointer<"@ + dec_digits(loc as nat) + ", "@
                    + kind.spec_label() + ">"@,
                _ => self.kind_name() + "<"@ + self.value_text(float_text) + ">"@,
            },
            DisplayStyle::Plain => self.value_text(float_text),
        }
    }

    fn push_value(&self, out: &mut String, float_text: &str)
        ensures
            final(out)@ == old(out)@ + self.value_text(float_text@),
    {
        match *self {
            Types::Bool(b) => {
                if b {
                    push_str(out, "true");
                } else {
                    push_str(out, "false");
                }
            },
            Types::Byte(b) => push_dec(out, b as u64),
            Types::Char(c) => push_char(out, c),
            Types::CodePointer(loc) => push_dec(out, loc as u64),
            Types::Float(_) => push_str(out, float_text),
            Types::Int(n) => push_dec_signed(out, n as i64),
            Types::Null => push_str(out, "Null"),
            Types::Pointer(loc, _) => push_dec(out, loc as u64),
            Types::Usize(n) => push_dec(out, n as u64),
        }
    }

    fn kind_label(&self) -> (s: &'static str)
        ensures
            s@ == self.kind_name(),
    {
        match *self {
            Types::Bool(_) => "Bool",
            Types::Byte(_) => "Byte",
            Types::Char(_) => "Char",
            Types::CodePointer(_) => "CodePointer",
            Types::Float(_) => "Float",
            Types::Int(_) => "Int",
            Types::Null => "Null",
            Types::Pointer(_, _) => "Pointer",
            Types::Usize(_) => "Usize",
        }
    }

    /// Displays the value in the given style. The text of a float is
    /// supplied by the caller as `float_text`.
    pub fn render(&self, style: DisplayStyle, float_text: &str) -> (s: String)
        ensures
            s@ == self.spec_render(style, float_text@),
    {
        let mut out = String::new();
        match style {
            DisplayStyle::TypeName => {
                push_str(&mut out, self.kind_label());
            },
            DisplayStyle::Tagged => {
                match *self {
                    Types::Null => push_str(&mut out, "Null"),
                    Types::Pointer(loc, kind) => {
                        push_str(&mut out, "Pointer<");
                        push_dec(&mut out, loc as u64);
                        push_str(&mut out, ", ");
                        push_str(&mut out, kind.label());
                        push_str(&mut out, ">");
                    },
                    _ => {
                        push_str(&mut out, self.kind_label());
                        push_str(&mut out, "<");
                        self.push_value(&mut out, float_text);
                        push_str(&mut out, ">");
                    },
                }
            },
            DisplayStyle::Plain => {
                self.push_value(&mut out, float_text);
            },
        }
        out
    }
}

} // verus!
