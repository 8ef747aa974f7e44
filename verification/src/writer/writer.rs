//! Serialising compiled programs to text.
use vstd::prelude::*;

use crate::runtime::runtime_types::{Instructions, Types};
use crate::text::{byte_len, hex_padded, lemma_byte_len_is_utf8_len, push_char, push_hex_padded, push_str};

verus! {

/// The writer has a text form for this instruction.
pub open spec fn has_encoding(instr: Instructions) -> bool {
    !(instr is RRet || instr is Cast || instr is Len || instr is Type)
}

/// Text form of an instruction: its opcode letter followed by its operands
/// in zero-padded hexadecimal.
pub open spec fn instr_text(instr: Instructions) -> Seq<char> {
    match instr {
        Instructions::Wr(n) => seq!['A'] + hex_padded(n as nat, 2),
        Instructions::Rd(n, n1) => seq!['B'] + hex_padded(n as nat, 2) + hex_padded(n1 as nat, 1),
        Instructions::Wrp(n, n1) => seq!['C'] + hex_padded(n as nat, 1) + hex_padded(n1 as nat, 1),
        Instructions::Rdp(n, n1) => seq!['D'] + hex_padded(n as nat, 1) + hex_padded(n1 as nat, 1),
        Instructions::Rdc(n, n1) => seq!['E'] + hex_padded(n as nat, 2) + hex_padded(n1 as nat, 1),
        Instructions::Ptr(n) => seq!['F'] + hex_padded(n as nat, 2),
        Instructions::Alc(n, n1) => seq!['G'] + hex_padded(n as nat, 1) + hex_padded(n1 as nat, 1),
        Instructions::Goto(n) => seq!['H'] + hex_padded(n as nat, 4),
        Instructions::Brnc(n, n1) => seq!['I'] + hex_padded(n as nat, 4) + hex_padded(n1 as nat, 4),
        Instructions::Ret => seq!['J'],
        Instructions::Res(n) => seq!['K'] + hex_padded(n as nat, 2),
        Instructions::Mov(n, n1) => seq!['L'] + hex_padded(n as nat, 1) + hex_padded(n1 as nat, 1),
        Instructions::Add => seq!['M'],
        Instructions::Sub => seq!['N'],
        Instructions::Mul => seq!['O'],
        Instructions::Div => seq!['P'],
        Instructions::Mod => seq!['Q'],
        Instructions::Equ => seq!['R'],
        Instructions::Grt => seq!['S'],
        Instructions::And => seq!['T'],
        Instructions::Or => seq!['U'],
        Instructions::Not => seq!['V'],
        Instructions::Cal(n, n1) => seq!['W'] + hex_padded(n as nat, 3) + hex_padded(n1 as nat, 2),
        Instructions::End => seq!['X'],
        Instructions::Dalc(n) => seq!['Y'] + hex_padded(n as nat, 1),
        Instructions::RAlc(n, n1) => seq!['Z'] + hex_padded(n as nat, 1) + hex_padded(n1 as nat, 1),
        Instructions::Idx(n, n1) => seq!['['] + hex_padded(n as nat, 1) + hex_padded(n1 as nat, 1),
        Instructions::Repp(n) => seq!['\\'] + hex_padded(n as nat, 1),
        Instructions::Less => seq![']'],
        Instructions::Debug(n) => seq!['^'] + hex_padded(n as nat, 1),
        Instructions::Gotop(n) => seq!['_'] + hex_padded(n as nat, 4),
        _ => seq![],
    }
}

/// Text form of a constant: a type letter followed by its bits in
/// zero-padded hexadecimal.
pub open spec fn val_text(val: Types) -> Seq<char> {
    match val {
        Types::Int(value) => seq!['A'] + hex_padded((value as u32) as nat, 8),
        Types::Float(bits) => seq!['B'] + hex_padded(bits as nat, 16),
        Types::Byte(byte) => seq!['C'] + hex_padded(byte as nat, 2),
        Types::Char(c) => seq!['D'] + hex_padded((c as u8) as nat, 2),
        Types::Usize(u) => seq!['E'] + hex_padded(u as nat, 32),
        Types::Bool(b) => seq!['F'] + hex_padded(
            if b {
                1
            } else {
                0
            },
            1,
        ),
        Types::Pointer(_, _) => seq![],
        Types::Null => seq!['G'],
        Types::CodePointer(u) => seq!['I'] + hex_padded(u as nat, 32),
    }
}

/// A character constant that continues a string (anything but `'\0'`).
pub open spec fn is_str_char(t: Types) -> bool {
    t matches Types::Char(c) && c != '\0'
}

/// The character held by a character constant.
pub open spec fn char_of(t: Types) -> char {
    match t {
        Types::Char(c) => c,
        _ => '\0',
    }
}

/// First position at or after `i` that does not continue a string.
pub open spec fn str_end(consts: Seq<Types>, i: int) -> int
    decreases consts.len() - i,
{
    if i >= consts.len() || i < 0 {
        consts.len() as int
    } else if is_str_char(consts[i]) {
        str_end(consts, i + 1)
    } else {
        i
    }
}

/// The characters of `consts[i..e]`.
pub open spec fn str_chars(consts: Seq<Types>, i: int, e: int) -> Seq<char> {
    Seq::new((e - i) as nat, |j: int| char_of(consts[i + j]))
}

/// The quoted string starting at `i`, when the characters from `i` on are
/// ended by a `'\0'` character.
pub open spec fn spec_get_str(consts: Seq<Types>, i: int) -> Option<Seq<char>> {
    let e = str_end(consts, i);
    if 0 <= e < consts.len() && (consts[e] matches Types::Char(c) && c == '\0') {
        Some(seq!['"'] + str_chars(consts, i, e) + seq!['"'])
    } else {
        None
    }
}

/// What `to_string` writes for the constant at `i`, and where it goes on.
pub open spec fn const_step(consts: Seq<Types>, i: int) -> (Seq<char>, int) {
    if consts[i] is Char && spec_get_str(consts, i) is Some {
        let s = spec_get_str(consts, i).unwrap();
        (s, i + byte_len(s) - 1)
    } else {
        (val_text(consts[i]), i + 1)
    }
}

/// The text of the constants from `i` on.
pub open spec fn consts_text(consts: Seq<Types>, i: int) -> Seq<char>
    decreases consts.len() - i,
{
    if i >= consts.len() || i < 0 {
        seq![]
    } else {
        let (s, next) = const_step(consts, i);
        if i < next <= consts.len() {
            s + consts_text(consts, next)
        } else {
            s
        }
    }
}

/// Writing the constants from `i` on neither reads past their end nor
/// overflows a position.
pub open spec fn consts_writable(consts: Seq<Types>, i: int) -> bool
    decreases consts.len() - i,
{
    if i >= consts.len() || i < 0 {
        true
    } else {
        &&& consts[i] is Char ==> str_end(consts, i) < consts.len()
        &&& (consts[i] is Char && spec_get_str(consts, i) is Some) ==> {
            let s = spec_get_str(consts, i).unwrap();
            &&& byte_len(s) <= usize::MAX
            &&& i + byte_len(s) - 1 <= usize::MAX
        }
        &&& {
            let next = const_step(consts, i).1;
            i < next <= consts.len() ==> consts_writable(consts, next)
        }
    }
}

/// The text of a sequence of instructions.
pub open spec fn code_text(code: Seq<Instructions>) -> Seq<char>
    decreases code.len(),
{
    if code.len() == 0 {
        seq![]
    } else {
        code_text(code.drop_last()) + instr_text(code.last())
    }
}

/// The whole text of a program: constants, `?`, instructions, `?`.
pub open spec fn program_text(code: Seq<Instructions>, consts: Seq<Types>) -> Seq<char> {
    consts_text(consts, 0) + seq!['?'] + code_text(code) + seq!['?']
}

proof fn lemma_str_end_bounds(consts: Seq<Types>, i: int)
    requires
        0 <= i <= consts.len(),
    ensures
        i <= str_end(consts, i) <= consts.len(),
        forall|j: int| i <= j < str_end(consts, i) ==> is_str_char(#[trigger] consts[j]),
        str_end(consts, i) < consts.len() ==> !is_str_char(consts[str_end(consts, i)]),
    decreases consts.len() - i,
{
    if i < consts.len() && is_str_char(consts[i]) {
        lemma_str_end_bounds(consts, i + 1);
    }
}

/// A string of character constants is read up to the first `'\0'`: it is
/// written between quotes, holding each character before the `'\0'` in
/// order; a constant other than a character before any `'\0'` leaves no
/// string.
pub proof fn law_strings_end_at_nul(consts: Seq<Types>, i: int, e: int)
    requires
        0 <= i <= e < consts.len(),
        forall|j: int| i <= j < e ==> (#[trigger] consts[j] matches Types::Char(c) && c != '\0'),
    ensures
        consts[e] == Types::Char('\0') ==> (spec_get_str(consts, i) matches Some(r) && r.len() == e
            - i + 2 && r[0] == '"' && r[e - i + 1] == '"' && forall|j: int|
            0 <= j < e - i ==> consts[i + j] == Types::Char(#[trigger] r[j + 1])),
        !(consts[e] is Char) ==> spec_get_str(consts, i) is None,
{
    lemma_str_end_bounds(consts, i);
    let k = str_end(consts, i);
    if k < e {
        assert(is_str_char(consts[k]));
    }
    if !is_str_char(consts[e]) && k > e {
        assert(is_str_char(consts[e]));
    }
    if consts[e] == Types::Char('\0') {
        let r = spec_get_str(consts, i).unwrap();
        assert forall|j: int| 0 <= j < e - i implies consts[i + j] == Types::Char(#[trigger] r[j + 1]) by {
            assert(r[j + 1] == str_chars(consts, i, e)[j]);
            assert(consts[i + j] matches Types::Char(c) && c != '\0');
        }
    }
}

proof fn lemma_step_advances(consts: Seq<Types>, i: int)
    requires
        0 <= i < consts.len(),
    ensures
        const_step(consts, i).1 > i,
{
    if consts[i] is Char && spec_get_str(consts, i) is Some {
        let e = str_end(consts, i);
        let s = spec_get_str(consts, i).unwrap();
        lemma_byte_len_two_quotes(str_chars(consts, i, e));
    }
}

proof fn lemma_byte_len_two_quotes(c: Seq<char>)
    ensures
        byte_len(seq!['"'] + c + seq!['"']) == byte_len(c) + 2,
{
    crate::text::lemma_byte_len_concat(seq!['"'] + c, seq!['"']);
    crate::text::lemma_byte_len_concat(seq!['"'], c);
    let q: Seq<char> = seq!['"'];
    assert(q.drop_last() =~= Seq::<char>::empty());
    assert(byte_len(Seq::<char>::empty()) == 0);
    assert(q.last() == '"');
    assert(('"' as u32) == 34);
    assert(byte_len(q) == 1);
}

pub fn num_to_hbytes1(num: usize) -> (s: String)
    ensures
        s@ == hex_padded(num as nat, 1),
{
    let mut s = String::new();
    push_hex_padded(&mut s, num as u64, 1);
    s
}

pub fn num_to_hbytes2(num: usize) -> (s: String)
    ensures
        s@ == hex_padded(num as nat, 2),
{
    let mut s = String::new();
    push_hex_padded(&mut s, num as u64, 2);
    s
}

pub fn num_to_hbytes3(num: usize) -> (s: String)
    ensures
        s@ == hex_padded(num as nat, 3),
{
    let mut s = String::new();
    push_hex_padded(&mut s, num as u64, 3);
    s
}

pub fn num_to_hbytes4(num: usize) -> (s: String)
    ensures
        s@ == hex_padded(num as nat, 4),
{
    let mut s = String::new();
    push_hex_padded(&mut s, num as u64, 4);
    s
}

pub fn instr_to_str(instr: Instructions) -> (s: String)
    requires
        has_encoding(instr),
    ensures
        s@ == instr_text(instr),
{
    let mut out = String::new();
    match instr {
        Instructions::Wr(n) => {
            push_char(&mut out, 'A');
            push_str(&mut out, num_to_hbytes2(n).as_str());
        },
        Instructions::Rd(n, n1) => {
            push_char(&mut out, 'B');
            push_str(&mut out, num_to_hbytes2(n).as_str());
            push_str(&mut out, num_to_hbytes1(n1).as_str());
        },
        Instructions::Wrp(n, n1) => {
            push_char(&mut out, 'C');
            push_str(&mut out, num_to_hbytes1(n).as_str());
            push_str(&mut out, num_to_hbytes1(n1).as_str());
        },
        Instructions::Rdp(n, n1) => {
            push_char(&mut out, 'D');
            push_str(&mut out, num_to_hbytes1(n).as_str());
            push_str(&mut out, num_to_hbytes1(n1).as_str());
        },
        Instructions::Rdc(n, n1) => {
            push_char(&mut out, 'E');
            push_str(&mut out, num_to_hbytes2(n).as_str());
            push_str(&mut out, num_to_hbytes1(n1).as_str());
        },
        Instructions::Ptr(n) => {
            push_char(&mut out, 'F');
            push_str(&mut out, num_to_hbytes2(n).as_str());
        },
        Instructions::Alc(n, n1) => {
            push_char(&mut out, 'G');
            push_str(&mut out, num_to_hbytes1(n).as_str());
            push_str(&mut out, num_to_hbytes1(n1).as_str());
        },
        Instructions::Goto(n) => {
            push_char(&mut out, 'H');
            push_str(&mut out, num_to_hbytes4(n).as_str());
        },
        Instructions::Brnc(n, n1) => {
            push_char(&mut out, 'I');
            push_str(&mut out, num_to_hbytes4(n).as_str());
            push_str(&mut out, num_to_hbytes4(n1).as_str());
        },
        Instructions::Ret => {
            push_char(&mut out, 'J');
        },
        Instructions::Res(n) => {
            push_char(&mut out, 'K');
            push_str(&mut out, num_to_hbytes2(n).as_str());
        },
        Instructions::Mov(n, n1) => {
            push_char(&mut out, 'L');
            push_str(&mut out, num_to_hbytes1(n).as_str());
            push_str(&mut out, num_to_hbytes1(n1).as_str());
        },
        Instructions::Add => {
            push_char(&mut out, 'M');
        },
        Instructions::Sub => {
            push_char(&mut out, 'N');
        },
        Instructions::Mul => {
            push_char(&mut out, 'O');
        },
        Instructions::Div => {
            push_char(&mut out, 'P');
        },
        Instructions::Mod => {
            push_char(&mut out, 'Q');
        },
        Instructions::Equ => {
            push_char(&mut out, 'R');
        },
        Instructions::Grt => {
            push_char(&mut out, 'S');
        },
        Instructions::And => {
            push_char(&mut out, 'T');
        },
        Instructions::Or => {
            push_char(&mut out, 'U');
        },
        Instructions::Not => {
            push_char(&mut out, 'V');
        },
        Instructions::Cal(n, n1) => {
            push_char(&mut out, 'W');
            push_str(&mut out, num_to_hbytes3(n).as_str());
            push_str(&mut out, num_to_hbytes2(n1).as_str());
        },
        Instructions::End => {
            push_char(&mut out, 'X');
        },
        Instructions::Dalc(n) => {
            push_char(&mut out, 'Y');
            push_str(&mut out, num_to_hbytes1(n).as_str());
        },
        Instructions::RAlc(n, n1) => {
            push_char(&mut out, 'Z');
            push_str(&mut out, num_to_hbytes1(n).as_str());
            push_str(&mut out, num_to_hbytes1(n1).as_str());
        },
        Instructions::Idx(n, n1) => {
            push_char(&mut out, '[');
            push_str(&mut out, num_to_hbytes1(n).as_str());
            push_str(&mut out, num_to_hbytes1(n1).as_str());
        },
        Instructions::Repp(n) => {
            push_char(&mut out, '\\');
            push_str(&mut out, num_to_hbytes1(n).as_str());
        },
        Instructions::Less => {
            push_char(&mut out, ']');
        },
        Instructions::Debug(n) => {
            push_char(&mut out, '^');
            push_str(&mut out, num_to_hbytes1(n).as_str());
        },
        Instructions::Gotop(n) => {
            push_char(&mut out, '_');
            push_str(&mut out, num_to_hbytes4(n).as_str());
        },
        _ => {},
    }
    out
}

pub fn val_to_string(val: Types) -> (s: String)
    ensures
        s@ == val_text(val),
{
    let mut out = String::new();
    match val {
        Types::Int(value) => {
            let bytes: u32 = value as u32;
            push_char(&mut out, 'A');
            push_hex_padded(&mut out, bytes as u64, 8);
        },
        Types::Float(bits) => {
            push_char(&mut out, 'B');
            push_hex_padded(&mut out, bits, 16);
        },
        Types::Byte(byte) => {
            push_char(&mut out, 'C');
            push_hex_padded(&mut out, byte as u64, 2);
        },
        Types::Char(c) => {
            push_char(&mut out, 'D');
            push_hex_padded(&mut out, (c as u8) as u64, 2);
        },
        Types::Usize(u) => {
            push_char(&mut out, 'E');
            push_hex_padded(&mut out, u as u64, 32);
        },
        Types::Bool(b) => {
            let num: u64 = if b {
                1
            } else {
                0
            };
            push_char(&mut out, 'F');
            push_hex_padded(&mut out, num, 1);
        },
        Types::Pointer(_, _) => {},
        Types::Null => push_char(&mut out, 'G'),
        Types::CodePointer(u) => {
            push_char(&mut out, 'I');
            push_hex_padded(&mut out, u as u64, 32);
        },
    }
    out
}

/// The quoted string of the characters from `index` up to the next `'\0'`
/// character; `None` when a constant other than a character comes first.
pub fn get_str(index: usize, consts: &Vec<Types>) -> (r: Option<String>)
    requires
        str_end(consts@, index as int) < consts@.len(),
    ensures
        match r {
            Some(s) => spec_get_str(consts@, index as int) == Some(s@),
            None => spec_get_str(consts@, index as int) is None,
        },
{
    proof {
        lemma_str_end_bounds(consts@, index as int);
    }
    let ghost e = str_end(consts@, index as int);
    let n = consts.len();
    let mut idx = index;
    let ghost start = index as int;
    let mut str = String::new();
    push_char(&mut str, '"');
    loop
        invariant
            start <= idx <= e < consts@.len(),
            start == index,
            n == consts@.len(),
            e == str_end(consts@, start),
            forall|j: int| start <= j < e ==> is_str_char(#[trigger] consts@[j]),
            e < consts@.len() ==> !is_str_char(consts@[e]),
            str@ == seq!['"'] + str_chars(consts@, start, idx as int),
        decreases e - idx,
    {
        if let Types::Char(c) = consts[idx] {
            if c == '\0' {
                let ghost before = str@;
                push_char(&mut str, '"');
                assert(idx == e);
                assert(str@ =~= seq!['"'] + str_chars(consts@, start, e) + seq!['"']);
                assert(spec_get_str(consts@, start) == Some(str@));
                return Some(str);
            }
            push_char(&mut str, c);
            assert(str_chars(consts@, start, idx + 1) =~= str_chars(consts@, start, idx as int).push(c));
            idx += 1;
        } else {
            assert(idx == e);
            return None;
        }
    }
}

/// The text of a program: its constants (strings of characters written
/// quoted), `?`, its instructions, `?`.
pub fn to_string(code: &Vec<Instructions>, consts: &Vec<Types>) -> (s: String)
    requires
        consts_writable(consts@, 0),
        forall|j: int| 0 <= j < code@.len() ==> has_encoding(#[trigger] code@[j]),
    ensures
        s@ == program_text(code@, consts@),
{
    let mut str = String::new();
    let mut i: usize = 0;
    while i < consts.len()
        invariant
            i <= consts@.len() || consts_text(consts@, i as int) == Seq::<char>::empty(),
            consts_writable(consts@, i as int),
            consts_text(consts@, 0) == str@ + consts_text(consts@, i as int),
        decreases (if i <= consts@.len() {
            consts@.len() - i
        } else {
            0
        }),
    {
        proof {
            lemma_step_advances(consts@, i as int);
            lemma_str_end_bounds(consts@, i as int);
        }
        let ghost prev = str@;
        if let Types::Char(_) = consts[i] {
            if let Some(string) = get_str(i, &consts) {
                proof {
                    lemma_byte_len_is_utf8_len(string@);
                    lemma_byte_len_two_quotes(str_chars(consts@, i as int, str_end(consts@, i as int)));
                }
                push_str(&mut str, string.as_str());
                i += string.as_str().len() - 1;
            } else {
                push_str(&mut str, val_to_string(consts[i]).as_str());
                i += 1;
            }
        } else {
            push_str(&mut str, val_to_string(consts[i]).as_str());
            i += 1;
        }
        assert(consts_text(consts@, 0) == str@ + consts_text(consts@, i as int));
    }
    push_char(&mut str, '?');
    let ghost before_code = str@;
    let mut k: usize = 0;
    while k < code.len()
        invariant
            k <= code@.len(),
            forall|j: int| 0 <= j < code@.len() ==> has_encoding(#[trigger] code@[j]),
            str@ == before_code + code_text(code@.take(k as int)),
        decreases code@.len() - k,
    {
        push_str(&mut str, instr_to_str(code[k]).as_str());
        assert(code@.take(k + 1).drop_last() =~= code@.take(k as int));
        k += 1;
    }
    assert(code@.take(code@.len() as int) =~= code@);
    push_char(&mut str, '?');
    str
}

} // verus!
