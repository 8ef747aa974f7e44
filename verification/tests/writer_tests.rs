use rusty_danda::runtime::runtime_types::{Instructions, PointerTypes, Types};
use rusty_danda::writer::writer::{
    get_str, instr_to_str, num_to_hbytes1, num_to_hbytes2, num_to_hbytes3, num_to_hbytes4,
    to_string, val_to_string,
};

#[test]
fn hex_bytes_pad_with_zeros() {
    assert_eq!(num_to_hbytes1(0), "0");
    assert_eq!(num_to_hbytes1(10), "a");
    assert_eq!(num_to_hbytes1(255), "ff");
    assert_eq!(num_to_hbytes2(5), "05");
    assert_eq!(num_to_hbytes2(0xab), "ab");
    assert_eq!(num_to_hbytes2(0x1ab), "1ab");
    assert_eq!(num_to_hbytes3(0x1f), "01f");
    assert_eq!(num_to_hbytes4(0), "0000");
    assert_eq!(num_to_hbytes4(0xbeef), "beef");
    assert_eq!(num_to_hbytes4(0x12345), "12345");
}

#[test]
fn instructions_text() {
    assert_eq!(instr_to_str(Instructions::Wr(3)), "A03");
    assert_eq!(instr_to_str(Instructions::Rd(4, 0)), "B040");
    assert_eq!(instr_to_str(Instructions::Wrp(0, 1)), "C01");
    assert_eq!(instr_to_str(Instructions::Rdp(1, 0)), "D10");
    assert_eq!(instr_to_str(Instructions::Rdc(1, 1)), "E011");
    assert_eq!(instr_to_str(Instructions::Ptr(0)), "F00");
    assert_eq!(instr_to_str(Instructions::Alc(0, 0)), "G00");
    assert_eq!(instr_to_str(Instructions::Goto(7)), "H0007");
    assert_eq!(instr_to_str(Instructions::Brnc(1, 8)), "I00010008");
    assert_eq!(instr_to_str(Instructions::Ret), "J");
    assert_eq!(instr_to_str(Instructions::Res(5)), "K05");
    assert_eq!(instr_to_str(Instructions::Mov(0, 1)), "L01");
    assert_eq!(instr_to_str(Instructions::Add), "M");
    assert_eq!(instr_to_str(Instructions::Sub), "N");
    assert_eq!(instr_to_str(Instructions::Mul), "O");
    assert_eq!(instr_to_str(Instructions::Div), "P");
    assert_eq!(instr_to_str(Instructions::Mod), "Q");
    assert_eq!(instr_to_str(Instructions::Equ), "R");
    assert_eq!(instr_to_str(Instructions::Grt), "S");
    assert_eq!(instr_to_str(Instructions::And), "T");
    assert_eq!(instr_to_str(Instructions::Or), "U");
    assert_eq!(instr_to_str(Instructions::Not), "V");
    assert_eq!(instr_to_str(Instructions::Cal(2, 3)), "W00203");
    assert_eq!(instr_to_str(Instructions::End), "X");
    assert_eq!(instr_to_str(Instructions::Dalc(0)), "Y0");
    assert_eq!(instr_to_str(Instructions::RAlc(1, 0)), "Z10");
    assert_eq!(instr_to_str(Instructions::Idx(1, 0)), "[10");
    assert_eq!(instr_to_str(Instructions::Repp(2)), "\\2");
    assert_eq!(instr_to_str(Instructions::Less), "]");
    assert_eq!(instr_to_str(Instructions::Debug(0)), "^0");
    assert_eq!(instr_to_str(Instructions::Gotop(1)), "_0001");
}

#[test]
fn values_text() {
    assert_eq!(val_to_string(Types::Int(255)), "A000000ff");
    assert_eq!(val_to_string(Types::Int(-1)), "Affffffff");
    assert_eq!(val_to_string(Types::Float(1.5f64.to_bits())), "B3ff8000000000000");
    assert_eq!(val_to_string(Types::Byte(7)), "C07");
    assert_eq!(val_to_string(Types::Char('a')), "D61");
    assert_eq!(val_to_string(Types::Usize(1)), "E00000000000000000000000000000001");
    assert_eq!(val_to_string(Types::Bool(true)), "F1");
    assert_eq!(val_to_string(Types::Bool(false)), "F0");
    assert_eq!(val_to_string(Types::Pointer(3, PointerTypes::Stack)), "");
    assert_eq!(val_to_string(Types::Null), "G");
    assert_eq!(val_to_string(Types::CodePointer(16)), "I00000000000000000000000000000010");
}

#[test]
fn get_str_reads_to_nul() {
    let consts = vec![Types::Char('h'), Types::Char('i'), Types::Char('\0'), Types::Null];
    assert_eq!(get_str(0, &consts), Some(String::from("\"hi\"")));
    assert_eq!(get_str(1, &consts), Some(String::from("\"i\"")));
    assert_eq!(get_str(2, &consts), Some(String::from("\"\"")));
}

#[test]
fn get_str_none_before_other_constant() {
    let consts = vec![Types::Char('h'), Types::Int(1), Types::Char('\0')];
    assert_eq!(get_str(0, &consts), None);
    assert_eq!(get_str(1, &consts), None);
}

#[test]
fn program_to_string() {
    let consts = vec![Types::Int(1), Types::Char('o'), Types::Char('k'), Types::Char('\0'), Types::Bool(true)];
    let code = vec![Instructions::Rdc(0, 0), Instructions::Debug(0), Instructions::End];
    assert_eq!(to_string(&code, &consts), "A00000001\"ok\"F1?E000^0X?");
}

#[test]
fn program_to_string_char_without_nul() {
    let consts = vec![Types::Char('x'), Types::Null];
    assert_eq!(to_string(&vec![], &consts), "D78G??");
}

#[test]
fn program_to_string_empty() {
    assert_eq!(to_string(&vec![], &vec![]), "??");
}

#[test]
fn hex_fields_read_back() {
    for n in [0usize, 1, 9, 10, 15, 16, 255, 0x1a2, 0xffff] {
        let s = num_to_hbytes4(n);
        assert_eq!(s.len(), 4);
        assert_eq!(usize::from_str_radix(&s, 16).unwrap(), n);
        assert!(s.chars().all(|c| c.is_ascii_digit() || ('a'..='f').contains(&c)));
    }
    // a number wider than its field keeps all of its digits
    assert_eq!(num_to_hbytes2(0x1234), "1234");
    assert_eq!(num_to_hbytes3(0xabcd), "abcd");
    assert_eq!(num_to_hbytes3(0xa), "00a");
    assert_eq!(usize::from_str_radix(&num_to_hbytes1(0xabc), 16).unwrap(), 0xabc);
}
