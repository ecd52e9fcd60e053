use evm_disasm::disassembler::{disassemble, Disassembler, DisasmError, ReadError};
use evm_disasm::instruction::Instruction;

fn lines(input: &str) -> Vec<String> {
    disassemble(input.as_bytes()).expect("decode should succeed")
}

fn decode_error(input: &str) -> DisasmError {
    disassemble(input.as_bytes()).expect_err("decode should fail")
}

#[test]
fn empty_input_decodes_to_nothing() {
    assert_eq!(lines(""), Vec::<String>::new());
}

#[test]
fn whitespace_only_input_decodes_to_nothing() {
    assert_eq!(lines("  \t\n\r \x0c"), Vec::<String>::new());
}

#[test]
fn stop_decodes_end_to_end() {
    assert_eq!(lines("00"), vec!["stop"]);
}

#[test]
fn push_push_add_decodes_end_to_end() {
    assert_eq!(lines("6001600201"), vec!["push1 01", "push1 02", "add"]);
}

#[test]
fn designated_invalid_opcode_is_known() {
    assert_eq!(lines("fe"), vec!["invalid"]);
}

#[test]
fn selfdestruct_is_known_and_next_byte_degrades() {
    assert_eq!(lines("ff"), vec!["selfdestruct"]);
    assert_eq!(lines("ff21"), vec!["selfdestruct", "?21?"]);
    assert_eq!(lines("ff2101"), vec!["selfdestruct", "?21?", "?01?"]);
}

#[test]
fn every_known_single_byte_opcode_decodes_to_its_mnemonic() {
    let table: Vec<(u8, &str)> = vec![
        (0x00, "stop"),
        (0x01, "add"),
        (0x02, "mul"),
        (0x03, "sub"),
        (0x04, "div"),
        (0x05, "sdiv"),
        (0x06, "mod"),
        (0x07, "smod"),
        (0x08, "addmod"),
        (0x09, "mulmod"),
        (0x0a, "exp"),
        (0x0b, "signextend"),
        (0x10, "lt"),
        (0x11, "gt"),
        (0x12, "slt"),
        (0x13, "sgt"),
        (0x14, "eq"),
        (0x15, "iszero"),
        (0x16, "and"),
        (0x17, "or"),
        (0x18, "xor"),
        (0x19, "not"),
        (0x1a, "byte"),
        (0x1b, "shl"),
        (0x1c, "shr"),
        (0x1d, "sar"),
        (0x20, "keccak256"),
        (0x30, "address"),
        (0x31, "balance"),
        (0x32, "origin"),
        (0x33, "caller"),
        (0x34, "callvalue"),
        (0x35, "calldataload"),
        (0x36, "calldatasize"),
        (0x37, "calldatacopy"),
        (0x38, "codesize"),
        (0x39, "codecopy"),
        (0x3a, "gasprice"),
        (0x3b, "extcodesize"),
        (0x3c, "extcodecopy"),
        (0x3d, "returndatasize"),
        (0x3e, "returndatacopy"),
        (0x3f, "extcodehash"),
        (0x40, "blockhash"),
        (0x41, "coinbase"),
        (0x42, "timestamp"),
        (0x43, "number"),
        (0x44, "difficulty"),
        (0x45, "gaslimit"),
        (0x46, "chainid"),
        (0x50, "pop"),
        (0x51, "mload"),
        (0x52, "mstore"),
        (0x53, "mstore8"),
        (0x54, "sload"),
        (0x55, "sstore"),
        (0x56, "jump"),
        (0x57, "jumpi"),
        (0x58, "getpc"),
        (0x59, "msize"),
        (0x5a, "gas"),
        (0x5b, "jumpdest :0"),
        (0x80, "dup1"),
        (0x8f, "dup16"),
        (0x90, "swap1"),
        (0x9f, "swap16"),
        (0xa0, "log0"),
        (0xa4, "log4"),
        (0xf0, "create"),
        (0xf1, "call"),
        (0xf2, "callcode"),
        (0xf3, "return"),
        (0xf4, "delegatecall"),
        (0xf5, "create2"),
        (0xfa, "staticcall"),
        (0xfd, "revert"),
        (0xfe, "invalid"),
        (0xff, "selfdestruct"),
    ];
    for (op, mnemonic) in table {
        let text = format!("{:02x}", op);
        assert_eq!(lines(&text), vec![mnemonic.to_string()], "opcode {:#04x}", op);
    }
}

#[test]
fn every_push_width_reads_its_operand_big_endian() {
    for n in 1u8..=32 {
        let mut text = format!("{:02x}", 0x5f + n);
        let mut expected = format!("push{} ", n);
        for j in 0..n {
            text.push_str(&format!("{:02x}", j + 1));
            expected.push_str(&format!("{:02x}", j + 1));
        }
        assert_eq!(lines(&text), vec![expected], "push{}", n);
    }
}

#[test]
fn push_value_is_zero_padded_to_its_width() {
    assert_eq!(lines("61000a"), vec!["push2 000a"]);
    assert_eq!(
        lines("7f0000000000000000000000000000000000000000000000000000000000000001"),
        vec!["push32 0000000000000000000000000000000000000000000000000000000000000001"]
    );
}

#[test]
fn push_with_missing_operand_bytes_is_truncation() {
    assert_eq!(decode_error("60"), DisasmError::Truncated);
    assert_eq!(decode_error("61aa"), DisasmError::Truncated);
    assert_eq!(decode_error("7f00112233"), DisasmError::Truncated);
}

#[test]
fn end_of_input_mid_byte_is_truncation() {
    assert_eq!(decode_error("6"), DisasmError::Truncated);
    assert_eq!(decode_error("600"), DisasmError::Truncated);
}

#[test]
fn non_hex_character_is_an_error() {
    assert_eq!(decode_error("zz"), DisasmError::InvalidHex);
    assert_eq!(decode_error("0g"), DisasmError::InvalidHex);
    assert_eq!(decode_error("+1"), DisasmError::InvalidHex);
    assert_eq!(decode_error("60 0x"), DisasmError::InvalidHex);
}

#[test]
fn sticky_unknown_never_returns_to_the_table() {
    assert_eq!(lines("2101"), vec!["?21?", "?01?"]);
    assert_eq!(lines("0c00ff"), vec!["?0c?", "?00?", "?ff?"]);
}

#[test]
fn whitespace_tolerant_decoding_is_identical() {
    let compact = lines("6001");
    assert_eq!(compact, vec!["push1 01"]);
    assert_eq!(lines("60 01"), compact);
    assert_eq!(lines("6\n0\t01"), compact);
    assert_eq!(lines("6 0 01"), compact);
}

#[test]
fn jumpdest_offset_counts_operand_bytes() {
    assert_eq!(lines("5b"), vec!["jumpdest :0"]);
    assert_eq!(lines("60015b"), vec!["push1 01", "jumpdest :2"]);
    assert_eq!(lines("6100015b"), vec!["push2 0001", "jumpdest :3"]);
}

#[test]
fn jumpdest_offset_renders_in_hexadecimal() {
    let mut text = String::new();
    for _ in 0..17 {
        text.push_str("00");
    }
    text.push_str("5b");
    let out = lines(&text);
    assert_eq!(out.len(), 18);
    assert_eq!(out[17], "jumpdest :11");
}

#[test]
fn uppercase_hex_digits_are_accepted() {
    assert_eq!(lines("FF"), vec!["selfdestruct"]);
    assert_eq!(lines("60AB"), vec!["push1 ab"]);
}

#[test]
fn next_instruction_yields_typed_instructions() {
    let mut d = Disassembler::new(b"6001015b".to_vec());
    let first = d.next_instruction().unwrap().unwrap();
    assert!(matches!(first, Instruction::Push(1, _)));
    if let Instruction::Push(_, w) = &first {
        let bytes = w.as_be_bytes();
        assert_eq!(bytes.len(), 32);
        assert!(bytes[..31].iter().all(|b| *b == 0));
        assert_eq!(bytes[31], 0x01);
    }
    assert!(matches!(d.next_instruction(), Ok(Some(Instruction::Add))));
    assert!(matches!(
        d.next_instruction(),
        Ok(Some(Instruction::JumpDest(3)))
    ));
    assert!(matches!(d.next_instruction(), Ok(None)));
}

#[test]
fn next_byte_distinguishes_clean_end_from_truncation() {
    let mut d = Disassembler::new(b"60".to_vec());
    assert_eq!(d.next_byte().unwrap(), Some(0x60));
    assert_eq!(d.next_byte().unwrap(), None);

    let mut d = Disassembler::new(b"6".to_vec());
    assert_eq!(d.next_byte(), Err(DisasmError::Truncated));
}

#[test]
fn read_returns_hex_characters_and_counts_on_end() {
    let mut d = Disassembler::new(b" 6a \n 0".to_vec());
    assert_eq!(d.read(3), Ok(vec![b'6', b'a', b'0']));

    let mut d = Disassembler::new(b"6a".to_vec());
    assert_eq!(d.read(4), Err(ReadError::Eof(2)));

    let mut d = Disassembler::new(b"6?".to_vec());
    assert_eq!(d.read(2), Err(ReadError::NonHex));
}

#[test]
fn error_descriptions_name_the_failure() {
    assert_eq!(
        DisasmError::InvalidHex.describe(),
        "invalid hexadecimal character"
    );
    assert_eq!(DisasmError::Truncated.describe(), "unexpected end of input");
}

#[test]
fn whitespace_may_split_a_byte_and_an_operand() {
    assert_eq!(lines("60 0 1"), vec!["push1 01"]);
    assert_eq!(lines(" 0 0 "), vec!["stop"]);
    assert_eq!(lines("00 \n "), vec!["stop"]);
}

#[test]
fn unrecognized_opcodes_come_from_every_gap_in_the_table() {
    for op in [0x0cu8, 0x0e, 0x1e, 0x21, 0x2f, 0x47, 0x4f, 0xa5, 0xb0, 0xef, 0xf6, 0xfb] {
        let text = format!("{:02x}", op);
        assert_eq!(lines(&text), vec![format!("?{:02x}?", op)], "opcode {:#04x}", op);
    }
}

#[test]
fn push_opcode_after_degradation_is_opaque_data() {
    assert_eq!(lines("216001"), vec!["?21?", "?60?", "?01?"]);
}

#[test]
fn instructions_before_an_error_are_still_produced() {
    let mut d = Disassembler::new(b"005b6".to_vec());
    assert!(matches!(d.next_instruction(), Ok(Some(Instruction::Stop))));
    assert!(matches!(
        d.next_instruction(),
        Ok(Some(Instruction::JumpDest(1)))
    ));
    assert_eq!(d.next_instruction(), Err(DisasmError::Truncated));
}
