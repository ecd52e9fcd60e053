use evm_disasm::disassembler::{disassemble, Disassembler};
use evm_disasm::instruction::{Instruction, Word};

#[test]
fn rendering_is_idempotent() {
    let mut d = Disassembler::new(b"7f00112233445566778899aabbccddeeff00112233445566778899aabbccddee5b00".to_vec());
    loop {
        match d.next_instruction().unwrap() {
            Some(ins) => assert_eq!(ins.render(), ins.render()),
            None => break,
        }
    }
}

#[test]
fn payload_free_variants_render_their_bare_mnemonic() {
    assert_eq!(Instruction::<Word>::Stop.render(), "stop");
    assert_eq!(Instruction::<Word>::SelfDestruct.render(), "selfdestruct");
    assert_eq!(Instruction::<Word>::Keccak256.render(), "keccak256");
    assert_eq!(Instruction::<Word>::MStore8.render(), "mstore8");
}

#[test]
fn numbered_variants_render_their_operand_in_decimal() {
    assert_eq!(Instruction::<Word>::Dup(16).render(), "dup16");
    assert_eq!(Instruction::<Word>::Swap(3).render(), "swap3");
    assert_eq!(Instruction::<Word>::Log(0).render(), "log0");
}

#[test]
fn jumpdest_renders_its_offset_in_unpadded_hexadecimal() {
    assert_eq!(Instruction::<Word>::JumpDest(0).render(), "jumpdest :0");
    assert_eq!(Instruction::<Word>::JumpDest(10).render(), "jumpdest :a");
    assert_eq!(Instruction::<Word>::JumpDest(0x1f3).render(), "jumpdest :1f3");
}

#[test]
fn unknown_renders_the_byte_between_question_marks() {
    assert_eq!(Instruction::<Word>::Unknown(0x21).render(), "?21?");
    assert_eq!(Instruction::<Word>::Unknown(0x00).render(), "?00?");
    assert_eq!(Instruction::<Word>::Unknown(0xff).render(), "?ff?");
}

#[test]
fn push_renders_its_value_padded_to_its_width() {
    let w = Word::from_be_bytes(&vec![0x0a]);
    assert_eq!(Instruction::Push(1, w).render(), "push1 0a");
    let w = Word::from_be_bytes(&vec![0x0a]);
    assert_eq!(Instruction::Push(3, w).render(), "push3 00000a");
}

#[test]
fn word_zero_extends_its_bytes_on_the_left() {
    let w = Word::from_be_bytes(&vec![0xab, 0xcd]);
    let bytes = w.as_be_bytes();
    assert_eq!(bytes.len(), 32);
    assert!(bytes[..30].iter().all(|b| *b == 0));
    assert_eq!(&bytes[30..], &[0xab, 0xcd]);
}

#[test]
fn decoded_lines_match_direct_rendering() {
    let out = disassemble(b"60ff5b").unwrap();
    assert_eq!(out, vec!["push1 ff", "jumpdest :2"]);
}
