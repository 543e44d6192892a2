use bytecode_vm::error::VmError;
use bytecode_vm::opcode::{Opcode, OPCODE_COUNT};

#[test]
fn opcode_tags_follow_the_wire_table() {
    assert_eq!(u8::from(Opcode::PUSH), 0);
    assert_eq!(u8::from(Opcode::POP), 1);
    assert_eq!(u8::from(Opcode::STORE), 2);
    assert_eq!(u8::from(Opcode::LOAD), 3);
    assert_eq!(u8::from(Opcode::ADD), 4);
    assert_eq!(u8::from(Opcode::SUB), 5);
    assert_eq!(u8::from(Opcode::MUL), 6);
    assert_eq!(u8::from(Opcode::DIV), 7);
    assert_eq!(u8::from(Opcode::MOD), 8);
    assert_eq!(u8::from(Opcode::RET), 9);
}

#[test]
fn opcode_from_tag_inverts_tag() {
    for tag in 0..OPCODE_COUNT {
        let opcode = Opcode::try_from(tag).unwrap();
        let back: u8 = opcode.into();
        assert_eq!(back, tag);
    }
}

#[test]
fn opcode_from_unknown_byte_is_invalid() {
    for tag in OPCODE_COUNT..=255 {
        assert_eq!(Opcode::try_from(tag), Err(VmError::InvalidOpcode));
    }
}
