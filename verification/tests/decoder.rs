use bytecode_vm::decoder::decode;
use bytecode_vm::error::VmError;
use bytecode_vm::parser::Expression;

#[test]
fn decode_empty_buffer_is_empty_list() {
    assert_eq!(decode(&[]).unwrap(), vec![]);
}

#[test]
fn decode_reads_every_opcode() {
    let bytecode = [
        0, 5, 0, 0, 0, 0, 0, 0, 0, 1, 2, 9, 3, 9, 4, 5, 6, 7, 8, 9,
    ];
    assert_eq!(
        decode(&bytecode).unwrap(),
        vec![
            Expression::PUSH(5),
            Expression::POP,
            Expression::STORE(9),
            Expression::LOAD(9),
            Expression::ADD,
            Expression::SUB,
            Expression::MUL,
            Expression::DIV,
            Expression::MOD,
            Expression::RET,
        ]
    );
}

#[test]
fn decode_reads_negative_value() {
    let bytecode = [0, 254, 255, 255, 255, 255, 255, 255, 255];
    assert_eq!(decode(&bytecode).unwrap(), vec![Expression::PUSH(-2)]);
}

#[test]
fn decode_rejects_byte_that_is_no_tag() {
    assert_eq!(decode(&[10]), Err(VmError::InvalidOpcode));
    assert_eq!(decode(&[255]), Err(VmError::InvalidOpcode));
    assert_eq!(decode(&[9, 1, 200]), Err(VmError::InvalidOpcode));
}

#[test]
fn decode_rejects_value_cut_short() {
    for missing in 1..=8usize {
        let mut bytecode = vec![0u8];
        bytecode.extend_from_slice(&[7u8; 8][..8 - missing]);
        assert_eq!(decode(&bytecode), Err(VmError::NoValueInBytecode));
    }
}

#[test]
fn decode_rejects_missing_index() {
    assert_eq!(decode(&[2]), Err(VmError::NoIndexInBytecode));
    assert_eq!(decode(&[3]), Err(VmError::NoIndexInBytecode));
    assert_eq!(decode(&[1, 3]), Err(VmError::NoIndexInBytecode));
}

#[test]
fn decode_treats_operand_bytes_as_data() {
    // 200 is no tag, but here it is a register index and a value byte.
    assert_eq!(decode(&[2, 200]).unwrap(), vec![Expression::STORE(200)]);
    assert_eq!(
        decode(&[0, 200, 0, 0, 0, 0, 0, 0, 0]).unwrap(),
        vec![Expression::PUSH(200)]
    );
}
