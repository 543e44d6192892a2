use bytecode_vm::compiler::compile;
use bytecode_vm::decoder::decode;
use bytecode_vm::parser::Expression;

#[test]
fn test_compiling() {
    let expressions = vec![
        Expression::PUSH(10),
        Expression::PUSH(40),
        Expression::ADD,
        Expression::STORE(0),
        Expression::PUSH(6),
        Expression::PUSH(-2),
        Expression::SUB,
        Expression::STORE(1),
        Expression::PUSH(10),
        Expression::PUSH(20),
        Expression::DIV,
        Expression::LOAD(0),
        Expression::LOAD(1),
        Expression::MUL,
        Expression::RET,
    ];

    let bytecode = compile(expressions);

    assert_eq!(
        &bytecode,
        &[
            0, 10, 0, 0, 0, 0, 0, 0, 0, 0, 40, 0, 0, 0, 0, 0, 0, 0, 4, 2, 0, 0, 6, 0, 0, 0, 0, 0,
            0, 0, 0, 254, 255, 255, 255, 255, 255, 255, 255, 5, 2, 1, 0, 10, 0, 0, 0, 0, 0, 0, 0,
            0, 20, 0, 0, 0, 0, 0, 0, 0, 7, 3, 0, 3, 1, 6, 9
        ]
    );
}

#[test]
fn compile_empty_list_gives_no_bytes() {
    assert_eq!(compile(vec![]), Vec::<u8>::new());
}

#[test]
fn compile_emits_one_tag_per_plain_opcode() {
    let bytecode = compile(vec![
        Expression::POP,
        Expression::ADD,
        Expression::SUB,
        Expression::MUL,
        Expression::DIV,
        Expression::MOD,
        Expression::RET,
    ]);
    assert_eq!(bytecode, vec![1, 4, 5, 6, 7, 8, 9]);
}

#[test]
fn compile_push_is_little_endian_twos_complement() {
    assert_eq!(
        compile(vec![Expression::PUSH(0x0102030405060708)]),
        vec![0, 8, 7, 6, 5, 4, 3, 2, 1]
    );
    assert_eq!(
        compile(vec![Expression::PUSH(-1)]),
        vec![0, 255, 255, 255, 255, 255, 255, 255, 255]
    );
    assert_eq!(
        compile(vec![Expression::PUSH(i64::MIN)]),
        vec![0, 0, 0, 0, 0, 0, 0, 0, 128]
    );
    assert_eq!(
        compile(vec![Expression::PUSH(i64::MAX)]),
        vec![0, 255, 255, 255, 255, 255, 255, 255, 127]
    );
}

#[test]
fn compile_store_and_load_keep_the_index_byte() {
    assert_eq!(
        compile(vec![
            Expression::STORE(0),
            Expression::LOAD(0),
            Expression::STORE(255),
            Expression::LOAD(255),
        ]),
        vec![2, 0, 3, 0, 2, 255, 3, 255]
    );
}

#[test]
fn compile_does_not_hand_back_value_bytes_unchanged() {
    // A value whose bytes differ in every position pins the byte order.
    let bytecode = compile(vec![Expression::PUSH(258)]);
    assert_eq!(bytecode, vec![0, 2, 1, 0, 0, 0, 0, 0, 0]);
    assert_ne!(bytecode, vec![0, 0, 0, 0, 0, 0, 0, 1, 2]);
}

#[test]
fn decode_of_compile_is_identity() {
    let programs: Vec<Vec<Expression>> = vec![
        vec![],
        vec![Expression::RET],
        vec![Expression::PUSH(0), Expression::PUSH(-1), Expression::PUSH(i64::MIN)],
        vec![Expression::PUSH(i64::MAX), Expression::POP, Expression::RET],
        vec![
            Expression::STORE(0),
            Expression::LOAD(0),
            Expression::STORE(255),
            Expression::LOAD(255),
        ],
        vec![
            Expression::PUSH(-123456789),
            Expression::STORE(7),
            Expression::LOAD(7),
            Expression::ADD,
            Expression::SUB,
            Expression::MUL,
            Expression::DIV,
            Expression::MOD,
            Expression::RET,
        ],
    ];
    for program in programs {
        let bytecode = compile(program.clone());
        assert_eq!(decode(&bytecode).unwrap(), program);
    }
}
