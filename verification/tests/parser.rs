use bytecode_vm::error::ParseError;
use bytecode_vm::lexer::{tokenize, Token};
use bytecode_vm::parser::{parse, Expression};

#[test]
fn test_parsing() {
    let tokens = vec![
        Token::Opcode("PUSH"),
        Token::Number("10"),
        Token::Opcode("PUSH"),
        Token::Number("40"),
        Token::Opcode("ADD"),
        Token::Opcode("STORE"),
        Token::Number("0"),
        Token::Opcode("PUSH"),
        Token::Number("6"),
        Token::Opcode("PUSH"),
        Token::Number("-2"),
        Token::Opcode("SUB"),
        Token::Opcode("STORE"),
        Token::Number("1"),
        Token::Opcode("PUSH"),
        Token::Number("10"),
        Token::Opcode("PUSH"),
        Token::Number("20"),
        Token::Opcode("DIV"),
        Token::Opcode("LOAD"),
        Token::Number("0"),
        Token::Opcode("LOAD"),
        Token::Number("1"),
        Token::Opcode("MUL"),
        Token::Opcode("RET"),
    ];

    let expressions = parse(tokens).unwrap();

    assert_eq!(
        &expressions,
        &[
            Expression::PUSH(10),
            Expression::PUSH(40),
            Expression::ADD,
            Expression::STORE(0),
            Expression::PUSH(6),
            Expression::PUSH(-2),
            Expression::SUB,
            Expression::STORE(1),
            Expression::PUSH(10),
            Expression::PUSH(20),
            Expression::DIV,
            Expression::LOAD(0),
            Expression::LOAD(1),
            Expression::MUL,
            Expression::RET,
        ]
    )
}

#[test]
fn parse_no_tokens_gives_no_expressions() {
    assert_eq!(parse(vec![]), Ok(vec![]));
}

#[test]
fn parse_every_mnemonic() {
    let tokens = vec![
        Token::Opcode("PUSH"),
        Token::Number("-9223372036854775808"),
        Token::Opcode("POP"),
        Token::Opcode("STORE"),
        Token::Number("255"),
        Token::Opcode("LOAD"),
        Token::Number("0"),
        Token::Opcode("ADD"),
        Token::Opcode("SUB"),
        Token::Opcode("MUL"),
        Token::Opcode("DIV"),
        Token::Opcode("MOD"),
        Token::Opcode("RET"),
    ];
    assert_eq!(
        parse(tokens),
        Ok(vec![
            Expression::PUSH(i64::MIN),
            Expression::POP,
            Expression::STORE(255),
            Expression::LOAD(0),
            Expression::ADD,
            Expression::SUB,
            Expression::MUL,
            Expression::DIV,
            Expression::MOD,
            Expression::RET,
        ])
    );
}

#[test]
fn parse_rejects_number_without_opcode() {
    assert_eq!(
        parse(vec![Token::Number("12")]),
        Err(ParseError::OpcodeRequired("12"))
    );
    assert_eq!(
        parse(vec![Token::Opcode("ADD"), Token::Number("3"), Token::Opcode("RET")]),
        Err(ParseError::OpcodeRequired("3"))
    );
}

#[test]
fn parse_rejects_unknown_mnemonic() {
    assert_eq!(
        parse(vec![Token::Opcode("JUMP")]),
        Err(ParseError::MistakenOpcode("JUMP"))
    );
    assert_eq!(
        parse(vec![Token::Opcode("push"), Token::Number("1")]),
        Err(ParseError::MistakenOpcode("push"))
    );
    assert_eq!(
        parse(vec![Token::Opcode("PUSHH"), Token::Number("1")]),
        Err(ParseError::MistakenOpcode("PUSHH"))
    );
    assert_eq!(
        parse(vec![Token::Opcode("PUS")]),
        Err(ParseError::MistakenOpcode("PUS"))
    );
    assert_eq!(parse(vec![Token::Opcode("")]), Err(ParseError::MistakenOpcode("")));
}

#[test]
fn parse_rejects_push_without_value() {
    assert_eq!(
        parse(vec![Token::Opcode("PUSH")]),
        Err(ParseError::ValueRequired("PUSH"))
    );
    assert_eq!(
        parse(vec![Token::Opcode("PUSH"), Token::Opcode("RET")]),
        Err(ParseError::ValueRequired("PUSH"))
    );
}

#[test]
fn parse_rejects_store_and_load_without_index() {
    assert_eq!(
        parse(vec![Token::Opcode("STORE")]),
        Err(ParseError::IndexRequired("STORE"))
    );
    assert_eq!(
        parse(vec![Token::Opcode("STORE"), Token::Opcode("RET")]),
        Err(ParseError::IndexRequired("STORE"))
    );
    assert_eq!(
        parse(vec![Token::Opcode("LOAD")]),
        Err(ParseError::IndexRequired("LOAD"))
    );
    assert_eq!(
        parse(vec![Token::Opcode("LOAD"), Token::Opcode("LOAD")]),
        Err(ParseError::IndexRequired("LOAD"))
    );
}

#[test]
fn parse_rejects_mistaken_value() {
    assert_eq!(
        parse(vec![Token::Opcode("PUSH"), Token::Number("1-2")]),
        Err(ParseError::MistakenValue("1-2"))
    );
    assert_eq!(
        parse(vec![Token::Opcode("PUSH"), Token::Number("9223372036854775808")]),
        Err(ParseError::MistakenValue("9223372036854775808"))
    );
    assert_eq!(
        parse(vec![Token::Opcode("PUSH"), Token::Number("-")]),
        Err(ParseError::MistakenValue("-"))
    );
}

#[test]
fn parse_rejects_mistaken_index() {
    assert_eq!(
        parse(vec![Token::Opcode("STORE"), Token::Number("256")]),
        Err(ParseError::MistakenIndex("256"))
    );
    assert_eq!(
        parse(vec![Token::Opcode("LOAD"), Token::Number("-1")]),
        Err(ParseError::MistakenIndex("-1"))
    );
}

#[test]
fn parse_reports_the_first_error_only() {
    assert_eq!(
        parse(vec![
            Token::Opcode("RET"),
            Token::Opcode("NOPE"),
            Token::Number("5"),
            Token::Opcode("PUSH"),
        ]),
        Err(ParseError::MistakenOpcode("NOPE"))
    );
}

#[test]
fn parse_error_quotes_the_source_text() {
    let source = "PUSH 1\nPUSH 12x";
    let error = parse(tokenize(source)).unwrap_err();
    assert_eq!(error, ParseError::ValueRequired("PUSH"));
    let source = "PUSH 1\nSTORE 300";
    let error = parse(tokenize(source)).unwrap_err();
    assert_eq!(error, ParseError::MistakenIndex("300"));
    assert_eq!(error.message(), "PARSING ERROR: `300` is not a valid index");
}
