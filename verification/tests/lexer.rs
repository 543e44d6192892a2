use bytecode_vm::lexer::{tokenize, Token};

#[test]
fn test_tokenization() {
    let source_code = "
    PUSH 10
    PUSH 40
    ADD
    STORE 0
    PUSH 6
    PUSH -2
    SUB
    STORE 1
    PUSH 10
    PUSH 20
    DIV
    LOAD 0
    LOAD 1
    MUL
    RET
    ";

    let tokens = tokenize(source_code);

    assert_eq!(
        &tokens,
        &[
            Token::Opcode("PUSH"),
            Token::Number("10"),
            Token::Opcode("PUSH"),
            Token::Number("40"),
            Token::Opcode("ADD"),
            Token::Opcode("STORE"),
            Token::Number("0"),
            Token::Opcode("PUSH"),
            Token::Number("6"),
            Token::Opcode("PUSH"),
            Token::Number("-2"),
            Token::Opcode("SUB"),
            Token::Opcode("STORE"),
            Token::Number("1"),
            Token::Opcode("PUSH"),
            Token::Number("10"),
            Token::Opcode("PUSH"),
            Token::Number("20"),
            Token::Opcode("DIV"),
            Token::Opcode("LOAD"),
            Token::Number("0"),
            Token::Opcode("LOAD"),
            Token::Number("1"),
            Token::Opcode("MUL"),
            Token::Opcode("RET")
        ],
    )
}

#[test]
fn tokenize_empty_and_blank_text() {
    assert_eq!(tokenize(""), vec![]);
    assert_eq!(tokenize(" "), vec![]);
    assert_eq!(tokenize("\n \n  \n"), vec![]);
}

#[test]
fn tokenize_word_at_end_of_text() {
    assert_eq!(tokenize("RET"), vec![Token::Opcode("RET")]);
    assert_eq!(tokenize("7"), vec![Token::Number("7")]);
    assert_eq!(
        tokenize("PUSH 7"),
        vec![Token::Opcode("PUSH"), Token::Number("7")]
    );
}

#[test]
fn tokenize_only_space_and_line_feed_separate() {
    assert_eq!(tokenize("A\tB"), vec![Token::Opcode("A\tB")]);
    assert_eq!(tokenize("A\r\nB"), vec![Token::Opcode("A\r"), Token::Opcode("B")]);
    assert_eq!(tokenize("A  B\n\nC"), vec![
        Token::Opcode("A"),
        Token::Opcode("B"),
        Token::Opcode("C"),
    ]);
}

#[test]
fn tokenize_minus_and_digits_make_numbers() {
    assert_eq!(tokenize("-"), vec![Token::Number("-")]);
    assert_eq!(tokenize("1-2"), vec![Token::Number("1-2")]);
    assert_eq!(tokenize("--5 -"), vec![Token::Number("--5"), Token::Number("-")]);
    assert_eq!(tokenize("+5"), vec![Token::Opcode("+5"), Token::Number("5")]);
}

#[test]
fn tokenize_mixed_word_gives_opcode_then_number() {
    assert_eq!(
        tokenize("ab12"),
        vec![Token::Opcode("ab12"), Token::Number("12")]
    );
    assert_eq!(
        tokenize("12ab"),
        vec![Token::Opcode("ab"), Token::Number("12ab")]
    );
    assert_eq!(
        tokenize("x1 2y\n"),
        vec![
            Token::Opcode("x1"),
            Token::Number("1"),
            Token::Opcode("y"),
            Token::Number("2y"),
        ]
    );
}

#[test]
fn tokenize_keeps_multibyte_characters_whole() {
    assert_eq!(tokenize("añadir 5"), vec![Token::Opcode("añadir"), Token::Number("5")]);
    assert_eq!(tokenize("1é"), vec![Token::Opcode("é"), Token::Number("1é")]);
    assert_eq!(tokenize("日本 語"), vec![Token::Opcode("日本"), Token::Opcode("語")]);
    assert_eq!(tokenize("é"), vec![Token::Opcode("é")]);
    assert_eq!(tokenize("😀7 -😀"), vec![
        Token::Opcode("😀7"),
        Token::Number("7"),
        Token::Opcode("😀"),
        Token::Number("-😀"),
    ]);
}
