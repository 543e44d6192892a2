//! Instructions of the assembly language, and the parser that builds them
//! from tokens.

use crate::error::{ParseError, ParseErrorView};
use crate::lexer::{token_views, Token, TokenView};
use crate::number::{index_of, parse_index, parse_value, value_of};
use crate::opcode::Opcode;
use crate::value::Value;
use vstd::prelude::*;
use vstd::string::*;

verus! {

/// One instruction of the assembly language, operand included.
#[derive(Debug, Clone, Copy, PartialEq, Eq, Structural)]
pub enum Expression {
    PUSH(Value),
    POP,
    STORE(u8),
    LOAD(u8),
    ADD,
    SUB,
    MUL,
    DIV,
    MOD,
    RET,
}

impl Expression {
    /// The opcode of the instruction.
    pub open spec fn opcode(self) -> Opcode {
        match self {
            Expression::PUSH(_) => Opcode::PUSH,
            Expression::POP => Opcode::POP,
            Expression::STORE(_) => Opcode::STORE,
            Expression::LOAD(_) => Opcode::LOAD,
            Expression::ADD => Opcode::ADD,
            Expression::SUB => Opcode::SUB,
            Expression::MUL => Opcode::MUL,
            Expression::DIV => Opcode::DIV,
            Expression::MOD => Opcode::MOD,
            Expression::RET => Opcode::RET,
        }
    }
}

/// The name by which the assembly language calls an opcode, as UTF-8 bytes.
pub open spec fn mnemonic(opcode: Opcode) -> Seq<u8> {
    match opcode {
        Opcode::PUSH => "PUSH".spec_bytes(),
        Opcode::POP => "POP".spec_bytes(),
        Opcode::STORE => "STORE".spec_bytes(),
        Opcode::LOAD => "LOAD".spec_bytes(),
        Opcode::ADD => "ADD".spec_bytes(),
        Opcode::SUB => "SUB".spec_bytes(),
        Opcode::MUL => "MUL".spec_bytes(),
        Opcode::DIV => "DIV".spec_bytes(),
        Opcode::MOD => "MOD".spec_bytes(),
        Opcode::RET => "RET".spec_bytes(),
    }
}

/// The opcode that a name stands for, if any. Names are case sensitive.
pub open spec fn opcode_named(name: Seq<u8>) -> Option<Opcode> {
    if name == mnemonic(Opcode::PUSH) {
        Some(Opcode::PUSH)
    } else if name == mnemonic(Opcode::POP) {
        Some(Opcode::POP)
    } else if name == mnemonic(Opcode::STORE) {
        Some(Opcode::STORE)
    } else if name == mnemonic(Opcode::LOAD) {
        Some(Opcode::LOAD)
    } else if name == mnemonic(Opcode::ADD) {
        Some(Opcode::ADD)
    } else if name == mnemonic(Opcode::SUB) {
        Some(Opcode::SUB)
    } else if name == mnemonic(Opcode::MUL) {
        Some(Opcode::MUL)
    } else if name == mnemonic(Opcode::DIV) {
        Some(Opcode::DIV)
    } else if name == mnemonic(Opcode::MOD) {
        Some(Opcode::MOD)
    } else if name == mnemonic(Opcode::RET) {
        Some(Opcode::RET)
    } else {
        None
    }
}

/// The text of the number token at position `at`; `None` where the tokens
/// end before `at` or an opcode token stands there.
pub open spec fn operand_at(tokens: Seq<TokenView>, at: int) -> Option<Seq<u8>> {
    if 0 <= at < tokens.len() {
        match tokens[at] {
            TokenView::Number(text) => Some(text),
            TokenView::Opcode(_) => None,
        }
    } else {
        None
    }
}

/// The instruction that starts with the token at position `at`, together
/// with the number of tokens it takes, or the reason why none starts there.
pub open spec fn statement_at(tokens: Seq<TokenView>, at: int) -> Result<
    (Expression, int),
    ParseErrorView,
>
    recommends
        0 <= at < tokens.len(),
{
    match tokens[at] {
        TokenView::Number(text) => Err(ParseErrorView::OpcodeRequired(text)),
        TokenView::Opcode(name) => match opcode_named(name) {
            None => Err(ParseErrorView::MistakenOpcode(name)),
            Some(Opcode::PUSH) => match operand_at(tokens, at + 1) {
                None => Err(ParseErrorView::ValueRequired(mnemonic(Opcode::PUSH))),
                Some(text) => match value_of(text) {
                    Some(value) => Ok((Expression::PUSH(value), 2)),
                    None => Err(ParseErrorView::MistakenValue(text)),
                },
            },
            Some(Opcode::STORE) => match operand_at(tokens, at + 1) {
                None => Err(ParseErrorView::IndexRequired(mnemonic(Opcode::STORE))),
                Some(text) => match index_of(text) {
                    Some(index) => Ok((Expression::STORE(index), 2)),
                    None => Err(ParseErrorView::MistakenIndex(text)),
                },
            },
            Some(Opcode::LOAD) => match operand_at(tokens, at + 1) {
                None => Err(ParseErrorView::IndexRequired(mnemonic(Opcode::LOAD))),
                Some(text) => match index_of(text) {
                    Some(index) => Ok((Expression::LOAD(index), 2)),
                    None => Err(ParseErrorView::MistakenIndex(text)),
                },
            },
            Some(Opcode::POP) => Ok((Expression::POP, 1)),
            Some(Opcode::ADD) => Ok((Expression::ADD, 1)),
            Some(Opcode::SUB) => Ok((Expression::SUB, 1)),
            Some(Opcode::MUL) => Ok((Expression::MUL, 1)),
            Some(Opcode::DIV) => Ok((Expression::DIV, 1)),
            Some(Opcode::MOD) => Ok((Expression::MOD, 1)),
            Some(Opcode::RET) => Ok((Expression::RET, 1)),
        },
    }
}

/// The instructions that the tokens from position `at` on stand for, or the
/// first error met.
pub open spec fn parsed_from(tokens: Seq<TokenView>, at: int) -> Result<
    Seq<Expression>,
    ParseErrorView,
>
    decreases tokens.len() - at,
{
    if at < 0 || at >= tokens.len() {
        Ok(Seq::empty())
    } else {
        match statement_at(tokens, at) {
            Err(error) => Err(error),
            Ok((expression, taken)) => match parsed_from(tokens, at + taken) {
                Ok(rest) => Ok(seq![expression] + rest),
                Err(error) => Err(error),
            },
        }
    }
}

/// The instruction list that a token list stands for.
pub open spec fn parsed(tokens: Seq<TokenView>) -> Result<Seq<Expression>, ParseErrorView> {
    parsed_from(tokens, 0)
}

/// Whether two texts are the same, byte for byte.
fn same_text(left: &str, right: &str) -> (same: bool)
    ensures
        same == (left.spec_bytes() == right.spec_bytes()),
{
    let left_bytes = left.as_bytes();
    let right_bytes = right.as_bytes();
    if left_bytes.len() != right_bytes.len() {
        return false;
    }
    let mut index: usize = 0;
    while index < left_bytes.len()
        invariant
            left_bytes@ == left.spec_bytes(),
            right_bytes@ == right.spec_bytes(),
            left_bytes@.len() == right_bytes@.len(),
            index <= left_bytes@.len(),
            forall|k: int| 0 <= k < index ==> left_bytes@[k] == right_bytes@[k],
        decreases left_bytes@.len() - index,
    {
        if left_bytes[index] != right_bytes[index] {
            return false;
        }
        index += 1;
    }
    assert(left_bytes@ =~= right_bytes@);
    true
}

/// Looks up the opcode that a name stands for.
fn opcode_of(name: &str) -> (opcode: Option<Opcode>)
    ensures
        opcode == opcode_named(name.spec_bytes()),
{
    if same_text(name, "PUSH") {
        Some(Opcode::PUSH)
    } else if same_text(name, "POP") {
        Some(Opcode::POP)
    } else if same_text(name, "STORE") {
        Some(Opcode::STORE)
    } else if same_text(name, "LOAD") {
        Some(Opcode::LOAD)
    } else if same_text(name, "ADD") {
        Some(Opcode::ADD)
    } else if same_text(name, "SUB") {
        Some(Opcode::SUB)
    } else if same_text(name, "MUL") {
        Some(Opcode::MUL)
    } else if same_text(name, "DIV") {
        Some(Opcode::DIV)
    } else if same_text(name, "MOD") {
        Some(Opcode::MOD)
    } else if same_text(name, "RET") {
        Some(Opcode::RET)
    } else {
        None
    }
}

/// Parses tokens into expressions.
pub fn parse<'a>(tokens: Vec<Token<'a>>) -> (result: Result<Vec<Expression>, ParseError<'a>>)
    ensures
        match result {
            Ok(expressions) => parsed(token_views(tokens@)) == Ok::<
                Seq<Expression>,
                ParseErrorView,
            >(expressions@),
            Err(error) => parsed(token_views(tokens@)) == Err::<Seq<Expression>, ParseErrorView>(
                error@,
            ),
        },
{
    let mut expressions: Vec<Expression> = Vec::new();
    let ghost views = token_views(tokens@);

    let mut index: usize = 0;
    while index < tokens.len()
        invariant
            views == token_views(tokens@),
            index <= tokens@.len(),
            parsed(views) == match parsed_from(views, index as int) {
                Ok(rest) => Ok::<Seq<Expression>, ParseErrorView>(expressions@ + rest),
                Err(error) => Err(error),
            },
        decreases tokens@.len() - index,
    {
        let ghost before = expressions@;
        let ghost at = index as int;
        let token = tokens[index];
        index += 1;
        assert(views[at] == token@);
        match token {
            Token::Number(number_string) => return Err(ParseError::OpcodeRequired(number_string)),
            Token::Opcode(opcode_string) => match opcode_of(opcode_string) {
                Some(Opcode::PUSH) => {
                    if index >= tokens.len() {
                        return Err(ParseError::ValueRequired("PUSH"));
                    }
                    let next_token = tokens[index];
                    index += 1;
                    assert(views[at + 1] == next_token@);
                    let value: Value = match next_token {
                        Token::Number(number_string) => match parse_value(number_string) {
                            Some(value) => value,
                            None => return Err(ParseError::MistakenValue(number_string)),
                        },
                        _ => return Err(ParseError::ValueRequired("PUSH")),
                    };
                    expressions.push(Expression::PUSH(value))
                },
                Some(Opcode::POP) => expressions.push(Expression::POP),
                Some(Opcode::STORE) => {
                    if index >= tokens.len() {
                        return Err(ParseError::IndexRequired("STORE"));
                    }
                    let next_token = tokens[index];
                    index += 1;
                    assert(views[at + 1] == next_token@);
                    let register: u8 = match next_token {
                        Token::Number(number_string) => match parse_index(number_string) {
                            Some(register) => register,
                            None => return Err(ParseError::MistakenIndex(number_string)),
                        },
                        _ => return Err(ParseError::IndexRequired("STORE")),
                    };
                    expressions.push(Expression::STORE(register))
                },
                Some(Opcode::LOAD) => {
                    if index >= tokens.len() {
                        return Err(ParseError::IndexRequired("LOAD"));
                    }
                    let next_token = tokens[index];
                    index += 1;
                    assert(views[at + 1] == next_token@);
                    let register: u8 = match next_token {
                        Token::Number(number_string) => match parse_index(number_string) {
                            Some(register) => register,
                            None => return Err(ParseError::MistakenIndex(number_string)),
                        },
                        _ => return Err(ParseError::IndexRequired("LOAD")),
                    };
                    expressions.push(Expression::LOAD(register))
                },
                Some(Opcode::ADD) => expressions.push(Expression::ADD),
                Some(Opcode::SUB) => expressions.push(Expression::SUB),
                Some(Opcode::MUL) => expressions.push(Expression::MUL),
                Some(Opcode::DIV) => expressions.push(Expression::DIV),
                Some(Opcode::MOD) => expressions.push(Expression::MOD),
                Some(Opcode::RET) => expressions.push(Expression::RET),
                None => return Err(ParseError::MistakenOpcode(opcode_string)),
            },
        }
        proof {
            let rest = parsed_from(views, index as int);
            let expression = expressions@.last();
            if rest is Ok {
                assert(before + (seq![expression] + rest->Ok_0) =~= before.push(expression)
                    + rest->Ok_0);
            }
        }
    }

    proof {
        assert(expressions@ + Seq::<Expression>::empty() =~= expressions@);
    }
    Ok(expressions)
}

} // verus!
