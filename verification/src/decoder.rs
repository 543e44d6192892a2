//! Reading bytecode: what stands at a position of a byte buffer.

use crate::compiler::{encode, encode_expression};
use crate::error::VmError;
use crate::opcode::Opcode;
use crate::parser::Expression;
use crate::value::{
    lemma_value_bytes_roundtrip, value_from_le_bytes, value_to_le_bytes, Value, VALUE_WIDTH,
};
use vstd::bytes::u64_from_le_bytes;
use vstd::prelude::*;
use vstd::slice::slice_subrange;

verus! {

/// The opcode at position `at`.
///
/// `None` when the buffer has no byte there: there is no further
/// instruction. A byte that is no tag is an `InvalidOpcode` failure.
pub open spec fn opcode_at(bytecode: Seq<u8>, at: nat) -> Option<Result<Opcode, VmError>> {
    if at < bytecode.len() {
        Some(
            match Opcode::from_tag(bytecode[at as int]) {
                Some(opcode) => Ok(opcode),
                None => Err(VmError::InvalidOpcode),
            },
        )
    } else {
        None
    }
}

/// The value operand whose eight bytes start at position `at`;
/// `NoValueInBytecode` when fewer than eight bytes are left.
pub open spec fn value_at(bytecode: Seq<u8>, at: nat) -> Result<Value, VmError> {
    if at + VALUE_WIDTH <= bytecode.len() {
        Ok(value_from_le_bytes(bytecode.subrange(at as int, at + VALUE_WIDTH)))
    } else {
        Err(VmError::NoValueInBytecode)
    }
}

/// The register index at position `at`; `NoIndexInBytecode` when no byte is
/// left.
pub open spec fn index_at(bytecode: Seq<u8>, at: nat) -> Result<u8, VmError> {
    if at < bytecode.len() {
        Ok(bytecode[at as int])
    } else {
        Err(VmError::NoIndexInBytecode)
    }
}

/// Whether `bytes` stand in `bytecode` from position `at` on.
pub open spec fn holds_at(bytecode: Seq<u8>, at: nat, bytes: Seq<u8>) -> bool {
    &&& at + bytes.len() <= bytecode.len()
    &&& bytecode.subrange(at as int, at + bytes.len() as int) == bytes
}

/// The instruction that starts at position `at`, together with the position
/// just behind it. `None` when the buffer ends at or before `at`.
pub open spec fn instruction_at(bytecode: Seq<u8>, at: nat) -> Option<
    Result<(Expression, nat), VmError>,
> {
    match opcode_at(bytecode, at) {
        None => None,
        Some(Err(error)) => Some(Err(error)),
        Some(Ok(opcode)) => Some(
            match opcode {
                Opcode::PUSH => match value_at(bytecode, at + 1) {
                    Ok(value) => Ok((Expression::PUSH(value), at + 1 + VALUE_WIDTH as nat)),
                    Err(error) => Err(error),
                },
                Opcode::STORE => match index_at(bytecode, at + 1) {
                    Ok(index) => Ok((Expression::STORE(index), at + 2)),
                    Err(error) => Err(error),
                },
                Opcode::LOAD => match index_at(bytecode, at + 1) {
                    Ok(index) => Ok((Expression::LOAD(index), at + 2)),
                    Err(error) => Err(error),
                },
                Opcode::POP => Ok((Expression::POP, at + 1)),
                Opcode::ADD => Ok((Expression::ADD, at + 1)),
                Opcode::SUB => Ok((Expression::SUB, at + 1)),
                Opcode::MUL => Ok((Expression::MUL, at + 1)),
                Opcode::DIV => Ok((Expression::DIV, at + 1)),
                Opcode::MOD => Ok((Expression::MOD, at + 1)),
                Opcode::RET => Ok((Expression::RET, at + 1)),
            },
        ),
    }
}

/// The instructions that the bytes from position `at` on stand for, or the
/// failure of the first instruction that cannot be read.
pub open spec fn instructions_from(bytecode: Seq<u8>, at: nat) -> Result<Seq<Expression>, VmError>
    decreases bytecode.len() - at,
{
    match instruction_at(bytecode, at) {
        None => Ok(Seq::empty()),
        Some(Err(error)) => Err(error),
        Some(Ok((expression, next))) => match instructions_from(bytecode, next) {
            Ok(rest) => Ok(seq![expression] + rest),
            Err(error) => Err(error),
        },
    }
}

/// The instruction list a whole buffer stands for.
pub open spec fn instructions_of(bytecode: Seq<u8>) -> Result<Seq<Expression>, VmError> {
    instructions_from(bytecode, 0)
}

/// Where the bytes of an instruction stand in a buffer, that instruction is
/// what is read there, and reading ends just behind its bytes.
pub proof fn lemma_instruction_at_encoded(bytecode: Seq<u8>, at: nat, expression: Expression)
    requires
        holds_at(bytecode, at, encode_expression(expression)),
    ensures
        instruction_at(bytecode, at) == Some(
            Ok::<(Expression, nat), VmError>(
                (expression, at + encode_expression(expression).len()),
            ),
        ),
        opcode_at(bytecode, at) == Some(Ok::<Opcode, VmError>(expression.opcode())),
{
    let bytes = encode_expression(expression);
    assert(bytecode[at as int] == bytes[0]);
    match expression {
        Expression::PUSH(value) => {
            lemma_value_bytes_roundtrip(value);
            let operand = (at + 1) as int;
            assert(bytecode.subrange(operand, operand + VALUE_WIDTH) =~= bytes.subrange(
                1,
                1 + VALUE_WIDTH,
            ));
            assert(bytes.subrange(1, 1 + VALUE_WIDTH) =~= value_to_le_bytes(value));
        },
        Expression::STORE(index) => {
            assert(bytecode[(at + 1) as int] == bytes[1]);
        },
        Expression::LOAD(index) => {
            assert(bytecode[(at + 1) as int] == bytes[1]);
        },
        _ => {},
    }
}

/// Decoding what follows a prefix, where that is an encoded instruction
/// list, gives the list back.
proof fn lemma_instructions_from_encoded(prefix: Seq<u8>, expressions: Seq<Expression>)
    ensures
        instructions_from(prefix + encode(expressions), prefix.len()) == Ok::<
            Seq<Expression>,
            VmError,
        >(expressions),
    decreases expressions.len(),
{
    let bytecode = prefix + encode(expressions);
    if expressions.len() == 0 {
        assert(instructions_from(bytecode, prefix.len()).unwrap() =~= expressions);
    } else {
        let first = expressions[0];
        let rest = expressions.drop_first();
        let extended = prefix + encode_expression(first);
        assert(bytecode =~= extended + encode(rest));
        assert(bytecode.subrange(prefix.len() as int, extended.len() as int) =~= encode_expression(
            first,
        ));
        lemma_instruction_at_encoded(bytecode, prefix.len(), first);
        lemma_instructions_from_encoded(extended, rest);
        assert(seq![first] + rest =~= expressions);
    }
}

/// Round trip: the instruction list that encoded bytecode stands for is the
/// list that was encoded, every opcode and operand included.
pub proof fn lemma_decode_encode(expressions: Seq<Expression>)
    ensures
        instructions_of(encode(expressions)) == Ok::<Seq<Expression>, VmError>(expressions),
{
    lemma_instructions_from_encoded(Seq::empty(), expressions);
    assert(Seq::<u8>::empty() + encode(expressions) =~= encode(expressions));
}

/// Reads bytecode back into the instruction list it stands for.
///
/// Fails with the error of the first instruction that cannot be read: a byte
/// that is no tag, or an operand cut short by the end of the buffer.
pub fn decode(bytecode: &[u8]) -> (result: Result<Vec<Expression>, VmError>)
    ensures
        match result {
            Ok(expressions) => instructions_of(bytecode@) == Ok::<Seq<Expression>, VmError>(
                expressions@,
            ),
            Err(error) => instructions_of(bytecode@) == Err::<Seq<Expression>, VmError>(error),
        },
{
    let mut expressions: Vec<Expression> = Vec::new();
    let mut at: usize = 0;
    while at < bytecode.len()
        invariant
            at <= bytecode.len(),
            instructions_of(bytecode@) == match instructions_from(bytecode@, at as nat) {
                Ok(rest) => Ok::<Seq<Expression>, VmError>(expressions@ + rest),
                Err(error) => Err(error),
            },
        decreases bytecode.len() - at,
    {
        let ghost before = expressions@;
        let opcode = Opcode::try_from(bytecode[at])?;
        let operand = at + 1;
        let expression = match opcode {
            Opcode::PUSH => {
                if bytecode.len() - operand < VALUE_WIDTH {
                    return Err(VmError::NoValueInBytecode);
                }
                let bytes = slice_subrange(bytecode, operand, operand + VALUE_WIDTH);
                at = operand + VALUE_WIDTH;
                Expression::PUSH(#[verifier::truncate] (u64_from_le_bytes(bytes) as Value))
            },
            Opcode::STORE => {
                if operand >= bytecode.len() {
                    return Err(VmError::NoIndexInBytecode);
                }
                at = operand + 1;
                Expression::STORE(bytecode[operand])
            },
            Opcode::LOAD => {
                if operand >= bytecode.len() {
                    return Err(VmError::NoIndexInBytecode);
                }
                at = operand + 1;
                Expression::LOAD(bytecode[operand])
            },
            Opcode::POP => {
                at = operand;
                Expression::POP
            },
            Opcode::ADD => {
                at = operand;
                Expression::ADD
            },
            Opcode::SUB => {
                at = operand;
                Expression::SUB
            },
            Opcode::MUL => {
                at = operand;
                Expression::MUL
            },
            Opcode::DIV => {
                at = operand;
                Expression::DIV
            },
            Opcode::MOD => {
                at = operand;
                Expression::MOD
            },
            Opcode::RET => {
                at = operand;
                Expression::RET
            },
        };
        expressions.push(expression);
        proof {
            let rest = instructions_from(bytecode@, at as nat);
            if rest is Ok {
                assert(before + (seq![expression] + rest.unwrap()) =~= before.push(expression)
                    + rest.unwrap());
            }
        }
    }
    proof {
        assert(expressions@ + Seq::<Expression>::empty() =~= expressions@);
    }
    Ok(expressions)
}

} // verus!
