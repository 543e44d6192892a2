//! The encoder: from an instruction list to bytecode.

use crate::opcode::Opcode;
use crate::parser::Expression;
use crate::value::{lemma_value_bytes_roundtrip, value_to_le_bytes};
use vstd::bytes::u64_to_le_bytes;
use vstd::prelude::*;

verus! {

/// The bytes of one instruction: its tag, then its operand if it has one.
pub open spec fn encode_expression(expression: Expression) -> Seq<u8> {
    match expression {
        Expression::PUSH(value) => seq![Opcode::PUSH.tag()] + value_to_le_bytes(value),
        Expression::STORE(index) => seq![Opcode::STORE.tag(), index],
        Expression::LOAD(index) => seq![Opcode::LOAD.tag(), index],
        _ => seq![expression.opcode().tag()],
    }
}

/// An encoded instruction is its tag followed by as many bytes as its
/// opcode's operand is wide.
pub proof fn lemma_encoded_width(expression: Expression)
    ensures
        encode_expression(expression).len() == 1 + expression.opcode().operand_width(),
        encode_expression(expression)[0] == expression.opcode().tag(),
{
    if let Expression::PUSH(value) = expression {
        lemma_value_bytes_roundtrip(value);
    }
}

/// The bytecode of an instruction list: the instructions' bytes in order.
pub open spec fn encode(expressions: Seq<Expression>) -> Seq<u8>
    decreases expressions.len(),
{
    if expressions.len() == 0 {
        Seq::empty()
    } else {
        encode_expression(expressions[0]) + encode(expressions.drop_first())
    }
}

/// Encoding distributes over appending an instruction.
pub proof fn lemma_encode_push(expressions: Seq<Expression>, last: Expression)
    ensures
        encode(expressions.push(last)) == encode(expressions) + encode_expression(last),
    decreases expressions.len(),
{
    reveal_with_fuel(encode, 2);
    if expressions.len() == 0 {
        assert(expressions.push(last).drop_first() =~= Seq::<Expression>::empty());
    } else {
        assert(expressions.push(last).drop_first() =~= expressions.drop_first().push(last));
        lemma_encode_push(expressions.drop_first(), last);
    }
}

/// Compiles expressions to bytecode.
pub fn compile(expressions: Vec<Expression>) -> (bytecode: Vec<u8>)
    ensures
        bytecode@ == encode(expressions@),
{
    let mut bytecode: Vec<u8> = Vec::new();

    let ghost all = expressions@;
    for expression in iter: expressions
        invariant
            iter.seq() == all,
            bytecode@ == encode(all.take(iter.index())),
    {
        proof {
            lemma_encode_push(all.take(iter.index()), expression);
            assert(all.take(iter.index() + 1) == all.take(iter.index()).push(expression));
        }
        match expression {
            Expression::PUSH(value) => {
                bytecode.push(Opcode::PUSH.into());
                bytecode.extend_from_slice(
                    u64_to_le_bytes(#[verifier::truncate] (value as u64)).as_slice(),
                );
            },
            Expression::POP => bytecode.push(Opcode::POP.into()),
            Expression::STORE(index) => {
                bytecode.push(Opcode::STORE.into());
                bytecode.push(index);
            },
            Expression::LOAD(index) => {
                bytecode.push(Opcode::LOAD.into());
                bytecode.push(index);
            },
            Expression::ADD => bytecode.push(Opcode::ADD.into()),
            Expression::SUB => bytecode.push(Opcode::SUB.into()),
            Expression::MUL => bytecode.push(Opcode::MUL.into()),
            Expression::DIV => bytecode.push(Opcode::DIV.into()),
            Expression::MOD => bytecode.push(Opcode::MOD.into()),
            Expression::RET => bytecode.push(Opcode::RET.into()),
        }
    }

    assert(all.take(all.len() as int) == all);
    bytecode
}

} // verus!
