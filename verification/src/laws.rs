//! Theorems about the machine model: what instruction sequences do, and
//! what holds of every execution.

use crate::compiler::{encode, encode_expression};
use crate::decoder::{
    holds_at, index_at, instruction_at, instructions_from, instructions_of,
    lemma_instruction_at_encoded, opcode_at, value_at,
};
use crate::error::VmError;
use crate::machine::{Exit, MachineState, Outcome, MAX_INSTRUCTION_WIDTH};
use crate::opcode::Opcode;
use crate::parser::Expression;
use crate::value::{lemma_value_bytes_roundtrip, Value, VALUE_WIDTH};
use vstd::prelude::*;

verus! {

/// One step keeps the program and the size of the register file, and moves
/// the program counter forward, by at most one instruction's width. A step
/// that goes on leaves the counter inside the program.
pub proof fn lemma_step_invariants(state: MachineState)
    ensures
        state.step().state.bytecode == state.bytecode,
        state.well_formed() ==> state.step().state.well_formed(),
        state.program_counter < state.step().state.program_counter <= state.program_counter
            + MAX_INSTRUCTION_WIDTH,
        state.step().exit is None ==> state.step().state.program_counter <= state.bytecode.len(),
{
}

/// A whole execution keeps the program and the size of the register file,
/// and the program counter never moves backward.
pub proof fn lemma_run_invariants(state: MachineState)
    ensures
        state.run().state.bytecode == state.bytecode,
        state.well_formed() ==> state.run().state.well_formed(),
        state.program_counter < state.run().state.program_counter,
    decreases state.bytecode.len() - state.program_counter,
{
    lemma_step_invariants(state);
    if state.step().exit is None {
        lemma_run_invariants(state.step().state);
    }
}

/// Where the bytes of an instruction stand at the program counter, the step
/// taken is the execution of that instruction's opcode, and the operand read
/// is the instruction's operand.
pub proof fn lemma_step_at_encoded(state: MachineState, expression: Expression)
    requires
        holds_at(state.bytecode, state.program_counter, encode_expression(expression)),
    ensures
        state.step() == state.advance(1).execute(expression.opcode()),
        expression matches Expression::PUSH(value) ==> value_at(
            state.bytecode,
            state.program_counter + 1,
        ) == Ok::<Value, VmError>(value),
        expression matches Expression::STORE(index) ==> index_at(
            state.bytecode,
            state.program_counter + 1,
        ) == Ok::<u8, VmError>(index),
        expression matches Expression::LOAD(index) ==> index_at(
            state.bytecode,
            state.program_counter + 1,
        ) == Ok::<u8, VmError>(index),
{
    lemma_instruction_at_encoded(state.bytecode, state.program_counter, expression);
}

/// `PUSH v` immediately followed by `POP` changes nothing but the program
/// counter: the operand stack and the registers are as before the pair.
pub proof fn lemma_push_then_pop(state: MachineState, value: Value)
    requires
        holds_at(
            state.bytecode,
            state.program_counter,
            encode_expression(Expression::PUSH(value)) + encode_expression(Expression::POP),
        ),
    ensures
        state.step().exit is None,
        state.step().state.stack == state.stack.push(value),
        state.step().state.step() == state.advance(2 + VALUE_WIDTH as nat).goes_on(),
{
    let push = encode_expression(Expression::PUSH(value));
    let pop = encode_expression(Expression::POP);
    let at = state.program_counter as int;
    lemma_value_bytes_roundtrip(value);
    assert(state.bytecode.subrange(at, at + 9) =~= push) by {
        assert(state.bytecode.subrange(at, at + 9) =~= (push + pop).subrange(0, 9));
    }
    lemma_instruction_at_encoded(state.bytecode, state.program_counter, Expression::PUSH(value));
    let pushed = state.step().state;
    assert(pushed == state.advance(1 + VALUE_WIDTH as nat).push(value));
    assert(state.bytecode.subrange(at + 9, at + 10) =~= pop) by {
        assert(state.bytecode.subrange(at + 9, at + 10) =~= (push + pop).subrange(9, 10));
    }
    lemma_instruction_at_encoded(pushed.bytecode, pushed.program_counter, Expression::POP);
    assert(state.stack.push(value).drop_last() =~= state.stack);
}

/// `STORE i` followed by `LOAD i` puts the stored value back on top of the
/// stack and leaves it in register `i`; no other register changes. This
/// holds for every index.
pub proof fn lemma_store_then_load(state: MachineState, index: u8)
    requires
        state.well_formed(),
        state.stack.len() > 0,
        holds_at(
            state.bytecode,
            state.program_counter,
            encode_expression(Expression::STORE(index)) + encode_expression(
                Expression::LOAD(index),
            ),
        ),
    ensures
        state.step().exit is None,
        state.step().state.step() == state.advance(4).write(index, state.stack.last()).goes_on(),
        state.step().state.step().state.stack.last() == state.stack.last(),
        state.step().state.step().state.registers[index as int] == state.stack.last(),
        forall|other: int|
            0 <= other < state.registers.len() && other != index
                ==> #[trigger] state.step().state.step().state.registers[other]
                == state.registers[other],
{
    let store = encode_expression(Expression::STORE(index));
    let load = encode_expression(Expression::LOAD(index));
    let at = state.program_counter as int;
    assert(state.bytecode.subrange(at, at + 2) =~= store) by {
        assert(state.bytecode.subrange(at, at + 2) =~= (store + load).subrange(0, 2));
    }
    lemma_instruction_at_encoded(state.bytecode, state.program_counter, Expression::STORE(index));
    let stored = state.step().state;
    assert(stored == state.pop().advance(2).write(index, state.stack.last()));
    assert(state.bytecode.subrange(at + 2, at + 4) =~= load) by {
        assert(state.bytecode.subrange(at + 2, at + 4) =~= (store + load).subrange(2, 4));
    }
    lemma_instruction_at_encoded(stored.bytecode, stored.program_counter, Expression::LOAD(index));
    assert(state.stack.drop_last().push(state.stack.last()) =~= state.stack);
}

/// A step changes a register only by executing a `STORE` of that register.
pub proof fn lemma_step_register_frame(state: MachineState, register: u8)
    requires
        state.well_formed(),
    ensures
        state.step().state.registers[register as int] != state.registers[register as int]
            ==> instruction_at(state.bytecode, state.program_counter) == Some(
            Ok::<(Expression, nat), VmError>(
                (Expression::STORE(register), state.program_counter + 2),
            ),
        ),
{
}

/// Whether an instruction list holds no `STORE` to the given register.
pub open spec fn never_stores(expressions: Seq<Expression>, register: u8) -> bool {
    forall|i: int|
        0 <= i < expressions.len() ==> #[trigger] expressions[i] != Expression::STORE(register)
}

/// A register that the rest of the program never stores to holds at the end
/// of execution what it holds now.
pub proof fn lemma_untouched_register_kept(
    state: MachineState,
    expressions: Seq<Expression>,
    register: u8,
)
    requires
        state.well_formed(),
        instructions_from(state.bytecode, state.program_counter) == Ok::<
            Seq<Expression>,
            VmError,
        >(expressions),
        never_stores(expressions, register),
    ensures
        state.run().state.registers[register as int] == state.registers[register as int],
    decreases state.bytecode.len() - state.program_counter,
{
    lemma_step_register_frame(state, register);
    let step = state.step();
    match instruction_at(state.bytecode, state.program_counter) {
        Some(Ok((expression, next))) => {
            let rest = instructions_from(state.bytecode, next).unwrap();
            assert(expressions == seq![expression] + rest);
            assert(expressions[0] == expression);
            if step.exit is None {
                assert(step.state.program_counter == next);
                assert forall|i: int| 0 <= i < rest.len() implies #[trigger] rest[i]
                    != Expression::STORE(register) by {
                    assert(rest[i] == expressions[i + 1]);
                }
                lemma_untouched_register_kept(step.state, rest, register);
            }
        },
        _ => {},
    }
}

/// In a fresh machine, a register that the program never stores to is zero
/// when execution stops.
pub proof fn lemma_untouched_register_is_zero(
    bytecode: Seq<u8>,
    expressions: Seq<Expression>,
    register: u8,
)
    requires
        instructions_of(bytecode) == Ok::<Seq<Expression>, VmError>(expressions),
        never_stores(expressions, register),
    ensures
        MachineState::initial(bytecode).run().state.registers[register as int] == 0,
{
    lemma_untouched_register_kept(MachineState::initial(bytecode), expressions, register);
}

/// An instruction that finds fewer operands on the stack than it pops ends
/// execution with `NoValueInStack`.
pub proof fn lemma_underflow_fails(state: MachineState, opcode: Opcode)
    requires
        opcode_at(state.bytecode, state.program_counter) == Some(Ok::<Opcode, VmError>(opcode)),
        state.stack.len() < opcode.operands_popped(),
    ensures
        state.step().exit == Some(Exit::Failed(VmError::NoValueInStack)),
        state.run().exit == Exit::Failed(VmError::NoValueInStack),
        state.run().state.program_counter == state.program_counter + 1,
{
}

/// A `PUSH` whose operand is cut short by the end of the program ends
/// execution with `NoValueInBytecode`; the program counter then stands
/// behind the eight bytes that were asked for, and the stack is untouched.
pub proof fn lemma_truncated_value_fails(state: MachineState)
    requires
        opcode_at(state.bytecode, state.program_counter) == Some(
            Ok::<Opcode, VmError>(Opcode::PUSH),
        ),
        state.program_counter + 1 + VALUE_WIDTH > state.bytecode.len(),
    ensures
        state.run() == (Outcome {
            state: state.advance(1 + VALUE_WIDTH as nat),
            exit: Exit::Failed(VmError::NoValueInBytecode),
        }),
{
}

/// A `STORE` or `LOAD` whose index byte is missing ends execution with
/// `NoIndexInBytecode`, unless a `STORE` already failed on an empty stack.
pub proof fn lemma_truncated_index_fails(state: MachineState, opcode: Opcode)
    requires
        opcode == Opcode::STORE || opcode == Opcode::LOAD,
        opcode_at(state.bytecode, state.program_counter) == Some(Ok::<Opcode, VmError>(opcode)),
        state.program_counter + 1 >= state.bytecode.len(),
        state.stack.len() >= opcode.operands_popped(),
    ensures
        state.run().exit == Exit::Failed(VmError::NoIndexInBytecode),
        state.run().state.program_counter == state.program_counter + 2,
{
}

/// A byte in opcode position that is no tag ends execution with
/// `InvalidOpcode`.
pub proof fn lemma_invalid_opcode_fails(state: MachineState)
    requires
        state.program_counter < state.bytecode.len(),
        Opcode::from_tag(state.bytecode[state.program_counter as int]) is None,
    ensures
        state.run() == (Outcome {
            state: state.advance(1),
            exit: Exit::Failed(VmError::InvalidOpcode),
        }),
{
}

/// With the program exhausted, execution fails with `RetOpcodeNotFound`; it
/// does not return the stack.
pub proof fn lemma_exhausted_fails(state: MachineState)
    requires
        state.program_counter >= state.bytecode.len(),
    ensures
        state.run() == (Outcome {
            state: state.advance(1),
            exit: Exit::Failed(VmError::RetOpcodeNotFound),
        }),
{
}

/// Execution returns only by decoding a `RET`: the byte just before the
/// final program counter is then the tag of `RET`, read as an opcode.
pub proof fn lemma_returns_only_by_ret(state: MachineState)
    requires
        state.run().exit is Returned,
    ensures
        state.program_counter < state.run().state.program_counter <= state.bytecode.len(),
        opcode_at(state.bytecode, (state.run().state.program_counter - 1) as nat) == Some(
            Ok::<Opcode, VmError>(Opcode::RET),
        ),
    decreases state.bytecode.len() - state.program_counter,
{
    lemma_step_invariants(state);
    if state.step().exit is None {
        lemma_returns_only_by_ret(state.step().state);
    }
}

/// A program without any `RET` never returns a stack, whatever else it does.
pub proof fn lemma_no_ret_no_result(state: MachineState, expressions: Seq<Expression>)
    requires
        instructions_from(state.bytecode, state.program_counter) == Ok::<
            Seq<Expression>,
            VmError,
        >(expressions),
        forall|i: int| 0 <= i < expressions.len() ==> #[trigger] expressions[i] != Expression::RET,
    ensures
        !(state.run().exit is Returned),
    decreases state.bytecode.len() - state.program_counter,
{
    let step = state.step();
    match instruction_at(state.bytecode, state.program_counter) {
        Some(Ok((expression, next))) => {
            let rest = instructions_from(state.bytecode, next).unwrap();
            assert(expressions == seq![expression] + rest);
            assert(expressions[0] == expression);
            if step.exit is None {
                assert(step.state.program_counter == next);
                assert forall|i: int| 0 <= i < rest.len() implies #[trigger] rest[i]
                    != Expression::RET by {
                    assert(rest[i] == expressions[i + 1]);
                }
                lemma_no_ret_no_result(step.state, rest);
            }
        },
        _ => {},
    }
}

/// The program `PUSH a; PUSH b; SUB; RET` returns the single value `b - a`:
/// the value popped first, which was pushed last, is the left operand.
pub proof fn lemma_subtraction_order(a: Value, b: Value)
    requires
        i64::MIN <= b - a <= i64::MAX,
    ensures
        ({
            let program = seq![
                Expression::PUSH(a),
                Expression::PUSH(b),
                Expression::SUB,
                Expression::RET,
            ];
            let outcome = MachineState::initial(encode(program)).run();
            &&& outcome.exit == Exit::Returned
            &&& outcome.state.stack == seq![(b - a) as Value]
        }),
{
    let program = seq![Expression::PUSH(a), Expression::PUSH(b), Expression::SUB, Expression::RET];
    let bytecode = encode(program);
    let push_a = encode_expression(Expression::PUSH(a));
    let push_b = encode_expression(Expression::PUSH(b));
    let sub = encode_expression(Expression::SUB);
    let ret = encode_expression(Expression::RET);
    lemma_value_bytes_roundtrip(a);
    lemma_value_bytes_roundtrip(b);
    assert(bytecode =~= push_a + push_b + sub + ret) by {
        reveal_with_fuel(encode, 5);
        assert(program.drop_first() =~= seq![
            Expression::PUSH(b),
            Expression::SUB,
            Expression::RET,
        ]);
        assert(program.drop_first().drop_first() =~= seq![Expression::SUB, Expression::RET]);
        assert(program.drop_first().drop_first().drop_first() =~= seq![Expression::RET]);
        assert(program.drop_first().drop_first().drop_first().drop_first() =~= Seq::<
            Expression,
        >::empty());
    }
    let s0 = MachineState::initial(bytecode);
    assert(bytecode.subrange(0, 9) =~= push_a);
    lemma_step_at_encoded(s0, Expression::PUSH(a));
    let s1 = s0.step().state;
    assert(bytecode.subrange(9, 18) =~= push_b);
    lemma_step_at_encoded(s1, Expression::PUSH(b));
    let s2 = s1.step().state;
    assert(bytecode.subrange(18, 19) =~= sub);
    lemma_step_at_encoded(s2, Expression::SUB);
    let s3 = s2.step().state;
    assert(bytecode.subrange(19, 20) =~= ret);
    lemma_step_at_encoded(s3, Expression::RET);
    assert(s2.stack =~= seq![a, b]);
    assert(s3.stack =~= seq![(b - a) as Value]);
    assert(s3.run() == Outcome { state: s3.advance(1), exit: Exit::Returned });
    assert(s2.run() == s3.run());
    assert(s1.run() == s2.run());
    assert(s0.run() == s1.run());
}

} // verus!
