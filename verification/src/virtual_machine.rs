//! The execution engine: a machine that owns one bytecode buffer and runs it.

use crate::decoder::{index_at, opcode_at, value_at};
use crate::error::VmError;
use crate::machine::{
    arithmetic, lemma_truncated_division, Exit, MachineState, REGISTER_COUNT,
};
use crate::opcode::Opcode;
use crate::value::{Value, VALUE_WIDTH};
use vstd::bytes::u64_from_le_bytes;
use vstd::prelude::*;
use vstd::slice::slice_subrange;

verus! {

/// A virtual machine instance.
pub struct VirtualMachine {
    stack: Vec<Value>,
    register: [Value; REGISTER_COUNT],
    bytecode: Vec<u8>,
    program_counter: usize,
}

impl View for VirtualMachine {
    type V = MachineState;

    closed spec fn view(&self) -> MachineState {
        MachineState {
            bytecode: self.bytecode@,
            program_counter: self.program_counter as nat,
            stack: self.stack@,
            registers: self.register@,
        }
    }
}

impl VirtualMachine {
    /// Creates a machine that will execute `bytecode` from its first byte.
    pub fn new(bytecode: Vec<u8>) -> (machine: Self)
        ensures
            machine@ == MachineState::initial(bytecode@),
    {
        let machine = Self {
            stack: Vec::new(),
            register: [0; REGISTER_COUNT],
            bytecode,
            program_counter: 0,
        };
        assert(machine@.registers =~= MachineState::initial(bytecode@).registers);
        machine
    }

    /// Every machine has a full register file.
    pub proof fn lemma_well_formed(&self)
        ensures
            self@.well_formed(),
    {
    }

    /// Reads the opcode at the program counter and moves past it.
    ///
    /// `None` means the bytecode is exhausted; the counter moves all the
    /// same.
    pub fn get_opcode_from_bytecode(&mut self) -> (opcode: Option<Result<Opcode, VmError>>)
        requires
            old(self)@.program_counter + 1 <= usize::MAX,
        ensures
            opcode == opcode_at(old(self)@.bytecode, old(self)@.program_counter),
            final(self)@ == old(self)@.advance(1),
    {
        let opcode = if self.program_counter < self.bytecode.len() {
            Some(Opcode::try_from(self.bytecode[self.program_counter]))
        } else {
            None
        };

        self.program_counter += 1;

        opcode
    }

    /// Reads the little-endian value at the program counter and moves eight
    /// bytes on, whether or not eight bytes were there.
    pub fn get_value_from_bytecode(&mut self) -> (value: Result<Value, VmError>)
        requires
            old(self)@.program_counter + VALUE_WIDTH <= usize::MAX,
        ensures
            value == value_at(old(self)@.bytecode, old(self)@.program_counter),
            final(self)@ == old(self)@.advance(VALUE_WIDTH as nat),
    {
        let start = self.program_counter;
        let end = self.program_counter + VALUE_WIDTH;
        let value = if end <= self.bytecode.len() {
            let bytes = slice_subrange(self.bytecode.as_slice(), start, end);
            Some(#[verifier::truncate] (u64_from_le_bytes(bytes) as Value))
        } else {
            None
        };

        self.program_counter += VALUE_WIDTH;

        value.ok_or(VmError::NoValueInBytecode)
    }

    /// Reads the register index at the program counter and moves past it,
    /// whether or not a byte was there.
    pub fn get_index_from_bytecode(&mut self) -> (index: Result<u8, VmError>)
        requires
            old(self)@.program_counter + 1 <= usize::MAX,
        ensures
            index == index_at(old(self)@.bytecode, old(self)@.program_counter),
            final(self)@ == old(self)@.advance(1),
    {
        let index = if self.program_counter < self.bytecode.len() {
            Some(self.bytecode[self.program_counter])
        } else {
            None
        };

        self.program_counter += 1;

        index.ok_or(VmError::NoIndexInBytecode)
    }

    /// Executes instructions until a `RET` is decoded or an instruction
    /// fails.
    ///
    /// On `RET` the result is the operand stack, bottom first. The machine
    /// is left in the state in which execution stopped.
    ///
    /// The caller must know that no instruction divides by zero or
    /// overflows; [`checked_run`](Self::checked_run) executes any program.
    pub fn run(&mut self) -> (result: Result<&[Value], VmError>)
        requires
            old(self)@.within_limits(),
            old(self)@.runs_without_fault(),
        ensures
            final(self)@ == old(self)@.run().state,
            match old(self)@.run().exit {
                Exit::Returned => result is Ok && result->Ok_0@ == final(self)@.stack,
                Exit::Failed(error) => result == Err::<&[Value], VmError>(error),
                Exit::Faulted => false,
            },
    {
        let ghost start = self@;
        loop
            invariant
                start == old(self)@,
                self@.bytecode == start.bytecode,
                self@.program_counter <= self@.bytecode.len() || self@ == start,
                start.within_limits(),
                self@.run() == start.run(),
                !(start.run().exit is Faulted),
            decreases self@.bytecode.len() - self@.program_counter,
        {
            let opcode = match self.get_opcode_from_bytecode() {
                Some(Ok(opcode)) => opcode,
                Some(Err(error)) => return Err(error),
                None => return Err(VmError::RetOpcodeNotFound),
            };
            match opcode {
                Opcode::PUSH => {
                    let value = self.get_value_from_bytecode()?;
                    self.stack.push(value);
                },
                Opcode::POP => {
                    self.stack.pop().ok_or(VmError::NoValueInStack)?;
                },
                Opcode::STORE => {
                    let value = self.stack.pop().ok_or(VmError::NoValueInStack)?;
                    let index = self.get_index_from_bytecode()?;
                    self.register[index as usize] = value;
                },
                Opcode::LOAD => {
                    let index = self.get_index_from_bytecode()?;
                    let value = self.register[index as usize];
                    self.stack.push(value);
                },
                Opcode::ADD => {
                    let value_1 = self.stack.pop().ok_or(VmError::NoValueInStack)?;
                    let value_2 = self.stack.pop().ok_or(VmError::NoValueInStack)?;
                    let value_3 = value_1 + value_2;
                    self.stack.push(value_3);
                },
                Opcode::SUB => {
                    let value_1 = self.stack.pop().ok_or(VmError::NoValueInStack)?;
                    let value_2 = self.stack.pop().ok_or(VmError::NoValueInStack)?;
                    let value_3 = value_1 - value_2;
                    self.stack.push(value_3)
                },
                Opcode::MUL => {
                    let value_1 = self.stack.pop().ok_or(VmError::NoValueInStack)?;
                    let value_2 = self.stack.pop().ok_or(VmError::NoValueInStack)?;
                    let value_3 = value_1 * value_2;
                    self.stack.push(value_3);
                },
                Opcode::DIV => {
                    let value_1 = self.stack.pop().ok_or(VmError::NoValueInStack)?;
                    let value_2 = self.stack.pop().ok_or(VmError::NoValueInStack)?;
                    proof {
                        if value_2 != 0 {
                            lemma_truncated_division(value_1 as int, value_2 as int);
                        }
                    }
                    let value_3 = value_1 / value_2;
                    self.stack.push(value_3);
                },
                Opcode::MOD => {
                    let value_1 = self.stack.pop().ok_or(VmError::NoValueInStack)?;
                    let value_2 = self.stack.pop().ok_or(VmError::NoValueInStack)?;
                    proof {
                        if value_2 != 0 {
                            lemma_truncated_division(value_1 as int, value_2 as int);
                        }
                    }
                    let value_3 = value_1 % value_2;
                    self.stack.push(value_3);
                },
                Opcode::RET => {
                    return Ok(self.stack.as_slice());
                },
            }
        }
    }

    /// Executes like [`run`](Self::run), for every program: where an
    /// instruction divides by zero or its result overflows, execution stops
    /// there and the result is `None`.
    ///
    /// The faulting instruction has then consumed its tag and both operands.
    pub fn checked_run(&mut self) -> (result: Option<Result<&[Value], VmError>>)
        requires
            old(self)@.within_limits(),
        ensures
            final(self)@ == old(self)@.run().state,
            match old(self)@.run().exit {
                Exit::Returned => {
                    &&& result is Some
                    &&& result->0 is Ok
                    &&& result->0->Ok_0@ == final(self)@.stack
                },
                Exit::Failed(error) => result == Some(Err::<&[Value], VmError>(error)),
                Exit::Faulted => result is None,
            },
    {
        let ghost start = self@;
        loop
            invariant
                start == old(self)@,
                self@.bytecode == start.bytecode,
                self@.program_counter <= self@.bytecode.len() || self@ == start,
                start.within_limits(),
                self@.run() == start.run(),
            decreases self@.bytecode.len() - self@.program_counter,
        {
            let opcode = match self.get_opcode_from_bytecode() {
                Some(Ok(opcode)) => opcode,
                Some(Err(error)) => return Some(Err(error)),
                None => return Some(Err(VmError::RetOpcodeNotFound)),
            };
            match opcode {
                Opcode::PUSH => {
                    match self.get_value_from_bytecode() {
                        Ok(value) => self.stack.push(value),
                        Err(error) => return Some(Err(error)),
                    }
                },
                Opcode::POP => {
                    if self.stack.pop().is_none() {
                        return Some(Err(VmError::NoValueInStack));
                    }
                },
                Opcode::STORE => {
                    let value = match self.stack.pop() {
                        Some(value) => value,
                        None => return Some(Err(VmError::NoValueInStack)),
                    };
                    match self.get_index_from_bytecode() {
                        Ok(index) => self.register[index as usize] = value,
                        Err(error) => return Some(Err(error)),
                    }
                },
                Opcode::LOAD => {
                    match self.get_index_from_bytecode() {
                        Ok(index) => self.stack.push(self.register[index as usize]),
                        Err(error) => return Some(Err(error)),
                    }
                },
                Opcode::ADD | Opcode::SUB | Opcode::MUL | Opcode::DIV | Opcode::MOD => {
                    let (first, second) = match self.pop_operands() {
                        Ok(operands) => operands,
                        Err(error) => return Some(Err(error)),
                    };
                    match checked_arithmetic(opcode, first, second) {
                        Some(result) => self.stack.push(result),
                        None => return None,
                    }
                },
                Opcode::RET => {
                    return Some(Ok(self.stack.as_slice()));
                },
            }
        }
    }

    /// Pops the two operands of an arithmetic instruction, the top of the
    /// stack first. A missing second operand is noticed only after the first
    /// has been popped.
    fn pop_operands(&mut self) -> (operands: Result<(Value, Value), VmError>)
        ensures
            match operands {
                Ok((first, second)) => {
                    let depth = old(self)@.stack.len();
                    &&& depth >= 2
                    &&& first == old(self)@.stack[depth - 1]
                    &&& second == old(self)@.stack[depth - 2]
                    &&& final(self)@ == old(self)@.pop().pop()
                },
                Err(error) => {
                    let depth = old(self)@.stack.len();
                    &&& depth < 2
                    &&& error == VmError::NoValueInStack
                    &&& final(self)@ == if depth == 0 {
                        old(self)@
                    } else {
                        old(self)@.pop()
                    }
                },
            },
    {
        let first = self.stack.pop().ok_or(VmError::NoValueInStack)?;
        let second = self.stack.pop().ok_or(VmError::NoValueInStack)?;
        Ok((first, second))
    }
}

/// Computes an arithmetic instruction's result, or `None` where it faults.
fn checked_arithmetic(opcode: Opcode, first: Value, second: Value) -> (result: Option<Value>)
    ensures
        result == arithmetic(opcode, first, second),
{
    proof {
        if second != 0 {
            lemma_truncated_division(first as int, second as int);
        }
    }
    match opcode {
        Opcode::ADD => first.checked_add(second),
        Opcode::SUB => first.checked_sub(second),
        Opcode::MUL => first.checked_mul(second),
        Opcode::DIV => if second == 0 || (first == i64::MIN && second == -1) {
            None
        } else {
            Some(first / second)
        },
        Opcode::MOD => if second == 0 || (first == i64::MIN && second == -1) {
            None
        } else {
            Some(first % second)
        },
        _ => None,
    }
}

} // verus!
