//! The machine as a mathematical object: its state and its transition
//! function. The executable machine is specified against this model.

use crate::decoder::{index_at, opcode_at, value_at};
use crate::error::VmError;
use crate::opcode::Opcode;
use crate::value::{Value, VALUE_WIDTH};
use vstd::prelude::*;

verus! {

/// Number of registers; every `u8` is a valid register index.
pub const REGISTER_COUNT: usize = 256;

/// The largest number of bytes one instruction moves the program counter:
/// the tag and a value operand.
pub const MAX_INSTRUCTION_WIDTH: usize = 9;

/// The quotient of `dividend` by `divisor` rounded toward zero.
///
/// The `/` of specifications is Euclidean: it rounds toward zero exactly
/// where the dividend is not negative. The quotient of a negative dividend
/// is therefore the negated quotient of its magnitude.
pub open spec fn truncated_quotient(dividend: int, divisor: int) -> int
    recommends
        divisor != 0,
{
    if dividend >= 0 {
        dividend / divisor
    } else {
        -((-dividend) / divisor)
    }
}

/// The remainder that goes with [`truncated_quotient`]; it has the sign of
/// the dividend.
pub open spec fn truncated_remainder(dividend: int, divisor: int) -> int
    recommends
        divisor != 0,
{
    if dividend >= 0 {
        dividend % divisor
    } else {
        -((-dividend) % divisor)
    }
}

/// A truncated quotient is no larger in magnitude than its dividend, and
/// only division by `-1` negates the dividend; the remainder lies between
/// zero and the dividend; quotient and remainder recompose the dividend.
pub proof fn lemma_truncated_division(dividend: int, divisor: int)
    requires
        divisor != 0,
    ensures
        dividend >= 0 ==> 0 <= truncated_remainder(dividend, divisor) <= dividend,
        dividend <= 0 ==> dividend <= truncated_remainder(dividend, divisor) <= 0,
        dividend >= 0 ==> -dividend <= truncated_quotient(dividend, divisor) <= dividend,
        dividend <= 0 ==> dividend <= truncated_quotient(dividend, divisor) <= -dividend,
        divisor == -1 ==> truncated_quotient(dividend, divisor) == -dividend,
        divisor != -1 && dividend < 0 ==> truncated_quotient(dividend, divisor) < -dividend,
        dividend == divisor * truncated_quotient(dividend, divisor) + truncated_remainder(
            dividend,
            divisor,
        ),
{
    let magnitude = if dividend >= 0 {
        dividend
    } else {
        -dividend
    };
    let quotient = magnitude / divisor;
    let remainder = magnitude % divisor;
    assert(magnitude == divisor * quotient + remainder && 0 <= remainder && (divisor > 0
        ==> remainder < divisor) && (divisor < 0 ==> remainder < -divisor)) by (nonlinear_arith)
        requires
            divisor != 0,
            quotient == magnitude / divisor,
            remainder == magnitude % divisor,
    ;
    assert(-magnitude <= quotient <= magnitude && remainder <= magnitude && (divisor == -1
        ==> quotient == -magnitude) && (divisor != -1 && magnitude > 0 ==> quotient > -magnitude))
        by (nonlinear_arith)
        requires
            divisor != 0,
            magnitude >= 0,
            magnitude == divisor * quotient + remainder,
            0 <= remainder,
            divisor > 0 ==> remainder < divisor,
            divisor < 0 ==> remainder < -divisor,
    ;
    assert(divisor * (-quotient) == -(divisor * quotient)) by (nonlinear_arith);
}

/// The exact result of an arithmetic opcode applied to the first and the
/// second value popped, as an unbounded integer.
///
/// `None` for a zero divisor, and for an opcode that is not arithmetic.
pub open spec fn exact_result(opcode: Opcode, first: Value, second: Value) -> Option<int> {
    match opcode {
        Opcode::ADD => Some(first + second),
        Opcode::SUB => Some(first - second),
        Opcode::MUL => Some(first * second),
        Opcode::DIV => if second == 0 {
            None
        } else {
            Some(truncated_quotient(first as int, second as int))
        },
        Opcode::MOD => if second == 0 {
            None
        } else {
            Some(truncated_remainder(first as int, second as int))
        },
        _ => None,
    }
}

/// The value an arithmetic opcode pushes, where it has one.
///
/// `None` marks an arithmetic fault: a zero divisor, or a result that does
/// not fit a [`Value`]. `MOD` faults wherever `DIV` of the same operands
/// does, so also for the most negative value and `-1`, although the
/// remainder itself would fit.
pub open spec fn arithmetic(opcode: Opcode, first: Value, second: Value) -> Option<Value> {
    match exact_result(opcode, first, second) {
        Some(result) => if i64::MIN <= result <= i64::MAX && !(opcode == Opcode::MOD && first
            == i64::MIN && second == -1) {
            Some(result as Value)
        } else {
            None
        },
        None => None,
    }
}

/// Why execution stopped.
pub enum Exit {
    /// A `RET` was decoded; the operand stack is the program's result.
    Returned,
    /// A runtime error.
    Failed(VmError),
    /// An arithmetic fault: division by zero or overflow.
    Faulted,
}

/// The state of the machine.
pub struct MachineState {
    /// The program, fixed for the lifetime of the machine.
    pub bytecode: Seq<u8>,
    /// Offset of the next byte to read.
    pub program_counter: nat,
    /// The operand stack, bottom first.
    pub stack: Seq<Value>,
    /// The register file, `REGISTER_COUNT` values.
    pub registers: Seq<Value>,
}

/// The state one instruction leads to, and whether execution stops there.
pub struct Step {
    pub state: MachineState,
    pub exit: Option<Exit>,
}

/// How an execution ended: the state it stopped in, and why.
pub struct Outcome {
    pub state: MachineState,
    pub exit: Exit,
}

impl MachineState {
    /// The state a machine starts in: cursor at zero, empty stack, all
    /// registers zero.
    pub open spec fn initial(bytecode: Seq<u8>) -> MachineState {
        MachineState {
            bytecode,
            program_counter: 0,
            stack: Seq::empty(),
            registers: Seq::new(REGISTER_COUNT as nat, |i: int| 0i64),
        }
    }

    /// The register file has its fixed size.
    pub open spec fn well_formed(self) -> bool {
        self.registers.len() == REGISTER_COUNT
    }

    /// The program counter can move past one more instruction, wherever that
    /// instruction starts, without leaving `usize`.
    pub open spec fn within_limits(self) -> bool {
        &&& self.program_counter + MAX_INSTRUCTION_WIDTH <= usize::MAX
        &&& self.bytecode.len() + MAX_INSTRUCTION_WIDTH <= usize::MAX
    }

    /// The same state with the program counter moved forward by `width`.
    pub open spec fn advance(self, width: nat) -> MachineState {
        MachineState { program_counter: self.program_counter + width, ..self }
    }

    /// The same state with `value` pushed on the operand stack.
    pub open spec fn push(self, value: Value) -> MachineState {
        MachineState { stack: self.stack.push(value), ..self }
    }

    /// The same state without the top of the operand stack.
    pub open spec fn pop(self) -> MachineState
        recommends
            self.stack.len() > 0,
    {
        MachineState { stack: self.stack.drop_last(), ..self }
    }

    /// The same state with `value` written to register `index`.
    pub open spec fn write(self, index: u8, value: Value) -> MachineState {
        MachineState { registers: self.registers.update(index as int, value), ..self }
    }

    /// A step that goes on.
    pub open spec fn goes_on(self) -> Step {
        Step { state: self, exit: None }
    }

    /// A step that stops with a runtime error.
    pub open spec fn fails(self, error: VmError) -> Step {
        Step { state: self, exit: Some(Exit::Failed(error)) }
    }

    /// The effect of an arithmetic opcode, the program counter already past
    /// its tag: pop two values, the first popped being the left operand,
    /// and push the result.
    pub open spec fn execute_arithmetic(self, opcode: Opcode) -> Step {
        if self.stack.len() == 0 {
            self.fails(VmError::NoValueInStack)
        } else if self.stack.len() == 1 {
            self.pop().fails(VmError::NoValueInStack)
        } else {
            let first = self.stack[self.stack.len() - 1];
            let second = self.stack[self.stack.len() - 2];
            let rest = self.pop().pop();
            match arithmetic(opcode, first, second) {
                Some(result) => rest.push(result).goes_on(),
                None => Step { state: rest, exit: Some(Exit::Faulted) },
            }
        }
    }

    /// The effect of an instruction with the given opcode, the program
    /// counter already past its tag.
    pub open spec fn execute(self, opcode: Opcode) -> Step {
        match opcode {
            Opcode::PUSH => match value_at(self.bytecode, self.program_counter) {
                Ok(value) => self.advance(VALUE_WIDTH as nat).push(value).goes_on(),
                Err(error) => self.advance(VALUE_WIDTH as nat).fails(error),
            },
            Opcode::POP => if self.stack.len() == 0 {
                self.fails(VmError::NoValueInStack)
            } else {
                self.pop().goes_on()
            },
            Opcode::STORE => if self.stack.len() == 0 {
                self.fails(VmError::NoValueInStack)
            } else {
                match index_at(self.bytecode, self.program_counter) {
                    Ok(index) => self.pop().advance(1).write(index, self.stack.last()).goes_on(),
                    Err(error) => self.pop().advance(1).fails(error),
                }
            },
            Opcode::LOAD => match index_at(self.bytecode, self.program_counter) {
                Ok(index) => self.advance(1).push(self.registers[index as int]).goes_on(),
                Err(error) => self.advance(1).fails(error),
            },
            Opcode::ADD | Opcode::SUB | Opcode::MUL | Opcode::DIV | Opcode::MOD => {
                self.execute_arithmetic(opcode)
            },
            Opcode::RET => Step { state: self, exit: Some(Exit::Returned) },
        }
    }

    /// One turn of the fetch-decode-execute loop.
    ///
    /// The program counter moves past every byte an attempted read asked
    /// for, whether or not the read succeeded.
    pub open spec fn step(self) -> Step {
        let fetched = self.advance(1);
        match opcode_at(self.bytecode, self.program_counter) {
            None => fetched.fails(VmError::RetOpcodeNotFound),
            Some(Err(error)) => fetched.fails(error),
            Some(Ok(opcode)) => fetched.execute(opcode),
        }
    }

    /// Execution from this state until it stops.
    pub open spec fn run(self) -> Outcome
        decreases self.bytecode.len() - self.program_counter,
    {
        let step = self.step();
        match step.exit {
            Some(exit) => Outcome { state: step.state, exit },
            None => step.state.run(),
        }
    }

    /// Whether execution from this state stops without an arithmetic fault.
    pub open spec fn runs_without_fault(self) -> bool {
        !(self.run().exit is Faulted)
    }
}

} // verus!
