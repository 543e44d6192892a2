//! A small stack-and-register bytecode machine together with the front end
//! that turns assembly text into bytecode.
//!
//! The pipeline is `tokenize` → `parse` → `compile` → `VirtualMachine::run`.
//! Every stage is stated against a mathematical model: tokens and instruction
//! lists are sequences, bytecode is a `Seq<u8>`, and the machine is a
//! transition function on [`machine::MachineState`].

pub mod compiler;
pub mod decoder;
pub mod error;
pub mod laws;
pub mod lexer;
pub mod machine;
pub mod number;
pub mod opcode;
pub mod parser;
pub mod value;
pub mod virtual_machine;
