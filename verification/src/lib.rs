//! A minimal stack-based virtual machine in the style of the Ethereum VM.
//!
//! Bytecode (a hex string or a stream of opcode tokens) is lexed into a
//! sequence of typed instructions, which the interpreter executes against a
//! 256-bit word stack, a byte-addressable memory, and a key/value storage map.
#![allow(unused_imports)]

pub mod bytes;
pub mod error;
pub mod instruction;
pub mod interp;
pub mod lexer;
pub mod memory;
pub mod opcode;
pub mod stack;
pub mod storage;
pub mod text;
pub mod word;

pub use crate::bytes::{pad_bytes, to_bytes, to_uint256, Endian};
pub use crate::error::{DecodeError, EvalError};
pub use crate::instruction::Instruction;
pub use crate::interp::eval_opcode;
pub use crate::lexer::lex_bytecode;
pub use crate::memory::Memory;
pub use crate::opcode::Opcode;
pub use crate::stack::Stack;
pub use crate::storage::Storage;
pub use crate::word::Word;
