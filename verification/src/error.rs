//! The failures the machine can report.  Every failure is a deterministic
//! function of the input; nothing is retried or masked.
use vstd::prelude::*;

verus! {

/// Why lexing failed.  Decoding is all-or-nothing: on any of these the whole
/// decode aborts and no partial instruction sequence is returned.
#[derive(Clone, Copy, PartialEq, Eq, Structural, Debug)]
pub enum DecodeError {
    /// A hex bytecode string with an odd number of digits, or a stray
    /// non-hex character in it.
    BadHex,
    /// A token that is neither a byte of hex digits nor a known mnemonic.
    UnknownToken,
    /// A PUSH opcode with fewer trailing bytes than its operand needs.
    TruncatedPush,
}

/// Why execution failed.  Each of these is fatal to the run: no partial
/// machine state is returned.
#[derive(Clone, Copy, PartialEq, Eq, Structural, Debug)]
pub enum EvalError {
    /// An opcode required more operands than the stack held.
    StackUnderflow,
    /// A raw byte with no defined semantics reached the dispatcher.
    UnknownOpcode(u8),
    /// A store's offset computation cannot be represented.
    MemoryAccessError,
}

} // verus!
