//! Decoded instructions and the byte-stream decoder.
//!
//! A byte stream decodes left to right.  A PUSH opcode consumes its operand
//! bytes from the stream — those bytes are never read as opcodes themselves,
//! whatever their value.  Too few trailing operand bytes fail the whole
//! decode; a byte with no defined mnemonic decodes to [`Instruction::Unknown`]
//! and only fails later, if it reaches the interpreter.
use crate::error::DecodeError;
use vstd::prelude::*;

verus! {

/// One decoded instruction, possibly carrying immediate operand bytes.
#[derive(Clone, Copy, PartialEq, Eq, Structural, Debug)]
pub enum Instruction {
    /// Pop two words, push their wraparound sum.
    Add,
    /// Pop two words, push their wraparound product.
    Mul,
    /// Pop two words, push (second minus top), wrapping.
    Sub,
    /// Pop one word, push 1 if it was zero, else 0.
    IsZero,
    /// Discard the top word.
    Pop,
    /// Pop an offset and a value, store the value's bytes in memory.
    MStore,
    /// Pop a key and a value, store the value in storage.
    SStore,
    /// Push a word from a one-byte literal.
    Push1(u8),
    /// Push a word from a two-byte literal, most significant byte first.
    Push2(u8, u8),
    /// Push a copy of the top word.
    Dup1,
    /// Push a copy of the second word from the top.
    Dup2,
    /// Exchange the top two words.
    Swap1,
    /// A byte with no defined semantics; fatal if executed.
    Unknown(u8),
}

impl Instruction {
    /// The byte value that identifies this instruction.
    pub open spec fn byte_spec(self) -> u8 {
        match self {
            Instruction::Add => 0x01,
            Instruction::Mul => 0x02,
            Instruction::Sub => 0x03,
            Instruction::IsZero => 0x15,
            Instruction::Pop => 0x50,
            Instruction::MStore => 0x52,
            Instruction::SStore => 0x55,
            Instruction::Push1(_) => 0x60,
            Instruction::Push2(_, _) => 0x61,
            Instruction::Dup1 => 0x80,
            Instruction::Dup2 => 0x81,
            Instruction::Swap1 => 0x90,
            Instruction::Unknown(b) => b,
        }
    }

    /// The byte value that identifies this instruction.
    pub fn byte(&self) -> (b: u8)
        ensures
            b == self.byte_spec(),
    {
        match self {
            Instruction::Add => 0x01,
            Instruction::Mul => 0x02,
            Instruction::Sub => 0x03,
            Instruction::IsZero => 0x15,
            Instruction::Pop => 0x50,
            Instruction::MStore => 0x52,
            Instruction::SStore => 0x55,
            Instruction::Push1(_) => 0x60,
            Instruction::Push2(_, _) => 0x61,
            Instruction::Dup1 => 0x80,
            Instruction::Dup2 => 0x81,
            Instruction::Swap1 => 0x90,
            Instruction::Unknown(b) => *b,
        }
    }
}

/// The instruction a single non-PUSH byte decodes to.
pub open spec fn instr_of_byte(b: u8) -> Instruction {
    if b == 0x01 {
        Instruction::Add
    } else if b == 0x02 {
        Instruction::Mul
    } else if b == 0x03 {
        Instruction::Sub
    } else if b == 0x15 {
        Instruction::IsZero
    } else if b == 0x50 {
        Instruction::Pop
    } else if b == 0x52 {
        Instruction::MStore
    } else if b == 0x55 {
        Instruction::SStore
    } else if b == 0x80 {
        Instruction::Dup1
    } else if b == 0x81 {
        Instruction::Dup2
    } else if b == 0x90 {
        Instruction::Swap1
    } else {
        Instruction::Unknown(b)
    }
}

/// What the byte stream `bytes[i..]` decodes to: the instructions in order,
/// or the error that aborts the whole decode.
pub open spec fn decode_from(bytes: Seq<u8>, i: int) -> Result<Seq<Instruction>, DecodeError>
    decreases bytes.len() - i,
{
    if i < 0 || i >= bytes.len() {
        Ok(Seq::empty())
    } else if bytes[i] == 0x60 {
        if i + 1 < bytes.len() {
            match decode_from(bytes, i + 2) {
                Ok(rest) => Ok(seq![Instruction::Push1(bytes[i + 1])] + rest),
                Err(e) => Err(e),
            }
        } else {
            Err(DecodeError::TruncatedPush)
        }
    } else if bytes[i] == 0x61 {
        if i + 2 < bytes.len() {
            match decode_from(bytes, i + 3) {
                Ok(rest) => Ok(seq![Instruction::Push2(bytes[i + 1], bytes[i + 2])] + rest),
                Err(e) => Err(e),
            }
        } else {
            Err(DecodeError::TruncatedPush)
        }
    } else {
        match decode_from(bytes, i + 1) {
            Ok(rest) => Ok(seq![instr_of_byte(bytes[i])] + rest),
            Err(e) => Err(e),
        }
    }
}

/// What a whole byte stream decodes to.
pub open spec fn decode_spec(bytes: Seq<u8>) -> Result<Seq<Instruction>, DecodeError> {
    decode_from(bytes, 0)
}

/// Decode a byte stream into instructions, exactly as [`decode_spec`] reads
/// it: all-or-nothing, PUSH operands consumed and never decoded as opcodes.
pub fn decode_bytes(bytes: &Vec<u8>) -> (r: Result<Vec<Instruction>, DecodeError>)
    ensures
        (match (r, decode_spec(bytes@)) {
            (Ok(v), Ok(spec_v)) => v@ == spec_v,
            (Err(e), Err(spec_e)) => e == spec_e,
            _ => false,
        }),
{
    let n = bytes.len();
    let mut out: Vec<Instruction> = Vec::new();
    proof {
        if decode_from(bytes@, 0) is Ok {
            assert(Seq::<Instruction>::empty() + decode_from(bytes@, 0)->Ok_0 =~= decode_from(
                bytes@,
                0,
            )->Ok_0);
        }
    }
    let mut i: usize = 0;
    while i < n
        invariant
            i <= n,
            n == bytes@.len(),
            (match decode_spec(bytes@) {
                Ok(all) => decode_from(bytes@, i as int) is Ok && all == out@ + decode_from(
                    bytes@,
                    i as int,
                )->Ok_0,
                Err(e) => decode_from(bytes@, i as int) == Err::<Seq<Instruction>, DecodeError>(e),
            }),
        decreases n - i,
    {
        let b = bytes[i];
        let ghost prev = out@;
        if b == 0x60 {
            if i + 1 < n {
                out.push(Instruction::Push1(bytes[i + 1]));
                proof {
                    if decode_from(bytes@, i as int) is Ok {
                        assert(prev + decode_from(bytes@, i as int)->Ok_0 =~= out@ + decode_from(
                            bytes@,
                            i as int + 2,
                        )->Ok_0);
                    }
                }
                i += 2;
            } else {
                return Err(DecodeError::TruncatedPush);
            }
        } else if b == 0x61 {
            if n - i > 2 {
                out.push(Instruction::Push2(bytes[i + 1], bytes[i + 2]));
                proof {
                    if decode_from(bytes@, i as int) is Ok {
                        assert(prev + decode_from(bytes@, i as int)->Ok_0 =~= out@ + decode_from(
                            bytes@,
                            i as int + 3,
                        )->Ok_0);
                    }
                }
                i += 3;
            } else {
                return Err(DecodeError::TruncatedPush);
            }
        } else {
            let instr = if b == 0x01 {
                Instruction::Add
            } else if b == 0x02 {
                Instruction::Mul
            } else if b == 0x03 {
                Instruction::Sub
            } else if b == 0x15 {
                Instruction::IsZero
            } else if b == 0x50 {
                Instruction::Pop
            } else if b == 0x52 {
                Instruction::MStore
            } else if b == 0x55 {
                Instruction::SStore
            } else if b == 0x80 {
                Instruction::Dup1
            } else if b == 0x81 {
                Instruction::Dup2
            } else if b == 0x90 {
                Instruction::Swap1
            } else {
                Instruction::Unknown(b)
            };
            out.push(instr);
            proof {
                if decode_from(bytes@, i as int) is Ok {
                    assert(prev + decode_from(bytes@, i as int)->Ok_0 =~= out@ + decode_from(
                        bytes@,
                        i as int + 1,
                    )->Ok_0);
                }
            }
            i += 1;
        }
    }
    proof {
        if decode_spec(bytes@) is Ok {
            assert(out@ + Seq::<Instruction>::empty() =~= out@);
        }
    }
    Ok(out)
}

} // verus!
