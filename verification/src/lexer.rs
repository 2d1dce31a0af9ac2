//! The lexer: from source text to a sequence of typed instructions.
//!
//! Source is either a `0x`-prefixed hex string (decoded byte pair by byte
//! pair) or whitespace-separated tokens, each a byte of hex digits or an
//! uppercase mnemonic.  Either way the resulting byte stream is decoded left
//! to right with PUSH operands consumed as literals; any flaw aborts the
//! whole lex with a [`DecodeError`] and no partial result.
use crate::error::DecodeError;
use crate::instruction::{decode_bytes, decode_spec, Instruction};
use crate::opcode::{opcodes_of_tokens, Opcode};
use crate::text::{chars_of_str, hex_digit_value, is_hex_digit, hex_digit_val, tokens_of};
use vstd::prelude::*;

verus! {

/// The bytes spelled by the hex digit pairs of `s[i..]`, or nothing if a
/// non-digit intrudes or one digit is left over.
pub open spec fn hex_bytes_from(s: Seq<char>, i: int) -> Option<Seq<u8>>
    decreases s.len() - i,
{
    if i < 0 || i >= s.len() {
        Some(Seq::empty())
    } else if i + 1 >= s.len() {
        None
    } else if is_hex_digit(s[i]) && is_hex_digit(s[i + 1]) {
        match hex_bytes_from(s, i + 2) {
            Some(rest) => Some(
                seq![(hex_digit_val(s[i]) * 16 + hex_digit_val(s[i + 1])) as u8] + rest,
            ),
            None => None,
        }
    } else {
        None
    }
}

/// What lexing a source text yields: instructions from the hex reading when
/// the text carries the `0x` prefix, else from its opcode tokens.
pub open spec fn lex_spec(s: Seq<char>) -> Result<Seq<Instruction>, DecodeError> {
    if s.len() >= 2 && s[0] == '0' && s[1] == 'x' {
        match hex_bytes_from(s, 2) {
            Some(bs) => decode_spec(bs),
            None => Err(DecodeError::BadHex),
        }
    } else {
        match opcodes_of_tokens(tokens_of(s)) {
            Ok(ops) => decode_spec(ops.map_values(|o: Opcode| o.0)),
            Err(e) => Err(e),
        }
    }
}

/// Decode the hex digit pairs of `chars[start..]`, exactly as
/// [`hex_bytes_from`] reads them.
fn hex_decode(chars: &Vec<char>, start: usize) -> (r: Option<Vec<u8>>)
    requires
        start <= chars@.len(),
    ensures
        (match (r, hex_bytes_from(chars@, start as int)) {
            (Some(v), Some(spec_v)) => v@ == spec_v,
            (None, None) => true,
            _ => false,
        }),
{
    let n = chars.len();
    let mut out: Vec<u8> = Vec::new();
    proof {
        if hex_bytes_from(chars@, start as int) is Some {
            assert(Seq::<u8>::empty() + hex_bytes_from(chars@, start as int)->Some_0
                =~= hex_bytes_from(chars@, start as int)->Some_0);
        }
    }
    let mut i: usize = start;
    while i < n
        invariant
            start <= i <= n,
            n == chars@.len(),
            (match hex_bytes_from(chars@, start as int) {
                Some(all) => hex_bytes_from(chars@, i as int) is Some && all == out@
                    + hex_bytes_from(chars@, i as int)->Some_0,
                None => hex_bytes_from(chars@, i as int) is None,
            }),
        decreases n - i,
    {
        if n - i < 2 {
            return None;
        }
        let ghost prev = out@;
        let hi = hex_digit_value(chars[i]);
        let lo = hex_digit_value(chars[i + 1]);
        match (hi, lo) {
            (Some(h), Some(l)) => {
                out.push(h * 16 + l);
                proof {
                    if hex_bytes_from(chars@, i as int) is Some {
                        assert(prev + hex_bytes_from(chars@, i as int)->Some_0 =~= out@
                            + hex_bytes_from(chars@, i as int + 2)->Some_0);
                    }
                }
                i += 2;
            },
            _ => {
                return None;
            },
        }
    }
    proof {
        if hex_bytes_from(chars@, start as int) is Some {
            assert(out@ + Seq::<u8>::empty() =~= out@);
        }
    }
    Some(out)
}

/// Lex a source text into instructions: the hex reading for a
/// `0x`-prefixed string, the token reading otherwise; all-or-nothing.
pub fn lex_bytecode(s: &str) -> (r: Result<Vec<Instruction>, DecodeError>)
    ensures
        (match (r, lex_spec(s@)) {
            (Ok(v), Ok(spec_v)) => v@ == spec_v,
            (Err(e), Err(spec_e)) => e == spec_e,
            _ => false,
        }),
{
    let chars = chars_of_str(s);
    if chars.len() >= 2 && chars[0] == '0' && chars[1] == 'x' {
        match hex_decode(&chars, 2) {
            Some(bytes) => decode_bytes(&bytes),
            None => Err(DecodeError::BadHex),
        }
    } else {
        match Opcode::parse_tokens(s) {
            Ok(ops) => {
                let mut bytes: Vec<u8> = Vec::new();
                let m = ops.len();
                let mut k: usize = 0;
                while k < m
                    invariant
                        k <= m,
                        m == ops@.len(),
                        bytes@ =~= ops@.take(k as int).map_values(|o: Opcode| o.0),
                    decreases m - k,
                {
                    bytes.push(ops[k].0);
                    proof {
                        assert(ops@.take(k as int + 1).map_values(|o: Opcode| o.0) =~= ops@.take(
                            k as int,
                        ).map_values(|o: Opcode| o.0) + seq![ops@[k as int].0]);
                    }
                    k += 1;
                }
                proof {
                    assert(ops@.take(m as int) =~= ops@);
                    assert(bytes@ =~= ops@.map_values(|o: Opcode| o.0));
                }
                decode_bytes(&bytes)
            },
            Err(e) => Err(e),
        }
    }
}

} // verus!
