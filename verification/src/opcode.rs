//! Opcodes: single bytes, some with a mnemonic.
//!
//! An opcode's identity is purely its byte value; a byte with no mnemonic is
//! still an opcode.  A token names an opcode either as one byte of hex
//! digits (with an optional `0x` prefix) or as an uppercase mnemonic; the
//! numeric reading is tried first, then the mnemonic, as an explicit policy.
use crate::error::DecodeError;
use crate::text::{chars_of_str, parse_hex_u8, parse_hex_u8_spec, range_eq_str, tokenize, tokens_of};
use vstd::prelude::*;

verus! {

/// One bytecode opcode, identified by its byte value.
#[derive(Clone, Copy, PartialEq, Eq, Structural, Debug, Hash)]
pub struct Opcode(pub u8);

/// The token with a single leading `0x` removed, as the numeric reading of
/// a token sees it.
pub open spec fn strip_hex_prefix(t: Seq<char>) -> Seq<char> {
    if t.len() >= 2 && t[0] == '0' && t[1] == 'x' {
        t.skip(2)
    } else {
        t
    }
}

/// The byte value of a known uppercase mnemonic.
pub open spec fn mnemonic_byte(u: Seq<char>) -> Option<u8> {
    if u == "ADD"@ {
        Some(0x01u8)
    } else if u == "MUL"@ {
        Some(0x02u8)
    } else if u == "SUB"@ {
        Some(0x03u8)
    } else if u == "ISZERO"@ {
        Some(0x15u8)
    } else if u == "POP"@ {
        Some(0x50u8)
    } else if u == "MSTORE"@ {
        Some(0x52u8)
    } else if u == "SSTORE"@ {
        Some(0x55u8)
    } else if u == "PUSH1"@ {
        Some(0x60u8)
    } else if u == "PUSH2"@ {
        Some(0x61u8)
    } else if u == "DUP1"@ {
        Some(0x80u8)
    } else if u == "DUP2"@ {
        Some(0x81u8)
    } else if u == "SWAP1"@ {
        Some(0x90u8)
    } else {
        None
    }
}

/// The byte a token names: its hex reading if it has one, else its mnemonic
/// reading, else nothing.
pub open spec fn token_to_byte(t: Seq<char>) -> Option<u8> {
    let u = strip_hex_prefix(t);
    match parse_hex_u8_spec(u) {
        Some(b) => Some(b),
        None => mnemonic_byte(u),
    }
}

/// The opcodes named by a list of tokens; any unreadable token fails the
/// whole list.
pub open spec fn opcodes_of_tokens(ts: Seq<Seq<char>>) -> Result<Seq<Opcode>, DecodeError>
    decreases ts.len(),
{
    if ts.len() == 0 {
        Ok(Seq::empty())
    } else {
        match token_to_byte(ts[0]) {
            Some(b) => match opcodes_of_tokens(ts.skip(1)) {
                Ok(rest) => Ok(seq![Opcode(b)] + rest),
                Err(e) => Err(e),
            },
            None => Err(DecodeError::UnknownToken),
        }
    }
}

/// The opcodes named by the whitespace-separated tokens of `s`.
pub open spec fn parse_opcodes_spec(s: Seq<char>) -> Result<Seq<Opcode>, DecodeError> {
    opcodes_of_tokens(tokens_of(s))
}

/// The byte named by `chars[start..end]`, exactly as [`token_to_byte`]
/// reads that token.
pub(crate) fn token_byte(chars: &Vec<char>, start: usize, end: usize) -> (r: Option<u8>)
    requires
        start <= end <= chars@.len(),
    ensures
        r == token_to_byte(chars@.subrange(start as int, end as int)),
{
    let ghost t = chars@.subrange(start as int, end as int);
    let u_start: usize = if end - start >= 2 && chars[start] == '0' && chars[start + 1] == 'x' {
        start + 2
    } else {
        start
    };
    proof {
        assert(chars@.subrange(u_start as int, end as int) =~= strip_hex_prefix(t));
    }
    let hex = parse_hex_u8(chars, u_start, end);
    match hex {
        Some(b) => Some(b),
        None => {
            proof {
                reveal_strlit("ADD");
                reveal_strlit("MUL");
                reveal_strlit("SUB");
                reveal_strlit("ISZERO");
                reveal_strlit("POP");
                reveal_strlit("MSTORE");
                reveal_strlit("SSTORE");
                reveal_strlit("PUSH1");
                reveal_strlit("PUSH2");
                reveal_strlit("DUP1");
                reveal_strlit("DUP2");
                reveal_strlit("SWAP1");
            }
            if range_eq_str(chars, u_start, end, "ADD") {
                Some(0x01)
            } else if range_eq_str(chars, u_start, end, "MUL") {
                Some(0x02)
            } else if range_eq_str(chars, u_start, end, "SUB") {
                Some(0x03)
            } else if range_eq_str(chars, u_start, end, "ISZERO") {
                Some(0x15)
            } else if range_eq_str(chars, u_start, end, "POP") {
                Some(0x50)
            } else if range_eq_str(chars, u_start, end, "MSTORE") {
                Some(0x52)
            } else if range_eq_str(chars, u_start, end, "SSTORE") {
                Some(0x55)
            } else if range_eq_str(chars, u_start, end, "PUSH1") {
                Some(0x60)
            } else if range_eq_str(chars, u_start, end, "PUSH2") {
                Some(0x61)
            } else if range_eq_str(chars, u_start, end, "DUP1") {
                Some(0x80)
            } else if range_eq_str(chars, u_start, end, "DUP2") {
                Some(0x81)
            } else if range_eq_str(chars, u_start, end, "SWAP1") {
                Some(0x90)
            } else {
                None
            }
        },
    }
}

impl Opcode {
    /// Read one token as an opcode: the hex reading first, then the
    /// mnemonic reading; any other token is an [`DecodeError::UnknownToken`].
    pub fn parse_token(s: &str) -> (r: Result<Opcode, DecodeError>)
        ensures
            r == (match token_to_byte(s@) {
                Some(b) => Ok::<Opcode, DecodeError>(Opcode(b)),
                None => Err::<Opcode, DecodeError>(DecodeError::UnknownToken),
            }),
    {
        let chars = chars_of_str(s);
        proof {
            assert(chars@.subrange(0, chars@.len() as int) =~= s@);
        }
        match token_byte(&chars, 0, chars.len()) {
            Some(b) => Ok(Opcode(b)),
            None => Err(DecodeError::UnknownToken),
        }
    }

    /// Read a whole whitespace-separated opcode listing, in order.  Any
    /// unreadable token aborts the whole parse.
    pub fn parse_tokens(s: &str) -> (r: Result<Vec<Opcode>, DecodeError>)
        ensures
            (match (r, parse_opcodes_spec(s@)) {
                (Ok(v), Ok(spec_v)) => v@ == spec_v,
                (Err(e), Err(spec_e)) => e == spec_e,
                _ => false,
            }),
    {
        let chars = chars_of_str(s);
        let toks = tokenize(&chars);
        let mut out: Vec<Opcode> = Vec::new();
        let n = toks.len();
        let ghost ts = tokens_of(chars@);
        proof {
            assert(ts.skip(0) =~= ts);
            if opcodes_of_tokens(ts) is Ok {
                assert(Seq::<Opcode>::empty() + opcodes_of_tokens(ts)->Ok_0 =~= opcodes_of_tokens(
                    ts,
                )->Ok_0);
            }
        }
        let mut i: usize = 0;
        while i < n
            invariant
                i <= n,
                n == ts.len(),
                chars@ == s@,
                ts == tokens_of(chars@),
                toks@.len() == n,
                forall|k: int|
                    0 <= k < n ==> (#[trigger] toks@[k]).0 <= toks@[k].1 <= chars@.len()
                        && chars@.subrange(toks@[k].0 as int, toks@[k].1 as int) == ts[k],
                (match opcodes_of_tokens(ts) {
                    Ok(all) => all =~= out@ + (match opcodes_of_tokens(ts.skip(i as int)) {
                        Ok(rest) => rest,
                        Err(_) => Seq::empty(),
                    }) && opcodes_of_tokens(ts.skip(i as int)) is Ok,
                    Err(e) => opcodes_of_tokens(ts.skip(i as int)) == Err::<Seq<Opcode>,
                    DecodeError>(e),
                }),
            decreases n - i,
        {
            let (start, end) = toks[i];
            proof {
                assert(ts.skip(i as int)[0] == ts[i as int]);
                assert(ts.skip(i as int).skip(1) =~= ts.skip(i as int + 1));
            }
            match token_byte(&chars, start, end) {
                Some(b) => {
                    out.push(Opcode(b));
                },
                None => {
                    proof {
                        assert(token_to_byte(ts[i as int]) is None);
                        assert(ts.skip(i as int).len() > 0);
                        assert(opcodes_of_tokens(ts.skip(i as int)) == Err::<
                            Seq<Opcode>,
                            DecodeError,
                        >(DecodeError::UnknownToken));
                    }
                    return Err(DecodeError::UnknownToken);
                },
            }
            i += 1;
        }
        proof {
            assert(ts.skip(n as int) =~= Seq::<Seq<char>>::empty());
            if opcodes_of_tokens(ts) is Ok {
                assert(out@ + Seq::<Opcode>::empty() =~= out@);
            }
        }
        Ok(out)
    }
}

impl core::str::FromStr for Opcode {
    type Err = DecodeError;

    /// `"01".parse()`, `"0x01".parse()` and `"ADD".parse()` all name the
    /// same opcode; see [`Opcode::parse_token`].
    fn from_str(s: &str) -> Result<Opcode, DecodeError> {
        Opcode::parse_token(s)
    }
}

} // verus!
