//! Token parsing: every opcode is reachable as a bare hex byte, a
//! `0x`-prefixed hex byte, and (where one exists) an uppercase mnemonic.
use tinyevm::{DecodeError, Opcode};

#[test]
fn test_from_str() {
    let mut add = "0x01".parse::<Opcode>().unwrap();
    assert_eq!(add, Opcode(0x01));
    add = "01".parse::<Opcode>().unwrap();
    assert_eq!(add, Opcode(0x01));
    add = "ADD".parse::<Opcode>().unwrap();
    assert_eq!(add, Opcode(0x01));

    let mut mul = "0x02".parse::<Opcode>().unwrap();
    assert_eq!(mul, Opcode(0x02));
    mul = "02".parse::<Opcode>().unwrap();
    assert_eq!(mul, Opcode(0x02));
    mul = "MUL".parse::<Opcode>().unwrap();
    assert_eq!(mul, Opcode(0x02));

    let mut sub = "0x03".parse::<Opcode>().unwrap();
    assert_eq!(sub, Opcode(0x03));
    sub = "03".parse::<Opcode>().unwrap();
    assert_eq!(sub, Opcode(0x03));
    sub = "SUB".parse::<Opcode>().unwrap();
    assert_eq!(sub, Opcode(0x03));

    let mut iszero = "0x15".parse::<Opcode>().unwrap();
    assert_eq!(iszero, Opcode(0x15));
    iszero = "15".parse::<Opcode>().unwrap();
    assert_eq!(iszero, Opcode(0x15));
    iszero = "ISZERO".parse::<Opcode>().unwrap();
    assert_eq!(iszero, Opcode(0x15));

    let mut pop = "0x50".parse::<Opcode>().unwrap();
    assert_eq!(pop, Opcode(0x50));
    pop = "50".parse::<Opcode>().unwrap();
    assert_eq!(pop, Opcode(0x50));
    pop = "POP".parse::<Opcode>().unwrap();
    assert_eq!(pop, Opcode(0x50));

    let mut sstore = "0x55".parse::<Opcode>().unwrap();
    assert_eq!(sstore, Opcode(0x55));
    sstore = "55".parse::<Opcode>().unwrap();
    assert_eq!(sstore, Opcode(0x55));
    sstore = "SSTORE".parse::<Opcode>().unwrap();
    assert_eq!(sstore, Opcode(0x55));

    let mut push1 = "0x60".parse::<Opcode>().unwrap();
    assert_eq!(push1, Opcode(0x60));
    push1 = "60".parse::<Opcode>().unwrap();
    assert_eq!(push1, Opcode(0x60));
    push1 = "PUSH1".parse::<Opcode>().unwrap();
    assert_eq!(push1, Opcode(0x60));

    let mut dup1 = "0x80".parse::<Opcode>().unwrap();
    assert_eq!(dup1, Opcode(0x80));
    dup1 = "80".parse::<Opcode>().unwrap();
    assert_eq!(dup1, Opcode(0x80));
    dup1 = "DUP1".parse::<Opcode>().unwrap();
    assert_eq!(dup1, Opcode(0x80));

    let mut dup2 = "0x81".parse::<Opcode>().unwrap();
    assert_eq!(dup2, Opcode(0x81));
    dup2 = "81".parse::<Opcode>().unwrap();
    assert_eq!(dup2, Opcode(0x81));
    dup2 = "DUP2".parse::<Opcode>().unwrap();
    assert_eq!(dup2, Opcode(0x81));

    let mut swap1 = "0x90".parse::<Opcode>().unwrap();
    assert_eq!(swap1, Opcode(0x90));
    swap1 = "90".parse::<Opcode>().unwrap();
    assert_eq!(swap1, Opcode(0x90));
    swap1 = "SWAP1".parse::<Opcode>().unwrap();
    assert_eq!(swap1, Opcode(0x90));
}

#[test]
fn test_parse_token_mstore_and_raw() {
    assert_eq!("MSTORE".parse::<Opcode>().unwrap(), Opcode(0x52));
    assert_eq!("0x52".parse::<Opcode>().unwrap(), Opcode(0x52));
    assert_eq!("PUSH2".parse::<Opcode>().unwrap(), Opcode(0x61));
    // An unknown byte value is still an opcode, identified by its value.
    assert_eq!("fe".parse::<Opcode>().unwrap(), Opcode(0xfe));
    assert_eq!("0xFE".parse::<Opcode>().unwrap(), Opcode(0xfe));
}

#[test]
fn test_parse_token_rejects_junk() {
    assert_eq!("NOTHING".parse::<Opcode>(), Err(DecodeError::UnknownToken));
    assert_eq!("".parse::<Opcode>(), Err(DecodeError::UnknownToken));
    assert_eq!("123".parse::<Opcode>(), Err(DecodeError::UnknownToken));
    assert_eq!("0xgg".parse::<Opcode>(), Err(DecodeError::UnknownToken));
}

#[test]
fn test_parse_tokens_listing() {
    // The same listing `Opcode::from_file` reads, given as text.
    let ops = Opcode::parse_tokens("PUSH1 80 PUSH1 40 ISZERO").unwrap();
    assert_eq!(ops.len(), 5);
    assert_eq!(ops[0], Opcode(0x60));
    assert_eq!(ops[1], Opcode(0x80));
    assert_eq!(ops[2], Opcode(0x60));
    assert_eq!(ops[3], Opcode(0x40));
    assert_eq!(ops[4], Opcode(0x15));
}

#[test]
fn test_parse_tokens_bad_token_aborts() {
    assert_eq!(
        Opcode::parse_tokens("PUSH1 80 BOGUS"),
        Err(DecodeError::UnknownToken)
    );
}
