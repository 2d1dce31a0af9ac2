//! Lexing and execution: the scenarios the machine is specified by.
use tinyevm::{
    eval_opcode, lex_bytecode, DecodeError, EvalError, Instruction, Stack, Word,
};

#[test]
fn test_lex_hex_bytecode() {
    // Bytes 60 01 60 01 01: PUSH1 consumes its operand, 01 then decodes as
    // ADD; executing leaves Word(2) on top.
    let instrs = lex_bytecode("0x6001600101").unwrap();
    assert_eq!(
        instrs,
        vec![
            Instruction::Push1(0x01),
            Instruction::Push1(0x01),
            Instruction::Add
        ]
    );
    let (stack, _storage, _memory) = eval_opcode(instrs).unwrap();
    let (top, rest) = stack.pop();
    assert_eq!(top, Some(Word::from_u64(2)));
    assert_eq!(rest, Stack::empty());
}

#[test]
fn test_push_push_add() {
    // PUSH1 0x02, PUSH1 0x01, ADD: a single-element stack equal to Word(3);
    // popping leaves the empty stack.
    let instrs = lex_bytecode("0x6002600101").unwrap();
    let (stack, _storage, _memory) = eval_opcode(instrs).unwrap();
    assert_eq!(stack.len(), 1);
    let (top, rest) = stack.pop();
    assert_eq!(top, Some(Word::from_u64(3)));
    assert_eq!(rest, Stack::empty());
}

#[test]
fn test_pop_on_empty_underflows() {
    let r = eval_opcode(vec![Instruction::Pop]);
    assert_eq!(r.unwrap_err(), EvalError::StackUnderflow);
}

#[test]
fn test_dup1_then_pop_preserves_stack() {
    let instrs = vec![Instruction::Push1(5), Instruction::Dup1, Instruction::Pop];
    let (stack, _storage, _memory) = eval_opcode(instrs).unwrap();
    assert_eq!(stack.len(), 1);
    let (top, rest) = stack.pop();
    assert_eq!(top, Some(Word::from_u64(5)));
    assert_eq!(rest, Stack::empty());
}

#[test]
fn test_dup2_and_swap1() {
    let instrs = vec![
        Instruction::Push1(7),
        Instruction::Push1(8),
        Instruction::Dup2,
    ];
    let (stack, _storage, _memory) = eval_opcode(instrs).unwrap();
    assert_eq!(stack.len(), 3);
    let (top, _) = stack.pop();
    assert_eq!(top, Some(Word::from_u64(7)));

    let instrs = vec![
        Instruction::Push1(1),
        Instruction::Push1(2),
        Instruction::Swap1,
    ];
    let (stack, _storage, _memory) = eval_opcode(instrs).unwrap();
    let (top, rest) = stack.pop();
    assert_eq!(top, Some(Word::from_u64(1)));
    let (second, _) = rest.pop();
    assert_eq!(second, Some(Word::from_u64(2)));
}

#[test]
fn test_mstore_writes_big_endian() {
    // MSTORE at offset 0 with value Word(1): memory bytes [0..32) hold the
    // big-endian 32-byte representation of 1.
    let instrs = vec![
        Instruction::Push1(1),
        Instruction::Push1(0),
        Instruction::MStore,
    ];
    let (_stack, _storage, memory) = eval_opcode(instrs).unwrap();
    assert_eq!(memory.size(), 32);
    for i in 0..31 {
        assert_eq!(memory.read_byte(i), 0);
    }
    assert_eq!(memory.read_byte(31), 1);
    assert_eq!(memory.load_word(0), Word::from_u64(1));
}

#[test]
fn test_mstore_grows_aligned() {
    // Storing at offset 1 needs 33 bytes, rounded up to the next 32.
    let instrs = vec![
        Instruction::Push1(0xab),
        Instruction::Push1(1),
        Instruction::MStore,
    ];
    let (_stack, _storage, memory) = eval_opcode(instrs).unwrap();
    assert_eq!(memory.size(), 64);
    assert_eq!(memory.read_byte(0), 0);
    assert_eq!(memory.read_byte(32), 0xab);
    for i in 33..64 {
        assert_eq!(memory.read_byte(i), 0);
    }
}

#[test]
fn test_mstore_offset_overflow_fails() {
    // 0 - 1 wraps to 2^256 - 1; using it as a store offset cannot be
    // represented and must be reported, not truncated.
    let instrs = vec![
        Instruction::Push1(0x2a),
        Instruction::Push1(0),
        Instruction::Push1(1),
        Instruction::Sub,
        Instruction::MStore,
    ];
    assert_eq!(eval_opcode(instrs).unwrap_err(), EvalError::MemoryAccessError);
}

#[test]
fn test_sstore_and_default_zero() {
    // SSTORE key Word(7), value Word(9): Storage[7] == 9 and an unwritten
    // key reads as the default Word(0).
    let instrs = vec![
        Instruction::Push1(9),
        Instruction::Push1(7),
        Instruction::SStore,
    ];
    let (_stack, storage, _memory) = eval_opcode(instrs).unwrap();
    assert_eq!(storage.get(Word::from_u64(7)), Word::from_u64(9));
    assert_eq!(storage.get(Word::from_u64(8)), Word::from_u64(0));
}

#[test]
fn test_sstore_overwrites() {
    let instrs = vec![
        Instruction::Push1(9),
        Instruction::Push1(7),
        Instruction::SStore,
        Instruction::Push1(11),
        Instruction::Push1(7),
        Instruction::SStore,
    ];
    let (_stack, storage, _memory) = eval_opcode(instrs).unwrap();
    assert_eq!(storage.get(Word::from_u64(7)), Word::from_u64(11));
}

#[test]
fn test_lex_odd_hex_fails() {
    assert_eq!(lex_bytecode("0x601").unwrap_err(), DecodeError::BadHex);
}

#[test]
fn test_lex_bad_hex_digit_fails() {
    assert_eq!(lex_bytecode("0x60zz").unwrap_err(), DecodeError::BadHex);
}

#[test]
fn test_lex_truncated_push2_fails() {
    // PUSH2 with only one trailing byte available.
    assert_eq!(
        lex_bytecode("0x6101").unwrap_err(),
        DecodeError::TruncatedPush
    );
}

#[test]
fn test_lex_truncated_push1_fails() {
    assert_eq!(lex_bytecode("0x60").unwrap_err(), DecodeError::TruncatedPush);
}

#[test]
fn test_lex_mnemonic_tokens() {
    // The token reading: mnemonics and hex bytes mix, PUSH operands are
    // consumed as literals even when they spell a known opcode byte.
    let instrs = lex_bytecode("PUSH1 01 PUSH1 01 ADD").unwrap();
    assert_eq!(
        instrs,
        vec![
            Instruction::Push1(0x01),
            Instruction::Push1(0x01),
            Instruction::Add
        ]
    );
    let instrs = lex_bytecode("PUSH1 50 POP").unwrap();
    assert_eq!(
        instrs,
        vec![Instruction::Push1(0x50), Instruction::Pop]
    );
}

#[test]
fn test_lex_unknown_token_fails() {
    assert_eq!(lex_bytecode("BOGUS").unwrap_err(), DecodeError::UnknownToken);
}

#[test]
fn test_unknown_opcode_lexes_but_does_not_run() {
    // An unknown byte decodes to a raw-value instruction, and only fails if
    // it reaches the interpreter.
    let instrs = lex_bytecode("0xfe").unwrap();
    assert_eq!(instrs, vec![Instruction::Unknown(0xfe)]);
    assert_eq!(
        eval_opcode(instrs).unwrap_err(),
        EvalError::UnknownOpcode(0xfe)
    );
}

#[test]
fn test_add_underflow_with_one_operand() {
    let instrs = vec![Instruction::Push1(5), Instruction::Add];
    assert_eq!(eval_opcode(instrs).unwrap_err(), EvalError::StackUnderflow);
}

#[test]
fn test_sub_and_mul_and_iszero_programs() {
    // SUB takes second-from-top minus top: push 1, push 3: 3 - 1... the
    // operand order is pop a (top), pop b, push b - a.
    let instrs = vec![
        Instruction::Push1(1),
        Instruction::Push1(3),
        Instruction::Sub,
    ];
    let (stack, _s, _m) = eval_opcode(instrs).unwrap();
    let (top, _) = stack.pop();
    // Stack was [1, 3]: a = 3, b = 1, so b - a wraps.
    assert_eq!(
        top,
        Some(Word::from_u64(0).sub(Word::from_u64(2)))
    );

    let instrs = vec![
        Instruction::Push1(6),
        Instruction::Push1(7),
        Instruction::Mul,
    ];
    let (stack, _s, _m) = eval_opcode(instrs).unwrap();
    let (top, _) = stack.pop();
    assert_eq!(top, Some(Word::from_u64(42)));

    let instrs = vec![Instruction::Push1(0), Instruction::IsZero];
    let (stack, _s, _m) = eval_opcode(instrs).unwrap();
    let (top, _) = stack.pop();
    assert_eq!(top, Some(Word::from_u64(1)));
}

#[test]
fn test_push2_pushes_big_endian_pair() {
    let instrs = lex_bytecode("0x610102").unwrap();
    assert_eq!(instrs, vec![Instruction::Push2(0x01, 0x02)]);
    let (stack, _s, _m) = eval_opcode(instrs).unwrap();
    let (top, _) = stack.pop();
    assert_eq!(top, Some(Word::from_u64(0x0102)));
}

#[test]
fn test_fresh_empty_stacks_compare_equal() {
    assert_eq!(Stack::empty(), Stack::empty());
    let (_, rest) = Stack::empty().push(Word::from_u64(1)).pop();
    assert_eq!(rest, Stack::empty());
}

#[test]
fn test_instruction_byte_values() {
    assert_eq!(Instruction::Add.byte(), 0x01);
    assert_eq!(Instruction::MStore.byte(), 0x52);
    assert_eq!(Instruction::Push1(0xab).byte(), 0x60);
    assert_eq!(Instruction::Push2(0x01, 0x02).byte(), 0x61);
    assert_eq!(Instruction::Unknown(0xfe).byte(), 0xfe);
}
