//! The interpreter: single-pass, strictly sequential dispatch of an
//! instruction sequence against a fresh stack, memory and storage.
//!
//! Execution runs to the end of the sequence or aborts atomically on the
//! first fatal condition; on failure only the error is returned, never a
//! half-mutated state.  [`eval_spec`] is the mathematical account of a run
//! and [`eval_opcode`] is proven to return exactly what it says.
use crate::bytes::be_bytes32;
use crate::error::EvalError;
use crate::instruction::Instruction;
use crate::memory::{mem_after_store, round_up_32, Memory};
use crate::stack::Stack;
use crate::storage::Storage;
use crate::word::{lemma_word_of, p256, word_of, Word};
use vstd::prelude::*;

verus! {

/// The mathematical state of the machine: the stack (last element on top),
/// the memory bytes, and the storage map.
#[verifier::ext_equal]
pub ghost struct State {
    /// The operand stack, bottom first.
    pub stack: Seq<Word>,
    /// All allocated memory bytes, addressed from zero.
    pub memory: Seq<u8>,
    /// Every key ever written, with its latest value.
    pub storage: Map<Word, Word>,
}

/// The state a run starts from: empty stack, zero-sized memory, nothing in
/// storage.
pub open spec fn init_state() -> State {
    State { stack: Seq::empty(), memory: Seq::empty(), storage: Map::empty() }
}

/// What one instruction does to the machine state, or the fatal error it
/// raises.
pub open spec fn step(st: State, instr: Instruction) -> Result<State, EvalError> {
    match instr {
        Instruction::Push1(b) => Ok(State { stack: st.stack.push(word_of(b as nat)), ..st }),
        Instruction::Push2(b1, b2) => Ok(
            State { stack: st.stack.push(word_of(b1 as nat * 256 + b2 as nat)), ..st },
        ),
        Instruction::Add => {
            if st.stack.len() < 2 {
                Err(EvalError::StackUnderflow)
            } else {
                let a = st.stack.last();
                let b = st.stack[st.stack.len() - 2];
                Ok(
                    State {
                        stack: st.stack.drop_last().drop_last().push(
                            word_of((a.as_nat() + b.as_nat()) % p256()),
                        ),
                        ..st
                    },
                )
            }
        },
        Instruction::Mul => {
            if st.stack.len() < 2 {
                Err(EvalError::StackUnderflow)
            } else {
                let a = st.stack.last();
                let b = st.stack[st.stack.len() - 2];
                Ok(
                    State {
                        stack: st.stack.drop_last().drop_last().push(
                            word_of((a.as_nat() * b.as_nat()) % p256()),
                        ),
                        ..st
                    },
                )
            }
        },
        Instruction::Sub => {
            if st.stack.len() < 2 {
                Err(EvalError::StackUnderflow)
            } else {
                let a = st.stack.last();
                let b = st.stack[st.stack.len() - 2];
                Ok(
                    State {
                        stack: st.stack.drop_last().drop_last().push(
                            word_of(((b.as_nat() + p256() - a.as_nat()) % (p256() as int)) as nat),
                        ),
                        ..st
                    },
                )
            }
        },
        Instruction::IsZero => {
            if st.stack.len() < 1 {
                Err(EvalError::StackUnderflow)
            } else {
                let a = st.stack.last();
                Ok(
                    State {
                        stack: st.stack.drop_last().push(
                            word_of(
                                if a.as_nat() == 0 {
                                    1nat
                                } else {
                                    0nat
                                },
                            ),
                        ),
                        ..st
                    },
                )
            }
        },
        Instruction::Pop => {
            if st.stack.len() < 1 {
                Err(EvalError::StackUnderflow)
            } else {
                Ok(State { stack: st.stack.drop_last(), ..st })
            }
        },
        Instruction::Dup1 => {
            if st.stack.len() < 1 {
                Err(EvalError::StackUnderflow)
            } else {
                Ok(State { stack: st.stack.push(st.stack.last()), ..st })
            }
        },
        Instruction::Dup2 => {
            if st.stack.len() < 2 {
                Err(EvalError::StackUnderflow)
            } else {
                Ok(State { stack: st.stack.push(st.stack[st.stack.len() - 2]), ..st })
            }
        },
        Instruction::Swap1 => {
            if st.stack.len() < 2 {
                Err(EvalError::StackUnderflow)
            } else {
                let a = st.stack.last();
                let b = st.stack[st.stack.len() - 2];
                Ok(State { stack: st.stack.drop_last().drop_last().push(a).push(b), ..st })
            }
        },
        Instruction::MStore => {
            if st.stack.len() < 2 {
                Err(EvalError::StackUnderflow)
            } else {
                let off = st.stack.last();
                let val = st.stack[st.stack.len() - 2];
                if round_up_32(off.as_nat() + 32) > usize::MAX {
                    Err(EvalError::MemoryAccessError)
                } else {
                    Ok(
                        State {
                            stack: st.stack.drop_last().drop_last(),
                            memory: mem_after_store(
                                st.memory,
                                off.as_nat(),
                                be_bytes32(val.as_nat()),
                            ),
                            ..st
                        },
                    )
                }
            }
        },
        Instruction::SStore => {
            if st.stack.len() < 2 {
                Err(EvalError::StackUnderflow)
            } else {
                let key = st.stack.last();
                let val = st.stack[st.stack.len() - 2];
                Ok(
                    State {
                        stack: st.stack.drop_last().drop_last(),
                        storage: st.storage.insert(key, val),
                        ..st
                    },
                )
            }
        },
        Instruction::Unknown(b) => Err(EvalError::UnknownOpcode(b)),
    }
}

/// Memory growth is monotonic: no instruction ever shrinks the memory
/// within an execution.
pub proof fn lemma_step_memory_monotonic(st: State, instr: Instruction)
    ensures
        (match step(st, instr) {
            Ok(st2) => st2.memory.len() >= st.memory.len(),
            Err(_) => true,
        }),
{
}

/// What running `instrs[i..]` from `st` yields: the final state, or the
/// first fatal error.
pub open spec fn eval_from(st: State, instrs: Seq<Instruction>, i: int) -> Result<State, EvalError>
    decreases instrs.len() - i,
{
    if i < 0 || i >= instrs.len() {
        Ok(st)
    } else {
        match step(st, instrs[i]) {
            Ok(st2) => eval_from(st2, instrs, i + 1),
            Err(e) => Err(e),
        }
    }
}

/// What running a whole instruction sequence from the initial state yields.
pub open spec fn eval_spec(instrs: Seq<Instruction>) -> Result<State, EvalError> {
    eval_from(init_state(), instrs, 0)
}

/// Execute an instruction sequence against a fresh stack, memory and
/// storage: exactly the run [`eval_spec`] describes, the final three
/// components on success, the first fatal error otherwise.
pub fn eval_opcode(instrs: Vec<Instruction>) -> (r: Result<(Stack, Storage, Memory), EvalError>)
    ensures
        (match (r, eval_spec(instrs@)) {
            (Ok(fin), Ok(st)) => fin.0@ == st.stack && fin.1@ == st.storage && fin.2@ == st.memory,
            (Err(e), Err(spec_e)) => e == spec_e,
            _ => false,
        }),
{
    let mut stack = Stack::empty();
    let mut storage = Storage::new();
    let mut memory = Memory::new();
    let n = instrs.len();
    proof {
        assert(State { stack: stack@, memory: memory@, storage: storage@ } =~= init_state());
    }
    let mut i: usize = 0;
    while i < n
        invariant
            i <= n,
            n == instrs@.len(),
            eval_spec(instrs@) == eval_from(
                State { stack: stack@, memory: memory@, storage: storage@ },
                instrs@,
                i as int,
            ),
        decreases n - i,
    {
        let ghost pre = State { stack: stack@, memory: memory@, storage: storage@ };
        let instr = instrs[i];
        match instr {
            Instruction::Push1(b) => {
                let w = Word::from_u64(b as u64);
                proof {
                    lemma_word_of(w, b as nat);
                }
                stack = stack.push(w);
            },
            Instruction::Push2(b1, b2) => {
                let w = Word::from_u64(b1 as u64 * 256 + b2 as u64);
                proof {
                    lemma_word_of(w, b1 as nat * 256 + b2 as nat);
                }
                stack = stack.push(w);
            },
            Instruction::Add => {
                let (a_opt, s1) = stack.pop();
                match a_opt {
                    None => {
                        return Err(EvalError::StackUnderflow);
                    },
                    Some(a) => {
                        let (b_opt, s2) = s1.pop();
                        match b_opt {
                            None => {
                                return Err(EvalError::StackUnderflow);
                            },
                            Some(b) => {
                                let w = a.add(b);
                                proof {
                                    lemma_word_of(w, (a.as_nat() + b.as_nat()) % p256());
                                }
                                stack = s2.push(w);
                            },
                        }
                    },
                }
            },
            Instruction::Mul => {
                let (a_opt, s1) = stack.pop();
                match a_opt {
                    None => {
                        return Err(EvalError::StackUnderflow);
                    },
                    Some(a) => {
                        let (b_opt, s2) = s1.pop();
                        match b_opt {
                            None => {
                                return Err(EvalError::StackUnderflow);
                            },
                            Some(b) => {
                                let w = a.mul(b);
                                proof {
                                    lemma_word_of(w, (a.as_nat() * b.as_nat()) % p256());
                                }
                                stack = s2.push(w);
                            },
                        }
                    },
                }
            },
            Instruction::Sub => {
                let (a_opt, s1) = stack.pop();
                match a_opt {
                    None => {
                        return Err(EvalError::StackUnderflow);
                    },
                    Some(a) => {
                        let (b_opt, s2) = s1.pop();
                        match b_opt {
                            None => {
                                return Err(EvalError::StackUnderflow);
                            },
                            Some(b) => {
                                let w = b.sub(a);
                                proof {
                                    lemma_word_of(
                                        w,
                                        ((b.as_nat() + p256() - a.as_nat()) % (
                                        p256() as int)) as nat,
                                    );
                                }
                                stack = s2.push(w);
                            },
                        }
                    },
                }
            },
            Instruction::IsZero => {
                let (a_opt, s1) = stack.pop();
                match a_opt {
                    None => {
                        return Err(EvalError::StackUnderflow);
                    },
                    Some(a) => {
                        let w = a.iszero();
                        proof {
                            lemma_word_of(
                                w,
                                if a.as_nat() == 0 {
                                    1nat
                                } else {
                                    0nat
                                },
                            );
                        }
                        stack = s1.push(w);
                    },
                }
            },
            Instruction::Pop => {
                let (a_opt, s1) = stack.pop();
                match a_opt {
                    None => {
                        return Err(EvalError::StackUnderflow);
                    },
                    Some(_) => {
                        stack = s1;
                    },
                }
            },
            Instruction::Dup1 => {
                if stack.len() == 0 {
                    return Err(EvalError::StackUnderflow);
                }
                let top = stack.get(stack.len() - 1);
                proof {
                    assert(top == stack@.last());
                }
                stack = stack.push(top);
            },
            Instruction::Dup2 => {
                if stack.len() < 2 {
                    return Err(EvalError::StackUnderflow);
                }
                let second = stack.get(stack.len() - 2);
                stack = stack.push(second);
            },
            Instruction::Swap1 => {
                let (a_opt, s1) = stack.pop();
                match a_opt {
                    None => {
                        return Err(EvalError::StackUnderflow);
                    },
                    Some(a) => {
                        let (b_opt, s2) = s1.pop();
                        match b_opt {
                            None => {
                                return Err(EvalError::StackUnderflow);
                            },
                            Some(b) => {
                                stack = s2.push(a).push(b);
                            },
                        }
                    },
                }
            },
            Instruction::MStore => {
                let (off_opt, s1) = stack.pop();
                match off_opt {
                    None => {
                        return Err(EvalError::StackUnderflow);
                    },
                    Some(off) => {
                        let (val_opt, s2) = s1.pop();
                        match val_opt {
                            None => {
                                return Err(EvalError::StackUnderflow);
                            },
                            Some(val) => {
                                proof {
                                    assert(usize::MAX == 0xffffffff || usize::MAX
                                        == 0xffffffffffffffff);
                                    vstd::arithmetic::div_mod::lemma_fundamental_div_mod(
                                        off.as_nat() as int + 32 + 31,
                                        32,
                                    );
                                }
                                if off.limb1 != 0 || off.limb2 != 0 || off.limb3 != 0 {
                                    return Err(EvalError::MemoryAccessError);
                                }
                                if off.limb0 > usize::MAX as u64 - 63 {
                                    return Err(EvalError::MemoryAccessError);
                                }
                                let offset: usize = off.limb0 as usize;
                                stack = s2;
                                memory.store_word(offset, &val);
                            },
                        }
                    },
                }
            },
            Instruction::SStore => {
                let (key_opt, s1) = stack.pop();
                match key_opt {
                    None => {
                        return Err(EvalError::StackUnderflow);
                    },
                    Some(key) => {
                        let (val_opt, s2) = s1.pop();
                        match val_opt {
                            None => {
                                return Err(EvalError::StackUnderflow);
                            },
                            Some(val) => {
                                stack = s2;
                                storage.set(key, val);
                            },
                        }
                    },
                }
            },
            Instruction::Unknown(b) => {
                return Err(EvalError::UnknownOpcode(b));
            },
        }
        proof {
            assert(step(pre, instrs@[i as int]) == Ok::<State, EvalError>(
                State { stack: stack@, memory: memory@, storage: storage@ },
            ));
        }
        i += 1;
    }
    Ok((stack, storage, memory))
}

} // verus!
