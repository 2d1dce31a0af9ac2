//! Byte-addressable, auto-growing linear memory.
//!
//! Memory starts empty and grows to the smallest 32-byte-aligned size that
//! covers the highest offset ever stored; newly exposed bytes are zero.
//! Growth is monotonic — memory never shrinks within one execution.
use crate::bytes::{be_bytes32, lemma_be_bytes32_unique, to_bytes, Endian};
use crate::word::Word;
use vstd::prelude::*;

verus! {

/// The smallest multiple of 32 that is at least `n`.
pub open spec fn round_up_32(n: nat) -> nat {
    ((n + 31) / 32) * 32
}

/// The memory contents after `bytes` (32 of them) are stored at `off`:
/// grown (with zeros) to the aligned size covering `off + 32` if needed,
/// with `bytes` overlaid at `off` and all other old bytes kept.
pub open spec fn mem_after_store(m: Seq<u8>, off: nat, bytes: Seq<u8>) -> Seq<u8> {
    let new_len = if m.len() >= round_up_32(off + 32) {
        m.len()
    } else {
        round_up_32(off + 32)
    };
    Seq::new(
        new_len,
        |i: int|
            if off <= i < off + 32 {
                bytes[i - off]
            } else if i < m.len() {
                m[i]
            } else {
                0
            },
    )
}

/// Auto-growing byte memory.  The view is the sequence of all currently
/// allocated bytes, addressed from zero.
#[derive(Debug)]
pub struct Memory {
    data: Vec<u8>,
}

impl View for Memory {
    type V = Seq<u8>;

    closed spec fn view(&self) -> Seq<u8> {
        self.data@
    }
}

impl Memory {
    /// Fresh memory of size zero.
    pub fn new() -> (m: Memory)
        ensures
            m@ == Seq::<u8>::empty(),
    {
        Memory { data: Vec::new() }
    }

    /// The current size in bytes.
    pub fn size(&self) -> (n: usize)
        ensures
            n == self@.len(),
    {
        self.data.len()
    }

    /// The byte at offset `i`.
    pub fn read_byte(&self, i: usize) -> (b: u8)
        requires
            i < self@.len(),
        ensures
            b == self@[i as int],
    {
        self.data[i]
    }

    /// Load the word whose 32-byte big-endian representation sits at byte
    /// offset `offset`.
    pub fn load_word(&self, offset: usize) -> (w: Word)
        requires
            offset + 32 <= self@.len(),
        ensures
            w.as_nat() == crate::bytes::be_val(self@.subrange(offset as int, offset as int + 32)),
    {
        let n = self.data.len();
        let mut buf: Vec<u8> = Vec::new();
        let mut j: usize = 0;
        while j < 32
            invariant
                j <= 32,
                n == self@.len(),
                offset + 32 <= n,
                buf@ =~= self@.subrange(offset as int, offset as int + j),
            decreases 32 - j,
        {
            buf.push(self.data[offset + j]);
            j += 1;
        }
        crate::bytes::to_uint256(&buf, Endian::Big)
    }

    /// Store the 32-byte big-endian representation of `w` at byte offset
    /// `offset`, growing the memory (zero-filled, 32-byte aligned) as needed.
    pub fn store_word(&mut self, offset: usize, w: &Word)
        requires
            round_up_32(offset as nat + 32) <= usize::MAX,
        ensures
            final(self)@ == mem_after_store(old(self)@, offset as nat, be_bytes32(w.as_nat())),
            final(self)@.len() >= old(self)@.len(),
    {
        let bytes = to_bytes(w, Endian::Big);
        proof {
            lemma_be_bytes32_unique(bytes@, w.as_nat());
        }
        proof {
            vstd::arithmetic::div_mod::lemma_fundamental_div_mod(offset + 32 + 31, 32);
            vstd::arithmetic::div_mod::lemma_fundamental_div_mod(offset + 32, 32);
            assert(offset + 32 <= round_up_32(offset as nat + 32));
        }
        let needed: usize = offset + 32;
        let aligned: usize = if needed % 32 == 0 {
            needed
        } else {
            needed / 32 * 32 + 32
        };
        proof {
            assert(aligned == round_up_32(offset as nat + 32));
        }
        let old_len = self.data.len();
        let new_len: usize = if old_len >= aligned {
            old_len
        } else {
            aligned
        };
        let mut data: Vec<u8> = Vec::new();
        let mut i: usize = 0;
        while i < new_len
            invariant
                i <= new_len,
                old_len == old(self)@.len(),
                new_len == mem_after_store(old(self)@, offset as nat, bytes@).len(),
                self@ == old(self)@,
                bytes@.len() == 32,
                offset + 32 <= new_len,
                data@ =~= mem_after_store(old(self)@, offset as nat, bytes@).take(i as int),
            decreases new_len - i,
        {
            let b: u8 = if offset <= i && i < offset + 32 {
                bytes[i - offset]
            } else if i < old_len {
                self.data[i]
            } else {
                0
            };
            data.push(b);
            i += 1;
        }
        self.data = data;
        proof {
            assert(self@ =~= mem_after_store(old(self)@, offset as nat, bytes@));
        }
    }
}

} // verus!
