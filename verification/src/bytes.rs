//! Conversion between 256-bit words and 32-byte buffers.
//!
//! A byte buffer denotes a number through an explicit [`Endian`] tag.  The
//! little-endian reading is the primitive ([`le_val`]); the big-endian reading
//! of a buffer is, by definition, the little-endian reading of its reversal.
//! Buffers shorter than 32 bytes are first padded ([`pad_bytes`]) on the side
//! that keeps their value under the chosen byte order.
use crate::word::{p256, Word};
use vstd::prelude::*;

verus! {

/// Byte-order tag: most-significant-first (`Big`) or least-significant-first
/// (`Little`).
#[derive(Clone, Copy, PartialEq, Eq, Structural, Debug)]
pub enum Endian {
    Big,
    Little,
}

/// The value of the byte suffix `s[i..]` read least-significant-byte first.
pub open spec fn le_val_from(s: Seq<u8>, i: int) -> nat
    decreases s.len() - i,
{
    if i < 0 || i >= s.len() {
        0
    } else {
        (s[i] + 256 * le_val_from(s, i + 1)) as nat
    }
}

/// The value of a byte buffer read least-significant-byte first.
pub open spec fn le_val(s: Seq<u8>) -> nat {
    le_val_from(s, 0)
}

/// The value of a byte buffer read most-significant-byte first: the
/// little-endian value of the reversed buffer.
pub open spec fn be_val(s: Seq<u8>) -> nat {
    le_val(s.reverse())
}

/// The 32-byte buffer obtained by padding `s` with `pad_byte`: on the left
/// for a big-endian buffer, on the right for a little-endian one, so that a
/// zero pad byte keeps the denoted value.
pub open spec fn pad_spec(s: Seq<u8>, pad_byte: u8, endian: Endian) -> Seq<u8> {
    match endian {
        Endian::Big => Seq::new((32 - s.len()) as nat, |i: int| pad_byte) + s,
        Endian::Little => s + Seq::new((32 - s.len()) as nat, |i: int| pad_byte),
    }
}

/// The 32-byte buffer whose big-endian reading is `v` (for `v` below 2^256
/// there is exactly one, by [`lemma_be_bytes32_unique`]).
pub open spec fn be_bytes32(v: nat) -> Seq<u8> {
    choose|b: Seq<u8>| b.len() == 32 && be_val(b) == v
}

proof fn lemma_le_val_from_injective(s1: Seq<u8>, s2: Seq<u8>, i: int)
    requires
        s1.len() == s2.len(),
        0 <= i <= s1.len(),
        le_val_from(s1, i) == le_val_from(s2, i),
    ensures
        forall|j: int| i <= j < s1.len() ==> s1[j] == s2[j],
    decreases s1.len() - i,
{
    if i < s1.len() {
        assert(s1[i] == s2[i] && le_val_from(s1, i + 1) == le_val_from(s2, i + 1));
        lemma_le_val_from_injective(s1, s2, i + 1);
    }
}

/// Buffers of equal length with the same little-endian value are equal:
/// the value determines every byte.
pub proof fn lemma_le_val_injective(s1: Seq<u8>, s2: Seq<u8>)
    requires
        s1.len() == s2.len(),
        le_val(s1) == le_val(s2),
    ensures
        s1 == s2,
{
    lemma_le_val_from_injective(s1, s2, 0);
    assert(s1 =~= s2);
}

/// Any 32-byte buffer whose big-endian reading is `v` is the canonical one.
pub proof fn lemma_be_bytes32_unique(b: Seq<u8>, v: nat)
    requires
        b.len() == 32,
        be_val(b) == v,
    ensures
        be_bytes32(v) == b,
{
    let c = choose|c: Seq<u8>| c.len() == 32 && be_val(c) == v;
    assert(c.len() == 32 && be_val(c) == v);
    lemma_le_val_injective(c.reverse(), b.reverse());
    assert(c =~= b) by {
        assert(forall|j: int| 0 <= j < 32 ==> c.reverse()[31 - j] == b.reverse()[31 - j] && c[j]
            == c.reverse()[31 - j] && b[j] == b.reverse()[31 - j]);
    }
}

/// Endianness round trip: take any buffer of at most 32 bytes, zero-pad it on
/// the left, and read it big-endian; writing that value back out
/// little-endian yields the byte-reversed padded buffer — the reverse-byte
/// form of the original reading, not the original buffer itself.
pub proof fn lemma_endian_round_trip(buf: Seq<u8>, w: Word, out: Seq<u8>)
    requires
        buf.len() <= 32,
        w.as_nat() == be_val(pad_spec(buf, 0, Endian::Big)),
        out.len() == 32,
        le_val(out) == w.as_nat(),
    ensures
        out == pad_spec(buf, 0, Endian::Big).reverse(),
{
    let padded = pad_spec(buf, 0, Endian::Big);
    assert(padded.len() == 32);
    assert(padded.reverse().len() == 32);
    lemma_le_val_injective(out, padded.reverse());
}

/// Zero-pad a buffer of at most 32 bytes out to exactly 32 bytes.
pub fn pad_bytes(bytes: &Vec<u8>, pad_byte: u8, endian: Endian) -> (r: Vec<u8>)
    requires
        bytes@.len() <= 32,
    ensures
        r@.len() == 32,
        r@ == pad_spec(bytes@, pad_byte, endian),
{
    let n = bytes.len();
    let pad_len: usize = 32 - n;
    let mut r: Vec<u8> = Vec::new();
    match endian {
        Endian::Big => {
            let mut i: usize = 0;
            while i < pad_len
                invariant
                    i <= pad_len,
                    pad_len == 32 - bytes@.len(),
                    r@ =~= Seq::new(i as nat, |k: int| pad_byte),
                decreases pad_len - i,
            {
                r.push(pad_byte);
                i += 1;
            }
            let mut j: usize = 0;
            while j < n
                invariant
                    j <= n,
                    n == bytes@.len(),
                    pad_len == 32 - n,
                    r@ =~= Seq::new(pad_len as nat, |k: int| pad_byte) + bytes@.take(j as int),
                decreases n - j,
            {
                r.push(bytes[j]);
                j += 1;
            }
            proof {
                assert(r@ =~= pad_spec(bytes@, pad_byte, endian));
            }
        },
        Endian::Little => {
            let mut j: usize = 0;
            while j < n
                invariant
                    j <= n,
                    n == bytes@.len(),
                    r@ =~= bytes@.take(j as int),
                decreases n - j,
            {
                r.push(bytes[j]);
                j += 1;
            }
            let mut i: usize = 0;
            while i < pad_len
                invariant
                    i <= pad_len,
                    n == bytes@.len(),
                    pad_len == 32 - n,
                    r@ =~= bytes@ + Seq::new(i as nat, |k: int| pad_byte),
                decreases pad_len - i,
            {
                r.push(pad_byte);
                i += 1;
            }
            proof {
                assert(r@ =~= pad_spec(bytes@, pad_byte, endian));
            }
        },
    }
    r
}

/// A copy of the buffer with its bytes in the opposite order.
fn reverse_bytes(bytes: &Vec<u8>) -> (r: Vec<u8>)
    ensures
        r@ == bytes@.reverse(),
{
    let n = bytes.len();
    let mut r: Vec<u8> = Vec::new();
    let mut i: usize = 0;
    while i < n
        invariant
            i <= n,
            n == bytes@.len(),
            r@ =~= bytes@.reverse().take(i as int),
        decreases n - i,
    {
        r.push(bytes[n - 1 - i]);
        i += 1;
    }
    proof {
        assert(r@ =~= bytes@.reverse());
    }
    r
}

/// Read a 32-byte little-endian buffer as a word.
fn word_of_le(bytes: &Vec<u8>) -> (r: Word)
    requires
        bytes@.len() == 32,
    ensures
        r.as_nat() == le_val(bytes@),
{
    let limb0: u64 = bytes[0] as u64 + 0x100 * bytes[1] as u64 + 0x10000 * bytes[2] as u64
        + 0x1000000 * bytes[3] as u64 + 0x100000000 * bytes[4] as u64 + 0x10000000000 * bytes[5]
        as u64 + 0x1000000000000 * bytes[6] as u64 + 0x100000000000000 * bytes[7] as u64;
    let limb1: u64 = bytes[8] as u64 + 0x100 * bytes[9] as u64 + 0x10000 * bytes[10] as u64
        + 0x1000000 * bytes[11] as u64 + 0x100000000 * bytes[12] as u64 + 0x10000000000
        * bytes[13] as u64 + 0x1000000000000 * bytes[14] as u64 + 0x100000000000000 * bytes[15]
        as u64;
    let limb2: u64 = bytes[16] as u64 + 0x100 * bytes[17] as u64 + 0x10000 * bytes[18] as u64
        + 0x1000000 * bytes[19] as u64 + 0x100000000 * bytes[20] as u64 + 0x10000000000
        * bytes[21] as u64 + 0x1000000000000 * bytes[22] as u64 + 0x100000000000000 * bytes[23]
        as u64;
    let limb3: u64 = bytes[24] as u64 + 0x100 * bytes[25] as u64 + 0x10000 * bytes[26] as u64
        + 0x1000000 * bytes[27] as u64 + 0x100000000 * bytes[28] as u64 + 0x10000000000
        * bytes[29] as u64 + 0x1000000000000 * bytes[30] as u64 + 0x100000000000000 * bytes[31]
        as u64;
    let r = Word { limb0, limb1, limb2, limb3 };
    proof {
        reveal_with_fuel(le_val_from, 33);
        assert(r.as_nat() == le_val(bytes@));
    }
    r
}

/// The value of the eight bytes `s[i..i+8]` read least-significant first.
pub open spec fn le8_at(s: Seq<u8>, i: int) -> int {
    s[i] + 0x100 * s[i + 1] + 0x10000 * s[i + 2] + 0x1000000 * s[i + 3] + 0x100000000 * s[i + 4]
        + 0x10000000000 * s[i + 5] + 0x1000000000000 * s[i + 6] + 0x100000000000000 * s[i + 7]
}

/// Append the eight bytes of one limb, least significant first.
fn push_limb_le(out: &mut Vec<u8>, l: u64)
    ensures
        final(out)@.len() == old(out)@.len() + 8,
        final(out)@.take(old(out)@.len() as int) == old(out)@,
        l == le8_at(final(out)@, old(out)@.len() as int),
{
    let b0: u8 = (l & 0xff) as u8;
    let b1: u8 = ((l >> 8) & 0xff) as u8;
    let b2: u8 = ((l >> 16) & 0xff) as u8;
    let b3: u8 = ((l >> 24) & 0xff) as u8;
    let b4: u8 = ((l >> 32) & 0xff) as u8;
    let b5: u8 = ((l >> 40) & 0xff) as u8;
    let b6: u8 = ((l >> 48) & 0xff) as u8;
    let b7: u8 = ((l >> 56) & 0xff) as u8;
    proof {
        assert((l & 0xff) < 0x100 && ((l >> 8) & 0xff) < 0x100 && ((l >> 16) & 0xff) < 0x100 && ((l
            >> 24) & 0xff) < 0x100 && ((l >> 32) & 0xff) < 0x100 && ((l >> 40) & 0xff) < 0x100 && ((
        l >> 48) & 0xff) < 0x100 && ((l >> 56) & 0xff) < 0x100 && l == (l & 0xff) + 0x100 * ((l >> 8)
            & 0xff) + 0x10000 * ((l >> 16) & 0xff) + 0x1000000 * ((l >> 24) & 0xff) + 0x100000000 * (
        (l >> 32) & 0xff) + 0x10000000000 * ((l >> 40) & 0xff) + 0x1000000000000 * ((l >> 48) & 0xff)
            + 0x100000000000000 * ((l >> 56) & 0xff)) by (bit_vector);
    }
    out.push(b0);
    out.push(b1);
    out.push(b2);
    out.push(b3);
    out.push(b4);
    out.push(b5);
    out.push(b6);
    out.push(b7);
}

/// The 32 little-endian bytes of a word.
fn le_of_word(w: &Word) -> (r: Vec<u8>)
    ensures
        r@.len() == 32,
        le_val(r@) == w.as_nat(),
{
    let mut r: Vec<u8> = Vec::new();
    push_limb_le(&mut r, w.limb0);
    push_limb_le(&mut r, w.limb1);
    push_limb_le(&mut r, w.limb2);
    push_limb_le(&mut r, w.limb3);
    proof {
        reveal_with_fuel(le_val_from, 33);
        assert(le_val(r@) == w.as_nat());
    }
    r
}

/// Read a 32-byte buffer as a word under the given byte order.
pub fn to_uint256(bytes: &Vec<u8>, endian: Endian) -> (r: Word)
    requires
        bytes@.len() == 32,
    ensures
        endian == Endian::Little ==> r.as_nat() == le_val(bytes@),
        endian == Endian::Big ==> r.as_nat() == be_val(bytes@),
{
    match endian {
        Endian::Little => word_of_le(bytes),
        Endian::Big => {
            let rev = reverse_bytes(bytes);
            word_of_le(&rev)
        },
    }
}

/// Write a word as a 32-byte buffer under the given byte order.
pub fn to_bytes(w: &Word, endian: Endian) -> (r: Vec<u8>)
    ensures
        r@.len() == 32,
        endian == Endian::Little ==> le_val(r@) == w.as_nat(),
        endian == Endian::Big ==> be_val(r@) == w.as_nat(),
{
    let le = le_of_word(w);
    match endian {
        Endian::Little => le,
        Endian::Big => {
            let rev = reverse_bytes(&le);
            proof {
                assert(rev@.reverse() =~= le@);
            }
            rev
        },
    }
}

} // verus!
