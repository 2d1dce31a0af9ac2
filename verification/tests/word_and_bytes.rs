//! Word arithmetic and byte conversions: wraparound, identity, endianness.
use tinyevm::{pad_bytes, to_bytes, to_uint256, Endian, Word};

fn word_from_le(bytes32: [u8; 32]) -> Word {
    to_uint256(&bytes32.to_vec(), Endian::Little)
}

fn max_word() -> Word {
    to_uint256(&vec![0xffu8; 32], Endian::Little)
}

#[test]
fn test_add_commutative_and_zero() {
    let a = Word::from_u64(123456789);
    let b = Word::from_u64(987654321);
    assert_eq!(a.add(b), b.add(a));
    assert_eq!(a.add(b), Word::from_u64(1111111110));
    assert_eq!(a.add(Word::from_u64(0)), a);
    let big = max_word();
    assert_eq!(big.add(a), a.add(big));
    assert_eq!(big.add(Word::from_u64(0)), big);
}

#[test]
fn test_add_wraparound() {
    // (2^256 - 1) + 1 == 0 modulo 2^256.
    assert_eq!(max_word().add(Word::from_u64(1)), Word::from_u64(0));
}

#[test]
fn test_add_carries_across_limbs() {
    let mut le = [0u8; 32];
    le[7] = 0xff;
    le[6] = 0xff;
    le[5] = 0xff;
    le[4] = 0xff;
    le[3] = 0xff;
    le[2] = 0xff;
    le[1] = 0xff;
    le[0] = 0xff;
    // 2^64 - 1, stored in the low limb only.
    let a = word_from_le(le);
    let mut expect = [0u8; 32];
    expect[8] = 1;
    // Adding one must carry into the next limb: 2^64.
    assert_eq!(a.add(Word::from_u64(1)), word_from_le(expect));
}

#[test]
fn test_sub_wraparound() {
    assert_eq!(Word::from_u64(7).sub(Word::from_u64(3)), Word::from_u64(4));
    // 0 - 1 wraps to 2^256 - 1.
    assert_eq!(Word::from_u64(0).sub(Word::from_u64(1)), max_word());
}

#[test]
fn test_mul_cross_limb() {
    // (2^32 + 1)^2 == 2^64 + 2^33 + 1, crossing a limb boundary.
    let a = Word::from_u64(0x100000001);
    let mut expect = [0u8; 32];
    expect[0] = 1;
    expect[4] = 2;
    expect[8] = 1;
    assert_eq!(a.mul(a), word_from_le(expect));
}

#[test]
fn test_mul_wraparound() {
    // (2^256 - 1)^2 == 1 modulo 2^256.
    assert_eq!(max_word().mul(max_word()), Word::from_u64(1));
    assert_eq!(max_word().mul(Word::from_u64(0)), Word::from_u64(0));
}

#[test]
fn test_iszero() {
    assert_eq!(Word::from_u64(0).iszero(), Word::from_u64(1));
    assert_eq!(Word::from_u64(5).iszero(), Word::from_u64(0));
    assert_eq!(max_word().iszero(), Word::from_u64(0));
}

#[test]
fn test_pad_bytes_big_and_little() {
    let buf = vec![0x02u8];
    let big = pad_bytes(&buf, 0x00, Endian::Big);
    assert_eq!(big.len(), 32);
    assert_eq!(big[31], 0x02);
    assert!(big[..31].iter().all(|&b| b == 0));

    let little = pad_bytes(&buf, 0x00, Endian::Little);
    assert_eq!(little.len(), 32);
    assert_eq!(little[0], 0x02);
    assert!(little[1..].iter().all(|&b| b == 0));

    let padded = pad_bytes(&vec![0x01u8, 0x02], 0xaa, Endian::Big);
    assert_eq!(padded[0], 0xaa);
    assert_eq!(padded[29], 0xaa);
    assert_eq!(padded[30], 0x01);
    assert_eq!(padded[31], 0x02);
}

#[test]
fn test_to_uint256_both_orders() {
    let mut be = [0u8; 32];
    be[30] = 0x12;
    be[31] = 0x34;
    assert_eq!(
        to_uint256(&be.to_vec(), Endian::Big),
        Word::from_u64(0x1234)
    );
    let mut le = [0u8; 32];
    le[0] = 0x34;
    le[1] = 0x12;
    assert_eq!(
        to_uint256(&le.to_vec(), Endian::Little),
        Word::from_u64(0x1234)
    );
}

#[test]
fn test_endian_round_trip_reverses() {
    // Big-endian bytes of a value, written back out little-endian, come out
    // byte-reversed — not equal to the original buffer.
    let buf = vec![0x12u8, 0x34];
    let padded = pad_bytes(&buf, 0x00, Endian::Big);
    let w = to_uint256(&padded, Endian::Big);
    assert_eq!(w, Word::from_u64(0x1234));
    let out = to_bytes(&w, Endian::Little);
    let reversed: Vec<u8> = padded.iter().rev().cloned().collect();
    assert_eq!(out, reversed);
    assert_ne!(out, padded);
}

#[test]
fn test_to_bytes_inverts_to_uint256() {
    let w = Word::from_u64(0xdeadbeef);
    assert_eq!(to_uint256(&to_bytes(&w, Endian::Big), Endian::Big), w);
    assert_eq!(to_uint256(&to_bytes(&w, Endian::Little), Endian::Little), w);
}
