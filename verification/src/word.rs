//! The machine's 256-bit unsigned word with wraparound arithmetic.
//!
//! A `Word` is stored as four 64-bit limbs, least significant first.  Its
//! mathematical value is given by [`Word::as_nat`]; all arithmetic wraps
//! silently modulo 2^256.
use vstd::arithmetic::div_mod::{
    lemma_add_mod_noop, lemma_fundamental_div_mod, lemma_mod_multiples_vanish,
    lemma_mul_mod_noop_left, lemma_small_mod,
};
use vstd::prelude::*;

verus! {

/// 2^256, the modulus of all `Word` arithmetic.
pub open spec fn p256() -> nat {
    0x10000000000000000 * (0x10000000000000000 * (0x10000000000000000 * 0x10000000000000000))
}

/// A fixed-width 256-bit unsigned integer.  Two words are equal iff their
/// 256-bit values match, regardless of how they were constructed.
#[derive(Clone, Copy, PartialEq, Eq, Structural, Debug, Hash)]
pub struct Word {
    /// Bits 0..64 of the value.
    pub limb0: u64,
    /// Bits 64..128 of the value.
    pub limb1: u64,
    /// Bits 128..192 of the value.
    pub limb2: u64,
    /// Bits 192..256 of the value.
    pub limb3: u64,
}

impl Word {
    /// The 256-bit value this word denotes.
    pub open spec fn as_nat(self) -> nat {
        (self.limb0 + 0x10000000000000000 * (self.limb1 + 0x10000000000000000 * (self.limb2
            + 0x10000000000000000 * self.limb3))) as nat
    }

    /// A word's value is always below 2^256.
    pub proof fn lemma_as_nat_bound(self)
        ensures
            self.as_nat() < p256(),
    {
    }

    /// Words with the same value have the same limbs.
    pub proof fn lemma_as_nat_injective(self, other: Word)
        requires
            self.as_nat() == other.as_nat(),
        ensures
            self == other,
    {
    }

    /// The word denoting a small (64-bit) value.
    pub fn from_u64(v: u64) -> (r: Word)
        ensures
            r.as_nat() == v,
    {
        Word { limb0: v, limb1: 0, limb2: 0, limb3: 0 }
    }

    /// Wraparound sum: the result denotes `(a + b) % 2^256`.
    pub fn add(self, other: Word) -> (r: Word)
        ensures
            r.as_nat() == add_spec(self, other),
    {
        let s0: u128 = self.limb0 as u128 + other.limb0 as u128;
        let d0: u64 = (s0 % 0x10000000000000000) as u64;
        let c0: u64 = (s0 / 0x10000000000000000) as u64;
        let s1: u128 = self.limb1 as u128 + other.limb1 as u128 + c0 as u128;
        let d1: u64 = (s1 % 0x10000000000000000) as u64;
        let c1: u64 = (s1 / 0x10000000000000000) as u64;
        let s2: u128 = self.limb2 as u128 + other.limb2 as u128 + c1 as u128;
        let d2: u64 = (s2 % 0x10000000000000000) as u64;
        let c2: u64 = (s2 / 0x10000000000000000) as u64;
        let s3: u128 = self.limb3 as u128 + other.limb3 as u128 + c2 as u128;
        let d3: u64 = (s3 % 0x10000000000000000) as u64;
        let c3: u64 = (s3 / 0x10000000000000000) as u64;
        let r = Word { limb0: d0, limb1: d1, limb2: d2, limb3: d3 };
        proof {
            lemma_fundamental_div_mod(s0 as int, 0x10000000000000000);
            lemma_fundamental_div_mod(s1 as int, 0x10000000000000000);
            lemma_fundamental_div_mod(s2 as int, 0x10000000000000000);
            lemma_fundamental_div_mod(s3 as int, 0x10000000000000000);
            if c3 == 0 {
                assert(self.as_nat() + other.as_nat() == r.as_nat());
                lemma_small_mod(r.as_nat(), p256());
            } else {
                assert(c3 == 1);
                assert(self.as_nat() + other.as_nat() == r.as_nat() + p256());
                lemma_mod_multiples_vanish(1, r.as_nat() as int, p256() as int);
                lemma_small_mod(r.as_nat(), p256());
            }
        }
        r
    }

    /// Wraparound difference: the result denotes `(a + 2^256 - b) % 2^256`.
    pub fn sub(self, other: Word) -> (r: Word)
        ensures
            r.as_nat() == (self.as_nat() + p256() - other.as_nat()) % (p256() as int),
    {
        let t0: u128 = self.limb0 as u128 + 0x10000000000000000 - other.limb0 as u128;
        let d0: u64 = (t0 % 0x10000000000000000) as u64;
        let c0: u64 = (t0 / 0x10000000000000000) as u64;
        let t1: u128 = self.limb1 as u128 + 0xffffffffffffffff + c0 as u128 - other.limb1 as u128;
        let d1: u64 = (t1 % 0x10000000000000000) as u64;
        let c1: u64 = (t1 / 0x10000000000000000) as u64;
        let t2: u128 = self.limb2 as u128 + 0xffffffffffffffff + c1 as u128 - other.limb2 as u128;
        let d2: u64 = (t2 % 0x10000000000000000) as u64;
        let c2: u64 = (t2 / 0x10000000000000000) as u64;
        let t3: u128 = self.limb3 as u128 + 0xffffffffffffffff + c2 as u128 - other.limb3 as u128;
        let d3: u64 = (t3 % 0x10000000000000000) as u64;
        let c3: u64 = (t3 / 0x10000000000000000) as u64;
        let r = Word { limb0: d0, limb1: d1, limb2: d2, limb3: d3 };
        proof {
            lemma_fundamental_div_mod(t0 as int, 0x10000000000000000);
            lemma_fundamental_div_mod(t1 as int, 0x10000000000000000);
            lemma_fundamental_div_mod(t2 as int, 0x10000000000000000);
            lemma_fundamental_div_mod(t3 as int, 0x10000000000000000);
            if c3 == 1 {
                assert(self.as_nat() + p256() - other.as_nat() == r.as_nat() + p256());
                lemma_mod_multiples_vanish(1, r.as_nat() as int, p256() as int);
                lemma_small_mod(r.as_nat(), p256());
            } else {
                assert(c3 == 0);
                assert(self.as_nat() + p256() - other.as_nat() == r.as_nat());
                lemma_small_mod(r.as_nat(), p256());
            }
        }
        r
    }

    /// `Word` 1 when this word denotes zero, `Word` 0 otherwise.
    pub fn iszero(self) -> (r: Word)
        ensures
            r.as_nat() == (if self.as_nat() == 0 {
                1nat
            } else {
                0nat
            }),
    {
        if self.limb0 == 0 && self.limb1 == 0 && self.limb2 == 0 && self.limb3 == 0 {
            Word::from_u64(1)
        } else {
            Word::from_u64(0)
        }
    }

    /// Shift one limb (64 bits) towards the most significant end, modulo 2^256.
    fn shl_limb(self) -> (r: Word)
        ensures
            r.as_nat() == (self.as_nat() * 0x10000000000000000nat) % p256(),
    {
        let r = Word { limb0: 0, limb1: self.limb0, limb2: self.limb1, limb3: self.limb2 };
        proof {
            let l3: int = self.limb3 as int;
            assert(self.as_nat() * 0x10000000000000000 == r.as_nat() + l3 * p256()) by (nonlinear_arith)
                requires
                    self.as_nat() == self.limb0 + 0x10000000000000000 * (self.limb1
                        + 0x10000000000000000 * (self.limb2 + 0x10000000000000000 * l3)),
                    r.as_nat() == 0 + 0x10000000000000000 * (self.limb0 + 0x10000000000000000 * (
                    self.limb1 + 0x10000000000000000 * self.limb2)),
                    p256() == 0x10000000000000000 * (0x10000000000000000 * (0x10000000000000000
                        * 0x10000000000000000)),
            ;
            lemma_mod_multiples_vanish(l3, r.as_nat() as int, p256() as int);
            lemma_small_mod(r.as_nat(), p256());
        }
        r
    }

    /// Product with a single 64-bit limb, modulo 2^256.
    fn mul_limb(self, m: u64) -> (r: Word)
        ensures
            r.as_nat() == (self.as_nat() * m as nat) % p256(),
    {
        proof {
            assert(self.limb0 as int * m as int <= 0xfffffffffffffffe0000000000000001
                && self.limb1 as int * m as int <= 0xfffffffffffffffe0000000000000001
                && self.limb2 as int * m as int <= 0xfffffffffffffffe0000000000000001
                && self.limb3 as int * m as int <= 0xfffffffffffffffe0000000000000001)
                by (nonlinear_arith)
                requires
                    self.limb0 <= 0xffffffffffffffffu64,
                    self.limb1 <= 0xffffffffffffffffu64,
                    self.limb2 <= 0xffffffffffffffffu64,
                    self.limb3 <= 0xffffffffffffffffu64,
                    m <= 0xffffffffffffffffu64,
            ;
        }
        let t0: u128 = self.limb0 as u128 * m as u128;
        let d0: u64 = (t0 % 0x10000000000000000) as u64;
        let c0: u64 = (t0 / 0x10000000000000000) as u64;
        let t1: u128 = self.limb1 as u128 * m as u128 + c0 as u128;
        let d1: u64 = (t1 % 0x10000000000000000) as u64;
        let c1: u64 = (t1 / 0x10000000000000000) as u64;
        let t2: u128 = self.limb2 as u128 * m as u128 + c1 as u128;
        let d2: u64 = (t2 % 0x10000000000000000) as u64;
        let c2: u64 = (t2 / 0x10000000000000000) as u64;
        let t3: u128 = self.limb3 as u128 * m as u128 + c2 as u128;
        let d3: u64 = (t3 % 0x10000000000000000) as u64;
        let c3: u64 = (t3 / 0x10000000000000000) as u64;
        let r = Word { limb0: d0, limb1: d1, limb2: d2, limb3: d3 };
        proof {
            lemma_fundamental_div_mod(t0 as int, 0x10000000000000000);
            lemma_fundamental_div_mod(t1 as int, 0x10000000000000000);
            lemma_fundamental_div_mod(t2 as int, 0x10000000000000000);
            lemma_fundamental_div_mod(t3 as int, 0x10000000000000000);
            let a0: int = self.limb0 as int;
            let a1: int = self.limb1 as int;
            let a2: int = self.limb2 as int;
            let a3: int = self.limb3 as int;
            let mm: int = m as int;
            assert(self.as_nat() * m == r.as_nat() + c3 * (0x10000000000000000 * (
            0x10000000000000000 * (0x10000000000000000 * 0x10000000000000000))))
                by (nonlinear_arith)
                requires
                    self.as_nat() == a0 + 0x10000000000000000 * (a1 + 0x10000000000000000 * (a2
                        + 0x10000000000000000 * a3)),
                    r.as_nat() == d0 + 0x10000000000000000 * (d1 + 0x10000000000000000 * (d2
                        + 0x10000000000000000 * d3)),
                    mm == m as int,
                    a0 * mm == d0 + c0 * 0x10000000000000000,
                    a1 * mm + c0 == d1 + c1 * 0x10000000000000000,
                    a2 * mm + c1 == d2 + c2 * 0x10000000000000000,
                    a3 * mm + c2 == d3 + c3 * 0x10000000000000000,
            ;
            assert(p256() as int * (c3 as int) == c3 as int * (p256() as int)) by (nonlinear_arith);
            lemma_mod_multiples_vanish(c3 as int, r.as_nat() as int, p256() as int);
            lemma_small_mod(r.as_nat(), p256());
        }
        r
    }

    /// Wraparound product: the result denotes `(a * b) % 2^256`.
    pub fn mul(self, other: Word) -> (r: Word)
        ensures
            r.as_nat() == (self.as_nat() * other.as_nat()) % p256(),
    {
        let p0 = self.mul_limb(other.limb0);
        let p1 = self.mul_limb(other.limb1).shl_limb();
        let p2 = self.mul_limb(other.limb2).shl_limb().shl_limb();
        let p3 = self.mul_limb(other.limb3).shl_limb().shl_limb().shl_limb();
        let s1 = p0.add(p1);
        let s2 = s1.add(p2);
        let r = s2.add(p3);
        proof {
            let aa: int = self.as_nat() as int;
            let bb: int = other.as_nat() as int;
            let pp: int = p256() as int;
            let m0: int = other.limb0 as int;
            let m1: int = other.limb1 as int;
            let m2: int = other.limb2 as int;
            let m3: int = other.limb3 as int;
            let x0: int = aa * m0;
            let x1: int = aa * m1 * 0x10000000000000000;
            let x2: int = aa * m2 * 0x10000000000000000 * 0x10000000000000000;
            let x3: int = aa * m3 * 0x10000000000000000 * 0x10000000000000000
                * 0x10000000000000000;
            // Peel the mod off each shifted partial product.
            assert(p0.as_nat() == x0 % pp);
            lemma_mul_mod_noop_left(aa * m1, 0x10000000000000000, pp);
            assert(p1.as_nat() == x1 % pp);
            lemma_mul_mod_noop_left(aa * m2, 0x10000000000000000, pp);
            lemma_mul_mod_noop_left(aa * m2 * 0x10000000000000000, 0x10000000000000000, pp);
            assert(p2.as_nat() == x2 % pp);
            lemma_mul_mod_noop_left(aa * m3, 0x10000000000000000, pp);
            lemma_mul_mod_noop_left(aa * m3 * 0x10000000000000000, 0x10000000000000000, pp);
            lemma_mul_mod_noop_left(
                aa * m3 * 0x10000000000000000 * 0x10000000000000000,
                0x10000000000000000,
                pp,
            );
            assert(p3.as_nat() == x3 % pp);
            // Fold the wraparound sums together.
            lemma_add_mod_noop(x0, x1, pp);
            assert(s1.as_nat() == (x0 + x1) % pp);
            lemma_add_mod_noop(x0 + x1, x2, pp);
            assert(s2.as_nat() == (x0 + x1 + x2) % pp);
            lemma_add_mod_noop(x0 + x1 + x2, x3, pp);
            assert(r.as_nat() == (x0 + x1 + x2 + x3) % pp);
            // The four partial products sum to the full product.
            assert(x0 + x1 + x2 + x3 == aa * bb) by (nonlinear_arith)
                requires
                    bb == m0 + 0x10000000000000000 * (m1 + 0x10000000000000000 * (m2
                        + 0x10000000000000000 * m3)),
                    x0 == aa * m0,
                    x1 == aa * m1 * 0x10000000000000000,
                    x2 == aa * m2 * 0x10000000000000000 * 0x10000000000000000,
                    x3 == aa * m3 * 0x10000000000000000 * 0x10000000000000000
                        * 0x10000000000000000,
            ;
        }
        r
    }
}

/// The word denoting `v`: for `v` below 2^256 there is exactly one, by
/// [`Word::lemma_as_nat_injective`].
pub open spec fn word_of(v: nat) -> Word {
    choose|w: Word| w.as_nat() == v
}

/// Any word denoting `v` is the canonical one.
pub proof fn lemma_word_of(w: Word, v: nat)
    requires
        w.as_nat() == v,
    ensures
        word_of(v) == w,
{
    let c = choose|c: Word| c.as_nat() == v;
    assert(c.as_nat() == v);
    c.lemma_as_nat_injective(w);
}

/// The value that [`Word::add`] produces: the wraparound sum of two words.
pub open spec fn add_spec(a: Word, b: Word) -> nat {
    (a.as_nat() + b.as_nat()) % p256()
}

/// Addition is commutative: `a.add(b)` and `b.add(a)` denote the same value,
/// and so (words of equal value being equal) are the same word.
pub proof fn lemma_add_commutative(a: Word, b: Word)
    ensures
        add_spec(a, b) == add_spec(b, a),
{
}

/// Zero is the identity of addition: `a.add(z)` denotes exactly `a`'s value
/// whenever `z` denotes zero.
pub proof fn lemma_add_zero(a: Word, z: Word)
    requires
        z.as_nat() == 0,
    ensures
        add_spec(a, z) == a.as_nat(),
{
    a.lemma_as_nat_bound();
    lemma_small_mod(a.as_nat(), p256());
}

} // verus!

