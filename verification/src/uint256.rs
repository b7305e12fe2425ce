//! Unsigned 256-bit and 512-bit integers as little-endian 64-bit limbs.
//!
//! Comparison, carry/borrow arithmetic and limb extraction are verified
//! against the numeric view. The full 256x256 -> 512 bit product, the wide
//! division and the shifts are delegated to the `primitive-types` crate
//! through trusted wrappers with exact contracts.

use vstd::prelude::*;

verus! {

use vstd::arithmetic::power2::pow2;

/// An unsigned 256-bit integer: four 64-bit limbs, least significant first.
#[derive(Clone, Copy, Debug, PartialEq, Eq, Structural)]
pub struct U256 {
    pub w0: u64,
    pub w1: u64,
    pub w2: u64,
    pub w3: u64,
}

/// An unsigned 512-bit integer: eight 64-bit limbs, least significant first.
#[derive(Clone, Copy, Debug, PartialEq, Eq, Structural)]
pub struct U512 {
    pub w0: u64,
    pub w1: u64,
    pub w2: u64,
    pub w3: u64,
    pub w4: u64,
    pub w5: u64,
    pub w6: u64,
    pub w7: u64,
}

impl View for U256 {
    type V = nat;

    open spec fn view(&self) -> nat {
        self.w0 as nat + self.w1 as nat * 0x10000000000000000
            + self.w2 as nat * 0x100000000000000000000000000000000nat
            + self.w3 as nat * 0x1000000000000000000000000000000000000000000000000nat
    }
}

impl View for U512 {
    type V = nat;

    open spec fn view(&self) -> nat {
        self.w0 as nat + self.w1 as nat * 0x10000000000000000
            + self.w2 as nat * 0x100000000000000000000000000000000nat
            + self.w3 as nat * 0x1000000000000000000000000000000000000000000000000nat
            + self.high_half() * 0x10000000000000000000000000000000000000000000000000000000000000000nat
    }
}

impl U512 {
    /// The value carried by the four most significant limbs.
    pub open spec fn high_half(&self) -> nat {
        self.w4 as nat + self.w5 as nat * 0x10000000000000000
            + self.w6 as nat * 0x100000000000000000000000000000000nat
            + self.w7 as nat * 0x1000000000000000000000000000000000000000000000000nat
    }
}

/// Every four-limb value is below 2^256.
pub proof fn lemma_u256_bound(a: U256)
    ensures
        a@ < 0x10000000000000000000000000000000000000000000000000000000000000000nat,
{
    assert(a.w0 as nat <= 0xffffffffffffffff);
    assert(a.w1 as nat * 0x10000000000000000 <= 0xffffffffffffffff * 0x10000000000000000);
    assert(a.w2 as nat * 0x100000000000000000000000000000000nat <= 0xffffffffffffffff
        * 0x100000000000000000000000000000000nat);
    assert(a.w3 as nat * 0x1000000000000000000000000000000000000000000000000nat <= 0xffffffffffffffff
        * 0x1000000000000000000000000000000000000000000000000nat);
}

/// Every eight-limb value is below 2^512.
pub proof fn lemma_u512_bound(a: U512)
    ensures
        a@ < 0x100000000000000000000000000000000000000000000000000000000000000000000000000000000000000000000000000000000000000000000000000000000nat,
{
    assert(a.high_half() <= 0xffffffffffffffffffffffffffffffffffffffffffffffffffffffffffffffffnat);
    vstd::arithmetic::mul::lemma_mul_inequality(
        a.high_half() as int,
        0xffffffffffffffffffffffffffffffffffffffffffffffffffffffffffffffffint,
        0x10000000000000000000000000000000000000000000000000000000000000000int,
    );
    assert(0xffffffffffffffffffffffffffffffffffffffffffffffffffffffffffffffffnat * 0x10000000000000000000000000000000000000000000000000000000000000000nat + 0x10000000000000000000000000000000000000000000000000000000000000000nat == 0x100000000000000000000000000000000000000000000000000000000000000000000000000000000000000000000000000000000000000000000000000000000nat);
}

impl U256 {
    /// Assemble from four limbs, least significant first.
    pub fn from_words(w: [u64; 4]) -> (r: U256)
        ensures
            r == (U256 { w0: w@[0], w1: w@[1], w2: w@[2], w3: w@[3] }),
    {
        U256 { w0: w[0], w1: w[1], w2: w[2], w3: w[3] }
    }

    pub fn zero() -> (r: U256)
        ensures
            r@ == 0,
    {
        U256 { w0: 0, w1: 0, w2: 0, w3: 0 }
    }

    pub fn one() -> (r: U256)
        ensures
            r@ == 1,
    {
        U256 { w0: 1, w1: 0, w2: 0, w3: 0 }
    }

    pub fn max_value() -> (r: U256)
        ensures
            r@ == 0xffffffffffffffffffffffffffffffffffffffffffffffffffffffffffffffffnat,
    {
        U256 { w0: u64::MAX, w1: u64::MAX, w2: u64::MAX, w3: u64::MAX }
    }

    pub fn from_u64(x: u64) -> (r: U256)
        ensures
            r@ == x as nat,
    {
        U256 { w0: x, w1: 0, w2: 0, w3: 0 }
    }

    pub fn from_u128(x: u128) -> (r: U256)
        ensures
            r@ == x as nat,
    {
        let lo: u64 = (x % 0x10000000000000000) as u64;
        let hi: u64 = (x / 0x10000000000000000) as u64;
        U256 { w0: lo, w1: hi, w2: 0, w3: 0 }
    }

    pub fn is_zero(&self) -> (r: bool)
        ensures
            r == (self@ == 0),
    {
        proof {
            if self.w1 != 0 {
                assert(self.w1 as nat * 0x10000000000000000 >= 0x10000000000000000);
            }
            if self.w2 != 0 {
                assert(self.w2 as nat * 0x100000000000000000000000000000000nat
                    >= 0x100000000000000000000000000000000nat);
            }
            if self.w3 != 0 {
                assert(self.w3 as nat * 0x1000000000000000000000000000000000000000000000000nat
                    >= 0x1000000000000000000000000000000000000000000000000nat);
            }
        }
        self.w0 == 0 && self.w1 == 0 && self.w2 == 0 && self.w3 == 0
    }

    /// Strict numeric comparison, most significant limb first.
    pub fn lt(&self, other: &U256) -> (r: bool)
        ensures
            r == (self@ < other@),
    {
        proof {
            lemma_limb_order(*self, *other);
        }
        if self.w3 != other.w3 {
            self.w3 < other.w3
        } else if self.w2 != other.w2 {
            self.w2 < other.w2
        } else if self.w1 != other.w1 {
            self.w1 < other.w1
        } else {
            self.w0 < other.w0
        }
    }

    pub fn le(&self, other: &U256) -> (r: bool)
        ensures
            r == (self@ <= other@),
    {
        !other.lt(self)
    }

    /// The low 32 bits.
    pub fn low_u32(&self) -> (r: u32)
        ensures
            r as nat == self@ % 0x100000000,
    {
        proof {
            lemma_u256_mod_low(*self);
        }
        (self.w0 % 0x100000000) as u32
    }

    /// The low 128 bits, exact when the value fits.
    pub fn low_u128(&self) -> (r: u128)
        requires
            self@ < 0x100000000000000000000000000000000nat,
        ensures
            r as nat == self@,
    {
        proof {
            if self.w2 != 0 {
                assert(self.w2 as nat * 0x100000000000000000000000000000000nat
                    >= 0x100000000000000000000000000000000nat);
            }
            if self.w3 != 0 {
                assert(self.w3 as nat * 0x1000000000000000000000000000000000000000000000000nat
                    >= 0x1000000000000000000000000000000000000000000000000nat);
            }
        }
        self.w0 as u128 + (self.w1 as u128) * 0x10000000000000000
    }

    /// Sum with a carry-out flag; the pair represents the exact sum.
    pub fn overflowing_add(&self, other: &U256) -> (r: (U256, bool))
        ensures
            r.0@ + (if r.1 {
                0x10000000000000000000000000000000000000000000000000000000000000000nat
            } else {
                0nat
            }) == self@ + other@,
    {
        let s0: u128 = self.w0 as u128 + other.w0 as u128;
        let r0: u64 = (s0 % 0x10000000000000000) as u64;
        let c0: u128 = s0 / 0x10000000000000000;
        let s1: u128 = self.w1 as u128 + other.w1 as u128 + c0;
        let r1: u64 = (s1 % 0x10000000000000000) as u64;
        let c1: u128 = s1 / 0x10000000000000000;
        let s2: u128 = self.w2 as u128 + other.w2 as u128 + c1;
        let r2: u64 = (s2 % 0x10000000000000000) as u64;
        let c2: u128 = s2 / 0x10000000000000000;
        let s3: u128 = self.w3 as u128 + other.w3 as u128 + c2;
        let r3: u64 = (s3 % 0x10000000000000000) as u64;
        let c3: u128 = s3 / 0x10000000000000000;
        (U256 { w0: r0, w1: r1, w2: r2, w3: r3 }, c3 != 0)
    }

    /// Sum, saturating at the largest representable value.
    pub fn saturating_add(&self, other: &U256) -> (r: U256)
        ensures
            self@ + other@ < 0x10000000000000000000000000000000000000000000000000000000000000000nat
                ==> r@ == self@ + other@,
            self@ + other@ >= 0x10000000000000000000000000000000000000000000000000000000000000000nat
                ==> r@ == 0xffffffffffffffffffffffffffffffffffffffffffffffffffffffffffffffffnat,
    {
        let (sum, overflow) = self.overflowing_add(other);
        if overflow {
            proof {
                lemma_u256_bound(sum);
            }
            U256::max_value()
        } else {
            sum
        }
    }

    /// Checked sum: `None` exactly when the sum does not fit.
    pub fn checked_add(&self, other: &U256) -> (r: Option<U256>)
        ensures
            self@ + other@ < 0x10000000000000000000000000000000000000000000000000000000000000000nat
                ==> (r is Some && r->Some_0@ == self@ + other@),
            self@ + other@ >= 0x10000000000000000000000000000000000000000000000000000000000000000nat
                ==> r is None,
    {
        let (sum, overflow) = self.overflowing_add(other);
        if overflow {
            proof {
                lemma_u256_bound(sum);
            }
            None
        } else {
            Some(sum)
        }
    }

    /// Difference with a borrow-out flag; exact as integers.
    pub fn overflowing_sub(&self, other: &U256) -> (r: (U256, bool))
        ensures
            r.1 == (self@ < other@),
            r.0@ == self@ - other@ + (if r.1 {
                0x10000000000000000000000000000000000000000000000000000000000000000int
            } else {
                0int
            }),
    {
        let d0: u128 = 0x10000000000000000u128 + self.w0 as u128 - other.w0 as u128;
        let r0: u64 = (d0 % 0x10000000000000000) as u64;
        let b0: u128 = 1 - d0 / 0x10000000000000000;
        let d1: u128 = 0x10000000000000000u128 + self.w1 as u128 - other.w1 as u128 - b0;
        let r1: u64 = (d1 % 0x10000000000000000) as u64;
        let b1: u128 = 1 - d1 / 0x10000000000000000;
        let d2: u128 = 0x10000000000000000u128 + self.w2 as u128 - other.w2 as u128 - b1;
        let r2: u64 = (d2 % 0x10000000000000000) as u64;
        let b2: u128 = 1 - d2 / 0x10000000000000000;
        let d3: u128 = 0x10000000000000000u128 + self.w3 as u128 - other.w3 as u128 - b2;
        let r3: u64 = (d3 % 0x10000000000000000) as u64;
        let b3: u128 = 1 - d3 / 0x10000000000000000;
        let out = U256 { w0: r0, w1: r1, w2: r2, w3: r3 };
        proof {
            lemma_u256_bound(out);
            lemma_u256_bound(*self);
        }
        (out, b3 != 0)
    }

    /// Difference of an ordered pair.
    pub fn sub_unchecked(&self, other: &U256) -> (r: U256)
        requires
            other@ <= self@,
        ensures
            r@ == self@ - other@,
    {
        let (diff, _borrow) = self.overflowing_sub(other);
        diff
    }
}

/// If the limbs compare lexicographically (most significant first), so do the values.
proof fn lemma_limb_order(a: U256, b: U256)
    ensures
        a.w3 < b.w3 ==> a@ < b@,
        a.w3 == b.w3 && a.w2 < b.w2 ==> a@ < b@,
        a.w3 == b.w3 && a.w2 == b.w2 && a.w1 < b.w1 ==> a@ < b@,
        a.w3 == b.w3 && a.w2 == b.w2 && a.w1 == b.w1 ==> (a@ < b@ <==> a.w0 < b.w0),
{
    if a.w3 < b.w3 {
        assert(a@ < (a.w3 as nat + 1) * 0x1000000000000000000000000000000000000000000000000nat);
        assert((a.w3 as nat + 1) * 0x1000000000000000000000000000000000000000000000000nat <= b.w3
            as nat * 0x1000000000000000000000000000000000000000000000000nat);
    }
    if a.w3 == b.w3 && a.w2 < b.w2 {
        assert(a@ < a.w3 as nat * 0x1000000000000000000000000000000000000000000000000nat + (a.w2 as nat
            + 1) * 0x100000000000000000000000000000000nat);
        assert((a.w2 as nat + 1) * 0x100000000000000000000000000000000nat <= b.w2 as nat
            * 0x100000000000000000000000000000000nat);
    }
    if a.w3 == b.w3 && a.w2 == b.w2 && a.w1 < b.w1 {
        assert((a.w1 as nat + 1) * 0x10000000000000000 <= b.w1 as nat * 0x10000000000000000);
    }
}

/// The value modulo 2^32 lives in the lowest limb.
proof fn lemma_u256_mod_low(a: U256)
    ensures
        a@ % 0x100000000 == a.w0 as nat % 0x100000000,
{
    let m = 0x100000000nat;
    let k = a.w1 as nat * 0x100000000 + a.w2 as nat * 0x1000000000000000000000000 + a.w3 as nat
        * 0x10000000000000000000000000000000000000000;
    assert(a@ == a.w0 as nat + m * k) by {
        assert(a.w1 as nat * 0x10000000000000000 == m * (a.w1 as nat * 0x100000000));
        assert(a.w2 as nat * 0x100000000000000000000000000000000nat == m * (a.w2 as nat
            * 0x1000000000000000000000000));
        assert(a.w3 as nat * 0x1000000000000000000000000000000000000000000000000nat == m * (a.w3 as nat
            * 0x10000000000000000000000000000000000000000));
    }
    vstd::arithmetic::div_mod::lemma_mod_multiples_vanish(k as int, a.w0 as int, m as int);
}

impl U512 {
    /// Assemble from eight limbs, least significant first.
    pub fn from_words(w: [u64; 8]) -> (r: U512)
        ensures
            r == (U512 {
                w0: w@[0], w1: w@[1], w2: w@[2], w3: w@[3],
                w4: w@[4], w5: w@[5], w6: w@[6], w7: w@[7],
            }),
    {
        U512 { w0: w[0], w1: w[1], w2: w[2], w3: w[3], w4: w[4], w5: w[5], w6: w[6], w7: w[7] }
    }

    pub fn is_zero(&self) -> (r: bool)
        ensures
            r == (self@ == 0),
    {
        proof {
            if self.w1 != 0 || self.w2 != 0 || self.w3 != 0 || self.w4 != 0 || self.w5 != 0
                || self.w6 != 0 || self.w7 != 0 {
                assert(self@ > 0);
            }
        }
        self.w0 == 0 && self.w1 == 0 && self.w2 == 0 && self.w3 == 0 && self.w4 == 0 && self.w5
            == 0 && self.w6 == 0 && self.w7 == 0
    }

    /// Widen a 256-bit value; the numeric value is unchanged.
    pub fn from_u256(x: &U256) -> (r: U512)
        ensures
            r@ == x@,
    {
        U512 { w0: x.w0, w1: x.w1, w2: x.w2, w3: x.w3, w4: 0, w5: 0, w6: 0, w7: 0 }
    }

    /// Narrow to 256 bits, exact when the value fits.
    pub fn low_u256(&self) -> (r: U256)
        requires
            self@ < 0x10000000000000000000000000000000000000000000000000000000000000000nat,
        ensures
            r@ == self@,
    {
        proof {
            if self.w4 != 0 || self.w5 != 0 || self.w6 != 0 || self.w7 != 0 {
                assert(self@
                    >= 0x10000000000000000000000000000000000000000000000000000000000000000nat);
            }
        }
        U256 { w0: self.w0, w1: self.w1, w2: self.w2, w3: self.w3 }
    }

    /// The low 128 bits, exact when the value fits.
    pub fn low_u128(&self) -> (r: u128)
        requires
            self@ < 0x100000000000000000000000000000000nat,
        ensures
            r as nat == self@,
    {
        proof {
            if self.w2 != 0 {
                assert(self.w2 as nat * 0x100000000000000000000000000000000nat
                    >= 0x100000000000000000000000000000000nat);
            }
            if self.w3 != 0 {
                assert(self.w3 as nat * 0x1000000000000000000000000000000000000000000000000nat
                    >= 0x1000000000000000000000000000000000000000000000000nat);
            }
            if self.high_half() != 0 {
                assert(self.high_half()
                    * 0x10000000000000000000000000000000000000000000000000000000000000000nat
                    >= 0x10000000000000000000000000000000000000000000000000000000000000000nat);
            }
        }
        self.w0 as u128 + (self.w1 as u128) * 0x10000000000000000
    }

    /// Strict numeric comparison, most significant limb first.
    pub fn lt(&self, other: &U512) -> (r: bool)
        ensures
            r == (self@ < other@),
    {
        proof {
            lemma_limb_order_512(*self, *other);
        }
        if self.w7 != other.w7 {
            self.w7 < other.w7
        } else if self.w6 != other.w6 {
            self.w6 < other.w6
        } else if self.w5 != other.w5 {
            self.w5 < other.w5
        } else if self.w4 != other.w4 {
            self.w4 < other.w4
        } else if self.w3 != other.w3 {
            self.w3 < other.w3
        } else if self.w2 != other.w2 {
            self.w2 < other.w2
        } else if self.w1 != other.w1 {
            self.w1 < other.w1
        } else {
            self.w0 < other.w0
        }
    }

    pub fn le(&self, other: &U512) -> (r: bool)
        ensures
            r == (self@ <= other@),
    {
        !other.lt(self)
    }

    /// Sum of two wide values that is known to fit.
    #[verifier::rlimit(100)]
    pub fn add_unchecked(&self, other: &U512) -> (r: U512)
        requires
            self@ + other@
                < 0x100000000000000000000000000000000000000000000000000000000000000000000000000000000000000000000000000000000000000000000000000000000nat,
        ensures
            r@ == self@ + other@,
    {
        let s0: u128 = self.w0 as u128 + other.w0 as u128;
        let r0: u64 = (s0 % 0x10000000000000000) as u64;
        let c0: u128 = s0 / 0x10000000000000000;
        let s1: u128 = self.w1 as u128 + other.w1 as u128 + c0;
        let r1: u64 = (s1 % 0x10000000000000000) as u64;
        let c1: u128 = s1 / 0x10000000000000000;
        let s2: u128 = self.w2 as u128 + other.w2 as u128 + c1;
        let r2: u64 = (s2 % 0x10000000000000000) as u64;
        let c2: u128 = s2 / 0x10000000000000000;
        let s3: u128 = self.w3 as u128 + other.w3 as u128 + c2;
        let r3: u64 = (s3 % 0x10000000000000000) as u64;
        let c3: u128 = s3 / 0x10000000000000000;
        let s4: u128 = self.w4 as u128 + other.w4 as u128 + c3;
        let r4: u64 = (s4 % 0x10000000000000000) as u64;
        let c4: u128 = s4 / 0x10000000000000000;
        let s5: u128 = self.w5 as u128 + other.w5 as u128 + c4;
        let r5: u64 = (s5 % 0x10000000000000000) as u64;
        let c5: u128 = s5 / 0x10000000000000000;
        let s6: u128 = self.w6 as u128 + other.w6 as u128 + c5;
        let r6: u64 = (s6 % 0x10000000000000000) as u64;
        let c6: u128 = s6 / 0x10000000000000000;
        let s7: u128 = self.w7 as u128 + other.w7 as u128 + c6;
        let r7: u64 = (s7 % 0x10000000000000000) as u64;
        let c7: u128 = s7 / 0x10000000000000000;
        let out = U512 { w0: r0, w1: r1, w2: r2, w3: r3, w4: r4, w5: r5, w6: r6, w7: r7 };
        proof {
            assert(r0 as nat + c0 as nat * 0x10000000000000000 == self.w0 as nat + other.w0 as nat);
            assert(r1 as nat + c1 as nat * 0x10000000000000000 == self.w1 as nat + other.w1 as nat
                + c0 as nat);
            assert(r2 as nat + c2 as nat * 0x10000000000000000 == self.w2 as nat + other.w2 as nat
                + c1 as nat);
            assert(r3 as nat + c3 as nat * 0x10000000000000000 == self.w3 as nat + other.w3 as nat
                + c2 as nat);
            assert(r4 as nat + c4 as nat * 0x10000000000000000 == self.w4 as nat + other.w4 as nat
                + c3 as nat);
            assert(r5 as nat + c5 as nat * 0x10000000000000000 == self.w5 as nat + other.w5 as nat
                + c4 as nat);
            assert(r6 as nat + c6 as nat * 0x10000000000000000 == self.w6 as nat + other.w6 as nat
                + c5 as nat);
            assert(r7 as nat + c7 as nat * 0x10000000000000000 == self.w7 as nat + other.w7 as nat
                + c6 as nat);
            assert(out@ + (c7 as nat * 0x10000000000000000000000000000000000000000000000000000000000000000nat) * 0x10000000000000000000000000000000000000000000000000000000000000000nat == self@ + other@);
            if c7 != 0 {
                vstd::arithmetic::mul::lemma_mul_inequality(
                    0x10000000000000000000000000000000000000000000000000000000000000000int,
                    c7 as int * 0x10000000000000000000000000000000000000000000000000000000000000000int,
                    0x10000000000000000000000000000000000000000000000000000000000000000int,
                );
                assert(0x10000000000000000000000000000000000000000000000000000000000000000nat * 0x10000000000000000000000000000000000000000000000000000000000000000nat == 0x100000000000000000000000000000000000000000000000000000000000000000000000000000000000000000000000000000000000000000000000000000000nat);
            }
        }
        out
    }
}

/// As `lemma_limb_order`, for eight limbs.
proof fn lemma_limb_order_512(a: U512, b: U512)
    ensures
        a.w7 < b.w7 ==> a@ < b@,
        a.w7 == b.w7 && a.w6 < b.w6 ==> a@ < b@,
        a.w7 == b.w7 && a.w6 == b.w6 && a.w5 < b.w5 ==> a@ < b@,
        a.w7 == b.w7 && a.w6 == b.w6 && a.w5 == b.w5 && a.w4 < b.w4 ==> a@ < b@,
        a.w7 == b.w7 && a.w6 == b.w6 && a.w5 == b.w5 && a.w4 == b.w4 && a.w3 < b.w3 ==> a@ < b@,
        a.w7 == b.w7 && a.w6 == b.w6 && a.w5 == b.w5 && a.w4 == b.w4 && a.w3 == b.w3 && a.w2 < b.w2
            ==> a@ < b@,
        a.w7 == b.w7 && a.w6 == b.w6 && a.w5 == b.w5 && a.w4 == b.w4 && a.w3 == b.w3 && a.w2 == b.w2
            && a.w1 < b.w1 ==> a@ < b@,
        a.w7 == b.w7 && a.w6 == b.w6 && a.w5 == b.w5 && a.w4 == b.w4 && a.w3 == b.w3 && a.w2 == b.w2
            && a.w1 == b.w1 ==> (a@ < b@ <==> a.w0 < b.w0),
{
    let ha = a.high_half();
    let hb = b.high_half();
    if a.w7 < b.w7 {
        assert((a.w7 as nat + 1) * 0x1000000000000000000000000000000000000000000000000nat <= b.w7 as nat * 0x1000000000000000000000000000000000000000000000000nat);
        assert(ha < hb);
    }
    if a.w7 == b.w7 && a.w6 < b.w6 {
        assert((a.w6 as nat + 1) * 0x100000000000000000000000000000000nat <= b.w6 as nat * 0x100000000000000000000000000000000nat);
        assert(ha < hb);
    }
    if a.w7 == b.w7 && a.w6 == b.w6 && a.w5 < b.w5 {
        assert((a.w5 as nat + 1) * 0x10000000000000000 <= b.w5 as nat * 0x10000000000000000);
        assert(ha < hb);
    }
    if a.w7 == b.w7 && a.w6 == b.w6 && a.w5 == b.w5 && a.w4 < b.w4 {
        assert(ha < hb);
    }
    if ha < hb {
        assert(a.w0 as nat + a.w1 as nat * 0x10000000000000000 + a.w2 as nat * 0x100000000000000000000000000000000nat + a.w3 as nat
            * 0x1000000000000000000000000000000000000000000000000nat < 0x10000000000000000000000000000000000000000000000000000000000000000nat);
        vstd::arithmetic::mul::lemma_mul_inequality(
            ha as int + 1,
            hb as int,
            0x10000000000000000000000000000000000000000000000000000000000000000int,
        );
        assert(a@ < (ha + 1) * 0x10000000000000000000000000000000000000000000000000000000000000000nat);
        assert(a@ < b@);
    }
    if ha == hb {
        if a.w3 < b.w3 {
            assert((a.w3 as nat + 1) * 0x1000000000000000000000000000000000000000000000000nat <= b.w3 as nat * 0x1000000000000000000000000000000000000000000000000nat);
        }
        if a.w3 == b.w3 && a.w2 < b.w2 {
            assert((a.w2 as nat + 1) * 0x100000000000000000000000000000000nat <= b.w2 as nat * 0x100000000000000000000000000000000nat);
        }
        if a.w3 == b.w3 && a.w2 == b.w2 && a.w1 < b.w1 {
            assert((a.w1 as nat + 1) * 0x10000000000000000 <= b.w1 as nat * 0x10000000000000000);
        }
    }
}

/// Relies on `primitive_types::U256::full_mul`: the exact double-width product.
#[verifier::external_body]
pub(crate) fn full_mul(a: &U256, b: &U256) -> (r: U512)
    ensures
        r@ == a@ * b@,
{
    let p = primitive_types::U256([a.w0, a.w1, a.w2, a.w3])
        .full_mul(primitive_types::U256([b.w0, b.w1, b.w2, b.w3]));
    U512::from_words(p.0)
}

/// Relies on `primitive_types::U512::div_mod`: the Euclidean quotient and
/// remainder; it panics only for a zero divisor, which the contract excludes.
#[verifier::external_body]
pub(crate) fn div_mod(a: &U512, b: &U512) -> (r: (U512, U512))
    requires
        b@ != 0,
    ensures
        r.0@ == a@ / b@,
        r.1@ == a@ % b@,
{
    let (q, m) = primitive_types::U512([a.w0, a.w1, a.w2, a.w3, a.w4, a.w5, a.w6, a.w7])
        .div_mod(primitive_types::U512([b.w0, b.w1, b.w2, b.w3, b.w4, b.w5, b.w6, b.w7]));
    (U512::from_words(q.0), U512::from_words(m.0))
}

/// Relies on the `Shr` impl of `primitive_types::U256`: a logical right shift
/// drops the low bits, so the result is the quotient by 2^n (zero when n >= 256).
#[verifier::external_body]
pub(crate) fn shr256(a: &U256, n: u32) -> (r: U256)
    ensures
        r@ == a@ / pow2(n as nat),
{
    let p = primitive_types::U256([a.w0, a.w1, a.w2, a.w3]) >> (n as usize);
    U256::from_words(p.0)
}

/// Relies on the `Shl` impl of `primitive_types::U256`: a left shift keeps the
/// low 256 bits of the product by 2^n and drops the rest.
#[verifier::external_body]
pub(crate) fn shl256(a: &U256, n: u32) -> (r: U256)
    ensures
        r@ == (a@ * pow2(n as nat))
            % 0x10000000000000000000000000000000000000000000000000000000000000000nat,
{
    let p = primitive_types::U256([a.w0, a.w1, a.w2, a.w3]) << (n as usize);
    U256::from_words(p.0)
}

/// Relies on the `Shr` impl of `primitive_types::U512`, as `shr256`.
#[verifier::external_body]
pub(crate) fn shr512(a: &U512, n: u32) -> (r: U512)
    ensures
        r@ == a@ / pow2(n as nat),
{
    let p = primitive_types::U512([a.w0, a.w1, a.w2, a.w3, a.w4, a.w5, a.w6, a.w7]) >> (n as usize);
    U512::from_words(p.0)
}

} // verus!
