//! The 256-bit unsigned integer type and its operator suite.
//!
//! A value is four 64-bit limbs; limb 0 holds the least-significant 64 bits
//! and limb 3 the most-significant.  Every operation is specified against
//! [`U256::as_nat`], the mathematical value `limb0 + limb1*2^64 + limb2*2^128
//! + limb3*2^192`.
//!
//! The two operator families deliberately differ in their overflow policy:
//! addition (and the subtraction built on it) refuses, by precondition, any
//! result that needs a fifth limb, while multiplication and the shifts
//! silently discard bits beyond the 256-bit boundary.

use vstd::prelude::*;
use vstd::arithmetic::power2::pow2;
use vstd::arithmetic::div_mod::{
    lemma_fundamental_div_mod,
    lemma_fundamental_div_mod_converse,
    lemma_small_mod,
};
use vstd::arithmetic::mul::{
    lemma_mul_upper_bound,
    lemma_mul_is_associative,
    lemma_mul_is_commutative,
    lemma_mul_basics,
    lemma_mul_inequality,
};
use vstd::arithmetic::div_mod::{
    lemma_mul_mod_noop_left,
    lemma_mod_multiples_basic,
    lemma_div_denominator,
    lemma_div_multiples_vanish,
    lemma_basic_div,
    lemma_add_mod_noop,
    lemma_mod_breakdown,
};
use vstd::arithmetic::mul::{
    lemma_mul_is_distributive_add,
    lemma_mul_is_distributive_add_other_way,
};
use vstd::arithmetic::power2::lemma2_to64;
use vstd::arithmetic::power2::{lemma_pow2_adds, lemma_pow2_strictly_increases, lemma_pow2_pos};
use crate::math::{
    lemma_pow2_limb_values,
    pow2_u64,
    u64_bit_len,
    lemma_mul_pow2_double,
    lemma_mul_pow2_halves,
    lemma_aligned_divisor_bounds,
    lemma_quotient_bit_room,
};

verus! {

/// One more than the largest value the type can hold: `2^256`.
pub open spec fn u256_modulus() -> nat {
    0x1_0000_0000_0000_0000_0000_0000_0000_0000_0000_0000_0000_0000_0000_0000_0000_0000nat
}

/// A 256-bit unsigned integer: four 64-bit limbs, least significant first.
#[derive(Clone, Copy, PartialEq, Eq, Structural, Debug)]
pub struct U256 {
    /// Bits 0..64 (least significant).
    pub limb0: u64,
    /// Bits 64..128.
    pub limb1: u64,
    /// Bits 128..192.
    pub limb2: u64,
    /// Bits 192..256 (most significant).
    pub limb3: u64,
}

impl U256 {
    /// The mathematical value represented: the limbs read in base `2^64`.
    pub open spec fn as_nat(self) -> nat {
        (self.limb0 as nat
            + self.limb1 as nat * 0x1_0000_0000_0000_0000
            + self.limb2 as nat * 0x1_0000_0000_0000_0000_0000_0000_0000_0000nat
            + self.limb3 as nat
                * 0x1_0000_0000_0000_0000_0000_0000_0000_0000_0000_0000_0000_0000nat) as nat
    }

    /// Every representable value lies below `2^256`.
    pub proof fn lemma_as_nat_bound(self)
        ensures
            self.as_nat() < u256_modulus(),
    {
    }

    /// The additive identity: all limbs zero.
    pub fn zero() -> (r: U256)
        ensures
            r.as_nat() == 0,
            r == (U256 { limb0: 0, limb1: 0, limb2: 0, limb3: 0 }),
    {
        U256 { limb0: 0, limb1: 0, limb2: 0, limb3: 0 }
    }

    /// Widens a native 64-bit value: it becomes the least-significant limb.
    pub fn from_u64(val: u64) -> (r: U256)
        ensures
            r.as_nat() == val,
    {
        U256 { limb0: val, limb1: 0, limb2: 0, limb3: 0 }
    }

    /// Narrows to a native 64-bit value.  Callers must ensure the value fits:
    /// the higher limbs must all be zero.
    pub fn to_u64(self) -> (r: u64)
        requires
            self.as_nat() < 0x1_0000_0000_0000_0000,
        ensures
            r == self.as_nat(),
    {
        self.limb0
    }

    /// Widens a native 32-bit signed value.  A negative input is
    /// reinterpreted as its unsigned 64-bit pattern — no range check — so
    /// callers must not pass negative values expecting a fault.
    pub fn from_i32(val: i32) -> (r: U256)
        ensures
            val >= 0 ==> r.as_nat() == val,
            val < 0 ==> r.as_nat() == val + 0x1_0000_0000_0000_0000,
    {
        if val >= 0 {
            U256::from_u64(val as u64)
        } else {
            let magnitude = (-(val as i64)) as u64;
            U256::from_u64((0xFFFF_FFFF_FFFF_FFFF - magnitude) + 1)
        }
    }

    /// Widens a native machine-word value through the 64-bit constructor.
    pub fn from_usize(val: usize) -> (r: U256)
        ensures
            r.as_nat() == val,
    {
        U256::from_u64(val as u64)
    }

    /// Narrows to a native machine-word value via the 64-bit path, then
    /// truncates to word size; the higher limbs must be zero, as for
    /// [`U256::to_u64`].
    pub fn to_usize(self) -> (r: usize)
        requires
            self.as_nat() < 0x1_0000_0000_0000_0000,
        ensures
            r as nat == self.as_nat() % (usize::MAX as nat + 1),
    {
        let wide = self.to_u64();
        let cap: u64 = usize::MAX as u64;
        if wide <= cap {
            proof {
                lemma_small_mod(wide as nat, usize::MAX as nat + 1);
            }
            wide as usize
        } else {
            (wide % (cap + 1)) as usize
        }
    }

    /// Schoolbook addition, least-significant limb first, with the carry of
    /// each limb fed into the next.  A mathematical sum that would need a
    /// fifth limb is a contract violation, not a wrapping result, so it is
    /// excluded by precondition.
    pub fn add(self, other: U256) -> (r: U256)
        requires
            self.as_nat() + other.as_nat() < u256_modulus(),
        ensures
            r.as_nat() == self.as_nat() + other.as_nat(),
    {
        let (r, carry) = self.add_carry(other);
        proof {
            if carry != 0 {
                assert(r.as_nat() + carry as nat * u256_modulus() >= u256_modulus());
            }
        }
        r
    }

    /// The carry-complete core of addition: the returned limbs plus the
    /// returned carry times `2^256` are exactly the mathematical sum.
    fn add_carry(self, other: U256) -> (r: (U256, u64))
        ensures
            r.0.as_nat() + r.1 as nat * u256_modulus() == self.as_nat() + other.as_nat(),
            r.1 <= 1,
    {
        let s0: u128 = self.limb0 as u128 + other.limb0 as u128;
        let r0: u64 = (s0 % 0x1_0000_0000_0000_0000u128) as u64;
        let c1: u64 = (s0 / 0x1_0000_0000_0000_0000u128) as u64;
        let s1: u128 = self.limb1 as u128 + other.limb1 as u128 + c1 as u128;
        let r1: u64 = (s1 % 0x1_0000_0000_0000_0000u128) as u64;
        let c2: u64 = (s1 / 0x1_0000_0000_0000_0000u128) as u64;
        let s2: u128 = self.limb2 as u128 + other.limb2 as u128 + c2 as u128;
        let r2: u64 = (s2 % 0x1_0000_0000_0000_0000u128) as u64;
        let c3: u64 = (s2 / 0x1_0000_0000_0000_0000u128) as u64;
        let s3: u128 = self.limb3 as u128 + other.limb3 as u128 + c3 as u128;
        let r3: u64 = (s3 % 0x1_0000_0000_0000_0000u128) as u64;
        let c4: u64 = (s3 / 0x1_0000_0000_0000_0000u128) as u64;
        proof {
            lemma_fundamental_div_mod(s0 as int, 0x1_0000_0000_0000_0000);
            lemma_fundamental_div_mod(s1 as int, 0x1_0000_0000_0000_0000);
            lemma_fundamental_div_mod(s2 as int, 0x1_0000_0000_0000_0000);
            lemma_fundamental_div_mod(s3 as int, 0x1_0000_0000_0000_0000);
        }
        (U256 { limb0: r0, limb1: r1, limb2: r2, limb3: r3 }, c4)
    }

    /// Addition modulo `2^256`: bits beyond the top limb are discarded.
    /// Multiplication accumulates its partial products through this.
    fn add_wrap(self, other: U256) -> (r: U256)
        ensures
            r.as_nat() == (self.as_nat() + other.as_nat()) % u256_modulus(),
    {
        let (r, carry) = self.add_carry(other);
        proof {
            lemma_fundamental_div_mod_converse(
                self.as_nat() + other.as_nat() as int,
                u256_modulus() as int,
                carry as int,
                r.as_nat() as int,
            );
        }
        r
    }

    /// Subtraction, defined as addition of the one's complement of the
    /// subtrahend — deliberately without the `+1` of two's complement, so
    /// `a - a` is the all-ones value, not zero.  It reuses addition's
    /// overflow trap, which here refuses any minuend larger than the
    /// subtrahend.
    pub fn sub(self, other: U256) -> (r: U256)
        requires
            self.as_nat() <= other.as_nat(),
        ensures
            r.as_nat() + other.as_nat() == self.as_nat() + u256_modulus() - 1,
    {
        self.add(other.not())
    }

    /// Exact subtraction with borrow propagation, for internal use by long
    /// division; the public [`U256::sub`] deliberately computes something
    /// else.
    fn sub_exact(self, other: U256) -> (r: U256)
        requires
            other.as_nat() <= self.as_nat(),
        ensures
            r.as_nat() == self.as_nat() - other.as_nat(),
    {
        let t0: u128 = (0x1_0000_0000_0000_0000u128 + self.limb0 as u128) - other.limb0 as u128;
        let r0: u64 = (t0 % 0x1_0000_0000_0000_0000u128) as u64;
        let b1: u64 = 1 - (t0 / 0x1_0000_0000_0000_0000u128) as u64;
        let t1: u128 = (0x1_0000_0000_0000_0000u128 + self.limb1 as u128) - other.limb1 as u128
            - b1 as u128;
        let r1: u64 = (t1 % 0x1_0000_0000_0000_0000u128) as u64;
        let b2: u64 = 1 - (t1 / 0x1_0000_0000_0000_0000u128) as u64;
        let t2: u128 = (0x1_0000_0000_0000_0000u128 + self.limb2 as u128) - other.limb2 as u128
            - b2 as u128;
        let r2: u64 = (t2 % 0x1_0000_0000_0000_0000u128) as u64;
        let b3: u64 = 1 - (t2 / 0x1_0000_0000_0000_0000u128) as u64;
        let t3: u128 = (0x1_0000_0000_0000_0000u128 + self.limb3 as u128) - other.limb3 as u128
            - b3 as u128;
        let r3: u64 = (t3 % 0x1_0000_0000_0000_0000u128) as u64;
        let b4: u64 = 1 - (t3 / 0x1_0000_0000_0000_0000u128) as u64;
        let r = U256 { limb0: r0, limb1: r1, limb2: r2, limb3: r3 };
        proof {
            lemma_fundamental_div_mod(t0 as int, 0x1_0000_0000_0000_0000);
            lemma_fundamental_div_mod(t1 as int, 0x1_0000_0000_0000_0000);
            lemma_fundamental_div_mod(t2 as int, 0x1_0000_0000_0000_0000);
            lemma_fundamental_div_mod(t3 as int, 0x1_0000_0000_0000_0000);
            assert(r.as_nat() == self.as_nat() - other.as_nat() + b4 as nat * u256_modulus());
            if b4 != 0 {
                assert(r.as_nat() >= u256_modulus());
            }
        }
        r
    }

    /// The low 32 bits of the value, unconditionally — no range check.
    /// Multiplication and division use this for sub-word extraction.
    pub fn low_u32(&self) -> (r: u32)
        ensures
            r as nat == self.as_nat() % 0x1_0000_0000,
    {
        let r: u64 = self.limb0 % 0x1_0000_0000;
        proof {
            lemma_fundamental_div_mod(self.limb0 as int, 0x1_0000_0000);
            lemma_fundamental_div_mod_converse(
                self.as_nat() as int,
                0x1_0000_0000,
                self.limb0 as int / 0x1_0000_0000 + self.limb1 as int * 0x1_0000_0000
                    + self.limb2 as int * 0x1_0000_0000_0000_0000_0000_0000
                    + self.limb3 as int * 0x1_0000_0000_0000_0000_0000_0000_0000_0000_0000_0000,
                r as int,
            );
        }
        r as u32
    }

    /// Multiplies by a 32-bit scalar.  Per-limb split multiplication with the
    /// carry pushed into the next limb; overflow beyond the top limb is
    /// silently dropped, so the result is the product modulo `2^256`.
    pub fn mul_u32(self, other: u32) -> (r: U256)
        ensures
            r.as_nat() == (self.as_nat() * other as nat) % u256_modulus(),
    {
        self.mul_u64_wrap(other as u64)
    }

    /// Multiplication by a 64-bit scalar, modulo `2^256`.
    fn mul_u64_wrap(self, scalar: u64) -> (r: U256)
        ensures
            r.as_nat() == (self.as_nat() * scalar as nat) % u256_modulus(),
    {
        let (r, carry) = self.mul_u64_carry(scalar);
        proof {
            lemma_fundamental_div_mod_converse(
                self.as_nat() * scalar as nat as int,
                u256_modulus() as int,
                carry as int,
                r.as_nat() as int,
            );
        }
        r
    }

    /// The carry-complete core of scalar multiplication: the returned limbs
    /// plus the returned carry times `2^256` are exactly the mathematical
    /// product.  Each limb's product is split by `2^64`; the high half is the
    /// next limb's carry-in.
    fn mul_u64_carry(self, scalar: u64) -> (r: (U256, u64))
        ensures
            r.0.as_nat() + r.1 as nat * u256_modulus() == self.as_nat() * scalar as nat,
    {
        proof {
            lemma_mul_upper_bound(
                self.limb0 as int,
                0xFFFF_FFFF_FFFF_FFFF,
                scalar as int,
                0xFFFF_FFFF_FFFF_FFFF,
            );
            lemma_mul_upper_bound(
                self.limb1 as int,
                0xFFFF_FFFF_FFFF_FFFF,
                scalar as int,
                0xFFFF_FFFF_FFFF_FFFF,
            );
            lemma_mul_upper_bound(
                self.limb2 as int,
                0xFFFF_FFFF_FFFF_FFFF,
                scalar as int,
                0xFFFF_FFFF_FFFF_FFFF,
            );
            lemma_mul_upper_bound(
                self.limb3 as int,
                0xFFFF_FFFF_FFFF_FFFF,
                scalar as int,
                0xFFFF_FFFF_FFFF_FFFF,
            );
        }
        let f0: u128 = self.limb0 as u128 * scalar as u128;
        let r0: u64 = (f0 % 0x1_0000_0000_0000_0000u128) as u64;
        let c1: u64 = (f0 / 0x1_0000_0000_0000_0000u128) as u64;
        let f1: u128 = self.limb1 as u128 * scalar as u128 + c1 as u128;
        let r1: u64 = (f1 % 0x1_0000_0000_0000_0000u128) as u64;
        let c2: u64 = (f1 / 0x1_0000_0000_0000_0000u128) as u64;
        let f2: u128 = self.limb2 as u128 * scalar as u128 + c2 as u128;
        let r2: u64 = (f2 % 0x1_0000_0000_0000_0000u128) as u64;
        let c3: u64 = (f2 / 0x1_0000_0000_0000_0000u128) as u64;
        let f3: u128 = self.limb3 as u128 * scalar as u128 + c3 as u128;
        let r3: u64 = (f3 % 0x1_0000_0000_0000_0000u128) as u64;
        let c4: u64 = (f3 / 0x1_0000_0000_0000_0000u128) as u64;
        let r = U256 { limb0: r0, limb1: r1, limb2: r2, limb3: r3 };
        proof {
            lemma_fundamental_div_mod(f0 as int, 0x1_0000_0000_0000_0000);
            lemma_fundamental_div_mod(f1 as int, 0x1_0000_0000_0000_0000);
            lemma_fundamental_div_mod(f2 as int, 0x1_0000_0000_0000_0000);
            lemma_fundamental_div_mod(f3 as int, 0x1_0000_0000_0000_0000);
            let a0 = self.limb0 as int;
            let a1 = self.limb1 as int;
            let a2 = self.limb2 as int;
            let a3 = self.limb3 as int;
            let p = scalar as int;
            assert((a0 + a1 * 0x1_0000_0000_0000_0000
                + a2 * 0x1_0000_0000_0000_0000_0000_0000_0000_0000int
                + a3 * 0x1_0000_0000_0000_0000_0000_0000_0000_0000_0000_0000_0000_0000int) * p
                == a0 * p + (a1 * p) * 0x1_0000_0000_0000_0000
                + (a2 * p) * 0x1_0000_0000_0000_0000_0000_0000_0000_0000int
                + (a3 * p) * 0x1_0000_0000_0000_0000_0000_0000_0000_0000_0000_0000_0000_0000int)
                by (nonlinear_arith);
        }
        (r, c4)
    }

    /// The bitwise one's complement: each limb complemented independently.
    pub fn not(self) -> (r: U256)
        ensures
            r.as_nat() == u256_modulus() - 1 - self.as_nat(),
    {
        U256 {
            limb0: 0xFFFF_FFFF_FFFF_FFFF - self.limb0,
            limb1: 0xFFFF_FFFF_FFFF_FFFF - self.limb1,
            limb2: 0xFFFF_FFFF_FFFF_FFFF - self.limb2,
            limb3: 0xFFFF_FFFF_FFFF_FFFF - self.limb3,
        }
    }

    /// The number of bits required to represent the value: the 1-based
    /// position of the highest set bit, and 0 for the zero value.  Scans the
    /// limbs from the most significant down.
    pub fn bits(&self) -> (n: usize)
        ensures
            n <= 256,
            self.as_nat() < pow2(n as nat),
            n > 0 ==> pow2((n - 1) as nat) <= self.as_nat(),
            n == 0 ==> self.as_nat() == 0,
    {
        proof {
            lemma_pow2_limb_values();
        }
        if self.limb3 > 0 {
            let k = u64_bit_len(self.limb3);
            proof {
                lemma_pow2_adds(192, k as nat);
                lemma_pow2_adds(192, (k - 1) as nat);
                lemma_mul_inequality(
                    pow2((k - 1) as nat) as int,
                    self.limb3 as int,
                    0x1_0000_0000_0000_0000_0000_0000_0000_0000_0000_0000_0000_0000int,
                );
                lemma_mul_inequality(
                    self.limb3 as int + 1,
                    pow2(k as nat) as int,
                    0x1_0000_0000_0000_0000_0000_0000_0000_0000_0000_0000_0000_0000int,
                );
            }
            192 + k
        } else if self.limb2 > 0 {
            let k = u64_bit_len(self.limb2);
            proof {
                lemma_pow2_adds(128, k as nat);
                lemma_pow2_adds(128, (k - 1) as nat);
                lemma_mul_inequality(
                    pow2((k - 1) as nat) as int,
                    self.limb2 as int,
                    0x1_0000_0000_0000_0000_0000_0000_0000_0000int,
                );
                lemma_mul_inequality(
                    self.limb2 as int + 1,
                    pow2(k as nat) as int,
                    0x1_0000_0000_0000_0000_0000_0000_0000_0000int,
                );
            }
            128 + k
        } else if self.limb1 > 0 {
            let k = u64_bit_len(self.limb1);
            proof {
                lemma_pow2_adds(64, k as nat);
                lemma_pow2_adds(64, (k - 1) as nat);
                lemma_mul_inequality(
                    pow2((k - 1) as nat) as int,
                    self.limb1 as int,
                    0x1_0000_0000_0000_0000,
                );
                lemma_mul_inequality(
                    self.limb1 as int + 1,
                    pow2(k as nat) as int,
                    0x1_0000_0000_0000_0000,
                );
            }
            64 + k
        } else {
            u64_bit_len(self.limb0)
        }
    }

    /// Full multiplication, modulo `2^256`.  The right operand is taken
    /// apart into eight 32-bit chunks, least significant first; each chunk's
    /// partial product is shifted into place and accumulated.  Unlike
    /// addition, multiplication never traps: bits above the top limb are
    /// silently dropped.
    pub fn mul(self, other: U256) -> (r: U256)
        ensures
            r.as_nat() == (self.as_nat() * other.as_nat()) % u256_modulus(),
    {
        let mut acc = U256::zero();
        let mut i: usize = 0;
        proof {
            lemma2_to64();
            vstd::arithmetic::mul::lemma_mul_basics(self.as_nat() as int);
            lemma_small_mod(0, u256_modulus());
            lemma_small_mod(0, 1);
        }
        while i < 8
            invariant
                i <= 8,
                acc.as_nat() == (self.as_nat() * (other.as_nat() % pow2((32 * i) as nat)))
                    % u256_modulus(),
            decreases 8 - i,
        {
            let chunk = other.shr(32 * i).low_u32();
            let part = self.mul_u32(chunk);
            let shifted = part.shl(32 * i);
            let next = acc.add_wrap(shifted);
            proof {
                let a = self.as_nat() as int;
                let b = other.as_nat() as int;
                let m = u256_modulus() as int;
                let p = pow2((32 * i) as nat) as int;
                let c = chunk as int;
                lemma_pow2_limb_values();
                lemma_pow2_pos((32 * i) as nat);
                lemma_mul_mod_noop_left(a * c, p, m);
                lemma_add_mod_noop(a * (b % p), a * c * p, m);
                lemma_mul_is_associative(a, c, p);
                lemma_mul_is_distributive_add(a, b % p, c * p);
                lemma_mod_breakdown(b, p, 0x1_0000_0000);
                lemma_mul_is_commutative(c, p);
                lemma_pow2_adds((32 * i) as nat, 32);
                assert((32 * (i + 1)) as nat == (32 * i) as nat + 32);
            }
            acc = next;
            i = i + 1;
        }
        proof {
            lemma_pow2_limb_values();
            lemma_small_mod(other.as_nat(), pow2(256));
        }
        acc
    }

    /// Integer division by bitwise long division: the divisor is aligned
    /// under the dividend's highest set bit, then walked down one bit
    /// position at a time, subtracting wherever it still fits and recording
    /// that position's quotient bit.  Division by the zero value is a
    /// contract violation and is excluded by precondition.  Only the
    /// quotient is returned; the result is exact truncating division.
    #[verifier::rlimit(50)]
    pub fn div(self, other: U256) -> (r: U256)
        requires
            other.as_nat() > 0,
        ensures
            r.as_nat() == self.as_nat() / other.as_nat(),
    {
        let my_bits = self.bits();
        let your_bits = other.bits();
        if my_bits < your_bits {
            proof {
                if my_bits < your_bits - 1 {
                    lemma_pow2_strictly_increases(my_bits as nat, (your_bits - 1) as nat);
                }
                lemma_basic_div(self.as_nat() as int, other.as_nat() as int);
            }
            return U256::zero();
        }
        let shift = my_bits - your_bits;
        let mut divisor = other.shl(shift);
        let mut rem = self;
        let mut quot = U256::zero();
        proof {
            lemma_pow2_limb_values();
            lemma_aligned_divisor_bounds(
                self.as_nat(),
                other.as_nat(),
                your_bits as nat,
                shift as nat,
            );
            lemma_small_mod((other.as_nat() * pow2(shift as nat)) as nat, u256_modulus());
            vstd::arithmetic::mul::lemma_mul_basics(other.as_nat() as int);
            lemma_pow2_pos((shift + 1) as nat);
            lemma_small_mod(0, pow2((shift + 1) as nat));
        }
        let mut s: usize = shift + 1;
        while s > 0
            invariant
                s <= 256,
                other.as_nat() > 0,
                s > 0 ==> divisor.as_nat() == other.as_nat() * pow2((s - 1) as nat),
                rem.as_nat() < other.as_nat() * pow2(s as nat),
                self.as_nat() == quot.as_nat() * other.as_nat() + rem.as_nat(),
                quot.as_nat() % pow2(s as nat) == 0,
            decreases s,
        {
            let sh = s - 1;
            let ghost b = other.as_nat() as int;
            proof {
                lemma2_to64();
                lemma_pow2_pos(sh as nat);
                lemma_pow2_pos(s as nat);
                lemma_pow2_adds(sh as nat, 1);
            }
            if rem.ge(&divisor) {
                let bit = U256::from_u64(1).shl(sh);
                proof {
                    // the shifted unit bit is exactly 2^sh
                    lemma_pow2_strictly_increases(sh as nat, 256);
                    lemma_pow2_limb_values();
                    vstd::arithmetic::mul::lemma_mul_basics(pow2(sh as nat) as int);
                    lemma_small_mod(pow2(sh as nat), u256_modulus());
                    // a quotient that is a multiple of 2^s has room for 2^sh
                    lemma_quotient_bit_room(quot.as_nat(), s as nat);
                }
                let ghost old_quot = quot.as_nat() as int;
                quot = quot.add(bit);
                proof {
                    // the new quotient bit adds 2^sh copies of the divisor
                    lemma_mul_is_distributive_add_other_way(
                        b,
                        old_quot,
                        pow2(sh as nat) as int,
                    );
                    lemma_mul_is_commutative(pow2(sh as nat) as int, b);
                }
                rem = rem.sub_exact(divisor);
            } else {
                proof {
                    // an untouched quotient stays a multiple of 2^sh
                    lemma_pow2_limb_values();
                    lemma_quotient_bit_room(quot.as_nat(), s as nat);
                }
            }
            proof {
                // half the window bounds what is left: b*2^s == 2*(b*2^sh)
                lemma_mul_pow2_double(other.as_nat(), sh as nat);
            }
            if sh > 0 {
                divisor = divisor.shr(1);
                proof {
                    lemma_mul_pow2_halves(other.as_nat(), sh as nat);
                    lemma2_to64();
                }
            }
            s = sh;
        }
        proof {
            lemma2_to64();
            vstd::arithmetic::mul::lemma_mul_basics(other.as_nat() as int);
            lemma_fundamental_div_mod_converse(
                self.as_nat() as int,
                other.as_nat() as int,
                quot.as_nat() as int,
                rem.as_nat() as int,
            );
        }
        quot
    }

    /// Three-way comparison: lexicographic from the most-significant limb
    /// down, which orders values exactly by their represented magnitude.
    pub fn cmp(&self, other: &U256) -> (r: core::cmp::Ordering)
        ensures
            r == core::cmp::Ordering::Less <==> self.as_nat() < other.as_nat(),
            r == core::cmp::Ordering::Equal <==> self.as_nat() == other.as_nat(),
            r == core::cmp::Ordering::Greater <==> self.as_nat() > other.as_nat(),
    {
        if self.limb3 < other.limb3 {
            core::cmp::Ordering::Less
        } else if self.limb3 > other.limb3 {
            core::cmp::Ordering::Greater
        } else if self.limb2 < other.limb2 {
            core::cmp::Ordering::Less
        } else if self.limb2 > other.limb2 {
            core::cmp::Ordering::Greater
        } else if self.limb1 < other.limb1 {
            core::cmp::Ordering::Less
        } else if self.limb1 > other.limb1 {
            core::cmp::Ordering::Greater
        } else if self.limb0 < other.limb0 {
            core::cmp::Ordering::Less
        } else if self.limb0 > other.limb0 {
            core::cmp::Ordering::Greater
        } else {
            core::cmp::Ordering::Equal
        }
    }

    /// Three-way comparison wrapped in `Option`, as the partial-order
    /// interface expects; the order on these values is total, so the result
    /// is never absent.
    pub fn partial_cmp(&self, other: &U256) -> (r: Option<core::cmp::Ordering>)
        ensures
            r == Some(core::cmp::Ordering::Less) <==> self.as_nat() < other.as_nat(),
            r == Some(core::cmp::Ordering::Equal) <==> self.as_nat() == other.as_nat(),
            r == Some(core::cmp::Ordering::Greater) <==> self.as_nat() > other.as_nat(),
            r is Some,
    {
        Some(self.cmp(other))
    }

    /// Whether this value is at least `other`; division's loop tests this.
    pub fn ge(&self, other: &U256) -> (r: bool)
        ensures
            r <==> self.as_nat() >= other.as_nat(),
    {
        !matches!(self.cmp(other), core::cmp::Ordering::Less)
    }

    /// Moves the limbs up by `words` whole limbs; bits moved past the top
    /// are discarded.
    fn shl_words(self, words: usize) -> (r: U256)
        requires
            words <= 3,
        ensures
            r.as_nat() == (self.as_nat() * pow2((64 * words) as nat)) % u256_modulus(),
    {
        proof {
            lemma_pow2_limb_values();
            lemma_pow2_adds(64, 64);
            lemma_pow2_adds(128, 64);
        }
        if words == 0 {
            proof {
                vstd::arithmetic::power2::lemma2_to64();
                lemma_small_mod(self.as_nat(), u256_modulus());
                lemma_mul_basics(self.as_nat() as int);
                assert(self.as_nat() * pow2((64 * words) as nat) == self.as_nat() * 1nat);
            }
            self
        } else if words == 1 {
            let r = U256 { limb0: 0, limb1: self.limb0, limb2: self.limb1, limb3: self.limb2 };
            proof {
                lemma_fundamental_div_mod_converse(
                    self.as_nat() * pow2(64) as int,
                    u256_modulus() as int,
                    self.limb3 as int,
                    r.as_nat() as int,
                );
            }
            r
        } else if words == 2 {
            let r = U256 { limb0: 0, limb1: 0, limb2: self.limb0, limb3: self.limb1 };
            proof {
                lemma_fundamental_div_mod_converse(
                    self.as_nat() * pow2(128) as int,
                    u256_modulus() as int,
                    self.limb2 as int + self.limb3 as int * 0x1_0000_0000_0000_0000,
                    r.as_nat() as int,
                );
            }
            r
        } else {
            let r = U256 { limb0: 0, limb1: 0, limb2: 0, limb3: self.limb0 };
            proof {
                lemma_fundamental_div_mod_converse(
                    self.as_nat() * pow2(192) as int,
                    u256_modulus() as int,
                    self.limb1 as int + self.limb2 as int * 0x1_0000_0000_0000_0000
                        + self.limb3 as int
                            * 0x1_0000_0000_0000_0000_0000_0000_0000_0000int,
                    r.as_nat() as int,
                );
            }
            r
        }
    }

    /// Moves the limbs down by `words` whole limbs: division by a power of
    /// `2^64`.
    fn shr_words(self, words: usize) -> (r: U256)
        requires
            words <= 3,
        ensures
            r.as_nat() == self.as_nat() / pow2((64 * words) as nat),
    {
        proof {
            lemma_pow2_limb_values();
            lemma_pow2_adds(64, 64);
            lemma_pow2_adds(128, 64);
        }
        if words == 0 {
            proof {
                vstd::arithmetic::power2::lemma2_to64();
                lemma_div_multiples_vanish(self.as_nat() as int, 1);
                assert(self.as_nat() / pow2((64 * words) as nat) == self.as_nat() / 1nat);
            }
            self
        } else if words == 1 {
            let r = U256 { limb0: self.limb1, limb1: self.limb2, limb2: self.limb3, limb3: 0 };
            proof {
                lemma_fundamental_div_mod_converse(
                    self.as_nat() as int,
                    pow2(64) as int,
                    r.as_nat() as int,
                    self.limb0 as int,
                );
            }
            r
        } else if words == 2 {
            let r = U256 { limb0: self.limb2, limb1: self.limb3, limb2: 0, limb3: 0 };
            proof {
                lemma_fundamental_div_mod_converse(
                    self.as_nat() as int,
                    pow2(128) as int,
                    r.as_nat() as int,
                    self.limb0 as int + self.limb1 as int * 0x1_0000_0000_0000_0000,
                );
            }
            r
        } else {
            let r = U256 { limb0: self.limb3, limb1: 0, limb2: 0, limb3: 0 };
            proof {
                lemma_fundamental_div_mod_converse(
                    self.as_nat() as int,
                    pow2(192) as int,
                    r.as_nat() as int,
                    self.limb0 as int + self.limb1 as int * 0x1_0000_0000_0000_0000
                        + self.limb2 as int
                            * 0x1_0000_0000_0000_0000_0000_0000_0000_0000int,
                );
            }
            r
        }
    }

    /// Logical left shift by any bit count.  The shift splits into a
    /// whole-limb move and a sub-limb multiplication by a power of two; bits
    /// pushed past the 256-bit boundary are silently discarded, so the
    /// result is `value * 2^shift` modulo `2^256`.
    pub fn shl(self, shift: usize) -> (r: U256)
        ensures
            r.as_nat() == (self.as_nat() * pow2(shift as nat)) % u256_modulus(),
    {
        if shift >= 256 {
            proof {
                lemma_pow2_limb_values();
                lemma_pow2_adds(256, (shift - 256) as nat);
                let a = self.as_nat() as int;
                let m = u256_modulus() as int;
                let q = pow2((shift - 256) as nat) as int;
                lemma_mul_is_commutative(m, q);
                lemma_mul_is_associative(a, q, m);
                lemma_mod_multiples_basic(a * q, m);
            }
            U256::zero()
        } else {
            let words = shift / 64;
            let bits = shift % 64;
            let moved = self.shl_words(words);
            proof {
                lemma_fundamental_div_mod(shift as int, 64);
            }
            if bits == 0 {
                moved
            } else {
                let p = pow2_u64(bits as u64);
                let r = moved.mul_u64_wrap(p);
                proof {
                    let a = self.as_nat() as int;
                    let m = u256_modulus() as int;
                    let pw = pow2((64 * words) as nat) as int;
                    let pb = pow2(bits as nat) as int;
                    lemma_mul_mod_noop_left(a * pw, pb, m);
                    lemma_mul_is_associative(a, pw, pb);
                    lemma_pow2_adds((64 * words) as nat, bits as nat);
                }
                r
            }
        }
    }

    /// Logical right shift by any bit count: division by `2^shift`, with the
    /// shifted-out bits discarded.
    pub fn shr(self, shift: usize) -> (r: U256)
        ensures
            r.as_nat() == self.as_nat() / pow2(shift as nat),
    {
        if shift >= 256 {
            proof {
                lemma_pow2_limb_values();
                if shift > 256 {
                    lemma_pow2_strictly_increases(256, shift as nat);
                }
                lemma_basic_div(self.as_nat() as int, pow2(shift as nat) as int);
            }
            U256::zero()
        } else {
            let words = shift / 64;
            let bits = shift % 64;
            let moved = self.shr_words(words);
            proof {
                lemma_fundamental_div_mod(shift as int, 64);
            }
            if bits == 0 {
                moved
            } else {
                let q = pow2_u64((64 - bits) as u64);
                let (v, carry) = moved.mul_u64_carry(q);
                let r = U256 { limb0: v.limb1, limb1: v.limb2, limb2: v.limb3, limb3: carry };
                proof {
                    let w = moved.as_nat() as int;
                    let qi = q as int;
                    let pb = pow2(bits as nat) as int;
                    lemma_pow2_limb_values();
                    lemma_pow2_pos(bits as nat);
                    lemma_pow2_pos((64 - bits) as nat);
                    lemma_pow2_pos((64 * words) as nat);
                    lemma_pow2_adds((64 - bits) as nat, bits as nat);
                    // w * q == r.as_nat() * 2^64 + v.limb0, so dividing the
                    // product by 2^64 yields exactly the shifted limbs.
                    lemma_fundamental_div_mod_converse(
                        w * qi,
                        pow2(64) as int,
                        r.as_nat() as int,
                        v.limb0 as int,
                    );
                    // w / 2^bits == (w * q) / (q * 2^bits) == (w * q) / 2^64
                    lemma_mul_is_commutative(w, qi);
                    lemma_div_multiples_vanish(w, qi);
                    lemma_div_denominator(w * qi, qi, pb);
                    // and the two whole-limb and sub-limb divisions compose.
                    lemma_div_denominator(
                        self.as_nat() as int,
                        pow2((64 * words) as nat) as int,
                        pb,
                    );
                    lemma_pow2_adds((64 * words) as nat, bits as nat);
                }
                r
            }
        }
    }
}

} // verus!
