//! Shared arithmetic facts about powers of two used throughout the crate.

use vstd::prelude::*;
use vstd::arithmetic::power2::{
    pow2,
    lemma2_to64,
    lemma2_to64_rest,
    lemma_pow2_adds,
    lemma_pow2_strictly_increases,
    lemma_pow2_pos,
};

verus! {

/// Computes `2^e` as a native 64-bit value, for exponents below 64.
pub fn pow2_u64(e: u64) -> (r: u64)
    requires
        e < 64,
    ensures
        r as nat == pow2(e as nat),
{
    let mut p: u64 = 1;
    let mut i: u64 = 0;
    proof {
        lemma2_to64();
    }
    while i < e
        invariant
            i <= e < 64,
            p as nat == pow2(i as nat),
        decreases e - i,
    {
        proof {
            lemma_pow2_strictly_increases(i as nat, 63);
            lemma2_to64_rest();
            lemma_pow2_adds(i as nat, 1);
            lemma2_to64();
        }
        p = p * 2;
        i = i + 1;
    }
    p
}

/// The number of bits needed to represent a 64-bit value: the position of
/// its highest set bit, counted from one, and zero for zero.
pub fn u64_bit_len(x: u64) -> (n: usize)
    ensures
        n <= 64,
        (x as nat) < pow2(n as nat),
        n > 0 ==> pow2((n - 1) as nat) <= x as nat,
        n == 0 ==> x == 0,
{
    let mut y: u64 = x;
    let mut n: usize = 0;
    proof {
        lemma2_to64();
        lemma2_to64_rest();
        vstd::arithmetic::div_mod::lemma_div_multiples_vanish(x as int, 1);
    }
    while y > 0
        invariant
            n <= 64,
            y as nat == x as nat / pow2(n as nat),
            n > 0 ==> pow2((n - 1) as nat) <= x as nat,
        decreases y,
    {
        proof {
            lemma2_to64();
            lemma2_to64_rest();
            lemma_pow2_pos(n as nat);
            // x / 2^n > 0 forces x >= 2^n, and x < 2^64 forces n < 64.
            vstd::arithmetic::div_mod::lemma_fundamental_div_mod(x as int, pow2(n as nat) as int);
            vstd::arithmetic::mul::lemma_mul_left_inequality(pow2(n as nat) as int, 1, y as int);
            vstd::arithmetic::mul::lemma_mul_basics(pow2(n as nat) as int);
            if n == 64 {
                vstd::arithmetic::div_mod::lemma_basic_div(x as int, pow2(n as nat) as int);
            }
            // halving the quotient steps the exponent by one
            vstd::arithmetic::div_mod::lemma_div_denominator(x as int, pow2(n as nat) as int, 2);
            lemma_pow2_adds(n as nat, 1);
        }
        y = y / 2;
        n = n + 1;
    }
    proof {
        lemma_pow2_pos(n as nat);
        vstd::arithmetic::div_mod::lemma_fundamental_div_mod(x as int, pow2(n as nat) as int);
        vstd::arithmetic::mul::lemma_mul_basics(pow2(n as nat) as int);
        vstd::arithmetic::div_mod::lemma_mod_division_less_than_divisor(
            x as int,
            pow2(n as nat) as int,
        );
    }
    n
}

/// Doubling the exponent's power doubles a multiple of it:
/// `b * 2^(e+1) == 2 * (b * 2^e)`.
pub proof fn lemma_mul_pow2_double(b: nat, e: nat)
    ensures
        b * pow2(e + 1) == 2 * (b * pow2(e)),
{
    lemma2_to64();
    lemma_pow2_adds(e, 1);
    vstd::arithmetic::mul::lemma_mul_is_associative(b as int, pow2(e) as int, 2);
    vstd::arithmetic::mul::lemma_mul_is_commutative(pow2(e) as int, 2);
    vstd::arithmetic::mul::lemma_mul_is_commutative(b as int * pow2(e) as int, 2);
}

/// Halving a multiple of `2^e` steps the exponent down by one.
pub proof fn lemma_mul_pow2_halves(b: nat, e: nat)
    requires
        e >= 1,
    ensures
        (b * pow2(e)) / 2 == b * pow2((e - 1) as nat),
{
    lemma_mul_pow2_double(b, (e - 1) as nat);
    vstd::arithmetic::div_mod::lemma_div_multiples_vanish((b * pow2((e - 1) as nat)) as int, 2);
}

/// A divisor aligned under the dividend's highest set bit: it still fits in
/// 256 bits, and two copies of it exceed the dividend.  Here `yb` is the
/// divisor's bit length and `yb + shift` bounds the dividend's.
pub proof fn lemma_aligned_divisor_bounds(a: nat, b: nat, yb: nat, shift: nat)
    requires
        yb >= 1,
        pow2((yb - 1) as nat) <= b,
        b < pow2(yb),
        a < pow2(yb + shift),
        yb + shift <= 256,
    ensures
        b * pow2(shift) < pow2(256),
        a < b * pow2(shift + 1),
{
    lemma_pow2_pos(shift);
    lemma_pow2_pos(shift + 1);
    lemma_pow2_pos((yb - 1) as nat);
    vstd::arithmetic::mul::lemma_mul_inequality(
        b as int,
        pow2(yb) as int - 1,
        pow2(shift) as int,
    );
    vstd::arithmetic::mul::lemma_mul_is_distributive_sub_other_way(
        pow2(shift) as int,
        pow2(yb) as int,
        1,
    );
    vstd::arithmetic::mul::lemma_mul_basics(pow2(shift) as int);
    lemma_pow2_adds(yb, shift);
    if yb + shift < 256 {
        lemma_pow2_strictly_increases(yb + shift, 256);
    }
    vstd::arithmetic::mul::lemma_mul_left_inequality(
        pow2(shift + 1) as int,
        pow2((yb - 1) as nat) as int,
        b as int,
    );
    vstd::arithmetic::mul::lemma_mul_is_commutative(pow2(shift + 1) as int, b as int);
    vstd::arithmetic::mul::lemma_mul_is_commutative(
        pow2((yb - 1) as nat) as int,
        pow2(shift + 1) as int,
    );
    lemma_pow2_adds((yb - 1) as nat, shift + 1);
}

/// A quotient under `2^256` that is a multiple of `2^s` has room for one
/// more bit at position `s - 1`, and both it and the grown value are
/// multiples of `2^(s-1)`.
pub proof fn lemma_quotient_bit_room(q: nat, s: nat)
    requires
        1 <= s <= 256,
        q < pow2(256),
        q % pow2(s) == 0,
    ensures
        q + pow2((s - 1) as nat) < pow2(256),
        q % pow2((s - 1) as nat) == 0,
        (q + pow2((s - 1) as nat)) % pow2((s - 1) as nat) == 0,
{
    let sh = (s - 1) as nat;
    let ps = pow2(s) as int;
    let psh = pow2(sh) as int;
    let qi = q as int;
    lemma_pow2_pos(s);
    lemma_pow2_pos(sh);
    lemma_pow2_pos((256 - s) as nat);
    vstd::arithmetic::div_mod::lemma_fundamental_div_mod(qi, ps);
    lemma_pow2_adds(s, (256 - s) as nat);
    vstd::arithmetic::div_mod::lemma_multiply_divide_lt(qi, ps, pow2((256 - s) as nat) as int);
    vstd::arithmetic::mul::lemma_mul_left_inequality(
        ps,
        qi / ps,
        pow2((256 - s) as nat) as int - 1,
    );
    vstd::arithmetic::mul::lemma_mul_is_distributive_sub(ps, pow2((256 - s) as nat) as int, 1);
    vstd::arithmetic::mul::lemma_mul_basics(ps);
    vstd::arithmetic::mul::lemma_mul_basics(psh);
    lemma_mul_pow2_double(1, sh);
    assert(pow2(s) == 2 * pow2(sh));
    assert(qi == (2 * (qi / ps)) * psh) by {
        vstd::arithmetic::mul::lemma_mul_is_associative(qi / ps, 2, psh);
        vstd::arithmetic::mul::lemma_mul_is_commutative(qi / ps, 2);
        vstd::arithmetic::mul::lemma_mul_is_commutative(qi / ps, ps);
        vstd::arithmetic::mul::lemma_mul_is_commutative(psh, 2);
    }
    vstd::arithmetic::div_mod::lemma_mod_multiples_basic(2 * (qi / ps), psh);
    assert(qi + psh == (2 * (qi / ps) + 1) * psh) by {
        vstd::arithmetic::mul::lemma_mul_is_distributive_add_other_way(psh, 2 * (qi / ps), 1);
        vstd::arithmetic::mul::lemma_mul_basics(psh);
    }
    vstd::arithmetic::div_mod::lemma_mod_multiples_basic(2 * (qi / ps) + 1, psh);
}

/// The values of the powers of two that sit at the limb boundaries of a
/// 256-bit integer, as literals.
pub proof fn lemma_pow2_limb_values()
    ensures
        pow2(32) == 0x1_0000_0000,
        pow2(64) == 0x1_0000_0000_0000_0000,
        pow2(128) == 0x1_0000_0000_0000_0000_0000_0000_0000_0000nat,
        pow2(192) == 0x1_0000_0000_0000_0000_0000_0000_0000_0000_0000_0000_0000_0000nat,
        pow2(256)
            == 0x1_0000_0000_0000_0000_0000_0000_0000_0000_0000_0000_0000_0000_0000_0000_0000_0000nat,
{
    lemma2_to64();
    lemma_pow2_adds(64, 64);
    lemma_pow2_adds(128, 64);
    lemma_pow2_adds(192, 64);
}

} // verus!
