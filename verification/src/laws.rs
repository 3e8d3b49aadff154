//! Algebraic laws of the operator suite, stated over the same mathematical
//! values the operators' contracts use and proved once for all inputs.

use vstd::prelude::*;
use vstd::arithmetic::power2::{pow2, lemma_pow2_adds, lemma_pow2_strictly_increases, lemma_pow2_pos};
use vstd::arithmetic::div_mod::{
    lemma_fundamental_div_mod,
    lemma_mod_division_less_than_divisor,
    lemma_fundamental_div_mod_converse,
    lemma_small_mod,
    lemma_mod_multiples_basic,
    lemma_div_multiples_vanish,
    lemma_basic_div,
};
use vstd::arithmetic::mul::{
    lemma_mul_basics,
    lemma_mul_is_commutative,
    lemma_mul_is_associative,
    lemma_mul_strict_inequality,
};
use crate::math::lemma_pow2_limb_values;
use crate::u256::{U256, u256_modulus};

verus! {

/// Subtracting a value from itself yields the all-ones value, not zero:
/// `a - a` adds `a` to the one's complement of `a`, and `a + (2^256 - 1 - a)`
/// is `2^256 - 1`.
pub proof fn lemma_sub_self_is_all_ones(a: U256, r: U256)
    requires
        r.as_nat() + a.as_nat() == a.as_nat() + u256_modulus() - 1,
    ensures
        r.as_nat() == u256_modulus() - 1,
{
}

/// Addition is commutative: the sum the contracts promise does not depend
/// on the order of the operands.
pub proof fn lemma_add_commutes(a: U256, b: U256)
    ensures
        a.as_nat() + b.as_nat() == b.as_nat() + a.as_nat(),
{
}

/// Multiplying by the zero value yields the zero value.
pub proof fn lemma_mul_by_zero(a: U256)
    ensures
        (a.as_nat() * 0) % u256_modulus() == 0,
{
    lemma_mul_basics(a.as_nat() as int);
    lemma_small_mod(0, u256_modulus());
}

/// Multiplying by one — the 64-bit constructor applied to `1` — yields the
/// value unchanged.
pub proof fn lemma_mul_by_one(a: U256)
    ensures
        (a.as_nat() * 1) % u256_modulus() == a.as_nat(),
{
    lemma_mul_basics(a.as_nat() as int);
    a.lemma_as_nat_bound();
    lemma_small_mod(a.as_nat(), u256_modulus());
}

/// The integer-division bound: for a nonzero divisor the quotient times the
/// divisor reaches at most the dividend, and one more copy of the divisor
/// exceeds it.
pub proof fn lemma_div_quotient_bound(a: nat, b: nat)
    requires
        b > 0,
    ensures
        (a / b) * b <= a < (a / b) * b + b,
{
    lemma_fundamental_div_mod(a as int, b as int);
    lemma_mod_division_less_than_divisor(a as int, b as int);
    lemma_mul_is_commutative((a / b) as int, b as int);
}

/// A left shift that pushes no bit past the 256-bit boundary is undone by
/// the matching right shift.
pub proof fn lemma_shl_then_shr_restores(a: U256, m: nat)
    requires
        m < 256,
        a.as_nat() < pow2((256 - m) as nat),
    ensures
        ((a.as_nat() * pow2(m)) % u256_modulus()) / pow2(m) == a.as_nat(),
{
    let v = a.as_nat() as int;
    let p = pow2(m) as int;
    lemma_pow2_pos(m);
    lemma_pow2_pos((256 - m) as nat);
    lemma_pow2_adds((256 - m) as nat, m);
    lemma_pow2_limb_values();
    if a.as_nat() > 0 {
        lemma_mul_strict_inequality(v, pow2((256 - m) as nat) as int, p);
    } else {
        lemma_mul_basics(p);
    }
    lemma_mul_is_commutative(v, p);
    lemma_small_mod((a.as_nat() * pow2(m)) as nat, u256_modulus());
    lemma_div_multiples_vanish(v, p);
}

/// Shifting by 256 or more bits yields the zero value in both directions.
pub proof fn lemma_shift_past_width(a: U256, m: nat)
    requires
        m >= 256,
    ensures
        (a.as_nat() * pow2(m)) % u256_modulus() == 0,
        a.as_nat() / pow2(m) == 0,
{
    let v = a.as_nat() as int;
    lemma_pow2_limb_values();
    lemma_pow2_pos((m - 256) as nat);
    lemma_pow2_pos(m);
    lemma_pow2_adds(256, (m - 256) as nat);
    let q = pow2((m - 256) as nat) as int;
    let b = u256_modulus() as int;
    lemma_mul_is_commutative(b, q);
    lemma_mul_is_associative(v, q, b);
    lemma_mod_multiples_basic(v * q, b);
    a.lemma_as_nat_bound();
    if m > 256 {
        lemma_pow2_strictly_increases(256, m);
    }
    lemma_basic_div(v, pow2(m) as int);
}

/// Equal mathematical values are the same limbs: the representation hides
/// nothing, so equality of values and equality of the structures coincide.
pub proof fn lemma_value_determines_limbs(a: U256, b: U256)
    requires
        a.as_nat() == b.as_nat(),
    ensures
        a == b,
{
    lemma_limb_decomposition(a);
    lemma_limb_decomposition(b);
}

/// Each limb is a digit of the value in base `2^64`: limb `i` is the value
/// divided by `2^(64 i)`, modulo `2^64`.
pub proof fn lemma_limb_decomposition(a: U256)
    ensures
        a.limb0 as nat == a.as_nat() % 0x1_0000_0000_0000_0000,
        a.limb1 as nat == (a.as_nat() / 0x1_0000_0000_0000_0000) % 0x1_0000_0000_0000_0000,
        a.limb2 as nat == (a.as_nat() / 0x1_0000_0000_0000_0000_0000_0000_0000_0000nat)
            % 0x1_0000_0000_0000_0000,
        a.limb3 as nat
            == a.as_nat() / 0x1_0000_0000_0000_0000_0000_0000_0000_0000_0000_0000_0000_0000nat,
{
    let v = a.as_nat() as int;
    let k: int = 0x1_0000_0000_0000_0000;
    lemma_fundamental_div_mod_converse(
        v,
        k,
        a.limb1 as int + a.limb2 as int * k
            + a.limb3 as int * 0x1_0000_0000_0000_0000_0000_0000_0000_0000int,
        a.limb0 as int,
    );
    lemma_fundamental_div_mod_converse(
        v,
        0x1_0000_0000_0000_0000_0000_0000_0000_0000int,
        a.limb2 as int + a.limb3 as int * k,
        a.limb0 as int + a.limb1 as int * k,
    );
    lemma_fundamental_div_mod_converse(
        v,
        0x1_0000_0000_0000_0000_0000_0000_0000_0000_0000_0000_0000_0000int,
        a.limb3 as int,
        a.limb0 as int + a.limb1 as int * k
            + a.limb2 as int * 0x1_0000_0000_0000_0000_0000_0000_0000_0000int,
    );
    lemma_fundamental_div_mod_converse(
        (a.as_nat() / (k as nat)) as int,
        k,
        a.limb2 as int + a.limb3 as int * k,
        a.limb1 as int,
    );
    lemma_fundamental_div_mod_converse(
        (a.as_nat() / 0x1_0000_0000_0000_0000_0000_0000_0000_0000nat) as int,
        k,
        a.limb3 as int,
        a.limb2 as int,
    );
}

/// The ordering is a total order consistent with equality: of `a < b`,
/// `a == b` and `a > b`, exactly one holds for any pair of values, and the
/// middle case holds exactly when the two are the same limbs.
pub proof fn lemma_order_trichotomy(a: U256, b: U256)
    ensures
        a.as_nat() < b.as_nat() || a.as_nat() == b.as_nat() || a.as_nat() > b.as_nat(),
        !(a.as_nat() < b.as_nat() && a.as_nat() == b.as_nat()),
        !(a.as_nat() == b.as_nat() && a.as_nat() > b.as_nat()),
        !(a.as_nat() < b.as_nat() && a.as_nat() > b.as_nat()),
        a.as_nat() == b.as_nat() <==> a == b,
{
    if a.as_nat() == b.as_nat() {
        lemma_value_determines_limbs(a, b);
    }
}

} // verus!
