use u256::U256;
use std::cmp::Ordering;

fn limbs(limb0: u64, limb1: u64, limb2: u64, limb3: u64) -> U256 {
    U256 { limb0, limb1, limb2, limb3 }
}

#[test]
fn u256_add() {
    assert_eq!(
        limbs(0xffffffffffffffffu64, 0u64, 0u64, 0u64)
            .add(limbs(0xffffffffffffffffu64, 0u64, 0u64, 0u64)),
        limbs(0xfffffffffffffffeu64, 1u64, 0u64, 0u64)
    );
}

#[test]
fn add_max_u64_twice_carries_into_second_limb() {
    let a = U256::from_u64(u64::MAX);
    let sum = a.add(U256::from_u64(u64::MAX));
    assert_eq!(sum, limbs(u64::MAX - 1, 1, 0, 0));
}

#[test]
fn add_carry_ripples_through_all_limbs() {
    let a = limbs(u64::MAX, u64::MAX, u64::MAX, 0);
    let sum = a.add(U256::from_u64(1));
    assert_eq!(sum, limbs(0, 0, 0, 1));
}

#[test]
fn add_commutes() {
    let a = limbs(17, 5, 0, 3);
    let b = limbs(u64::MAX, 0, 12, 9);
    assert_eq!(a.add(b), b.add(a));
}

#[test]
fn sub_of_self_is_all_ones() {
    let a = limbs(123456789, 42, 7, 1);
    assert_eq!(a.sub(a), limbs(u64::MAX, u64::MAX, u64::MAX, u64::MAX));
}

#[test]
fn sub_is_addition_of_complement() {
    let a = limbs(10, 20, 30, 40);
    let b = limbs(50, 60, 70, 80);
    assert_eq!(a.sub(b), a.add(b.not()));
}

#[test]
fn complement_of_zero_is_all_ones() {
    assert_eq!(U256::zero().not(), limbs(u64::MAX, u64::MAX, u64::MAX, u64::MAX));
}

#[test]
fn complement_is_involutive() {
    let a = limbs(0x0123_4567_89AB_CDEF, 5, 0, u64::MAX);
    assert_eq!(a.not().not(), a);
}

#[test]
fn mul_by_zero_value_is_zero() {
    let a = limbs(0xDEAD_BEEF, 77, 0, 1);
    assert_eq!(a.mul(U256::zero()), U256::zero());
}

#[test]
fn mul_by_one_is_identity() {
    let a = limbs(0xDEAD_BEEF, 77, 3, 1);
    assert_eq!(a.mul(U256::from_u64(1)), a);
}

#[test]
fn mul_crosses_limb_boundary() {
    let product = U256::from_u64(u64::MAX).mul(U256::from_u64(u64::MAX));
    assert_eq!(product, limbs(1, 0xFFFF_FFFF_FFFF_FFFE, 0, 0));
}

#[test]
fn mul_overflow_wraps_silently() {
    let top_bit = limbs(0, 0, 0, 1 << 63);
    assert_eq!(top_bit.mul(U256::from_u64(2)), U256::zero());
}

#[test]
fn mul_u32_small_values() {
    assert_eq!(U256::from_u64(3).mul_u32(5), U256::from_u64(15));
}

#[test]
fn mul_u32_carries_into_next_limb() {
    assert_eq!(U256::from_u64(u64::MAX).mul_u32(2), limbs(u64::MAX - 1, 1, 0, 0));
}

#[test]
fn div_small_values_truncates() {
    assert_eq!(U256::from_u64(100).div(U256::from_u64(7)), U256::from_u64(14));
}

#[test]
fn div_by_larger_value_is_zero() {
    assert_eq!(U256::from_u64(7).div(U256::from_u64(100)), U256::zero());
}

#[test]
fn div_exact_multiple() {
    assert_eq!(U256::from_u64(144).div(U256::from_u64(12)), U256::from_u64(12));
}

#[test]
fn div_across_limbs() {
    // (5 + 7 * 2^64) / 2^64 == 7
    let dividend = limbs(5, 7, 0, 0);
    let divisor = limbs(0, 1, 0, 0);
    assert_eq!(dividend.div(divisor), U256::from_u64(7));
}

#[test]
fn div_satisfies_quotient_bound() {
    let a = limbs(0x1234_5678_9ABC_DEF0, 0xFEDC_BA98, 0, 0);
    let b = U256::from_u64(0x1_0001);
    let q = a.div(b);
    let back = q.mul(b);
    // q*b <= a < q*b + b, checked through the ordering
    assert!(!matches!(a.cmp(&back), Ordering::Less));
    assert!(matches!(a.cmp(&back.add(b)), Ordering::Less));
}

#[test]
fn bits_of_zero_is_zero() {
    assert_eq!(U256::zero().bits(), 0);
}

#[test]
fn bits_of_one_is_one() {
    assert_eq!(U256::from_u64(1).bits(), 1);
}

#[test]
fn bits_of_top_bit_is_256() {
    assert_eq!(limbs(0, 0, 0, 1 << 63).bits(), 256);
}

#[test]
fn bits_counts_within_and_across_limbs() {
    assert_eq!(U256::from_u64(0xFF).bits(), 8);
    assert_eq!(limbs(0, 1, 0, 0).bits(), 65);
    assert_eq!(limbs(u64::MAX, u64::MAX, 1, 0).bits(), 129);
}

#[test]
fn shl_moves_across_limbs() {
    assert_eq!(U256::from_u64(1).shl(64), limbs(0, 1, 0, 0));
    assert_eq!(U256::from_u64(1).shl(255), limbs(0, 0, 0, 1 << 63));
}

#[test]
fn shl_by_zero_is_identity() {
    let a = limbs(3, 1, 4, 1);
    assert_eq!(a.shl(0), a);
}

#[test]
fn shr_moves_across_limbs() {
    assert_eq!(limbs(0, 1, 0, 0).shr(64), U256::from_u64(1));
    assert_eq!(limbs(0, 0, 0, 1 << 63).shr(255), U256::from_u64(1));
}

#[test]
fn shl_then_shr_restores_value() {
    let a = limbs(0xABCD_EF01_2345_6789, 0x42, 0, 0);
    assert_eq!(a.shl(100).shr(100), a);
}

#[test]
fn shift_by_width_or_more_is_zero() {
    let a = limbs(1, 2, 3, 4);
    assert_eq!(a.shl(256), U256::zero());
    assert_eq!(a.shr(256), U256::zero());
    assert_eq!(a.shl(300), U256::zero());
    assert_eq!(a.shr(300), U256::zero());
}

#[test]
fn shift_discards_bits_past_the_boundary() {
    let a = limbs(0, 0, 0, 0xF000_0000_0000_0000);
    assert_eq!(a.shl(4), limbs(0, 0, 0, 0));
    let b = limbs(0b1011, 0, 0, 0);
    assert_eq!(b.shr(2), limbs(0b10, 0, 0, 0));
}

#[test]
fn cmp_orders_by_magnitude() {
    let small = limbs(u64::MAX, u64::MAX, u64::MAX, 0);
    let big = limbs(0, 0, 0, 1);
    assert!(matches!(small.cmp(&big), Ordering::Less));
    assert!(matches!(big.cmp(&small), Ordering::Greater));
    assert!(matches!(big.cmp(&big), Ordering::Equal));
}

#[test]
fn cmp_ties_break_toward_lower_limbs() {
    let a = limbs(1, 5, 9, 2);
    let b = limbs(2, 5, 9, 2);
    assert!(matches!(a.cmp(&b), Ordering::Less));
    assert!(matches!(b.cmp(&a), Ordering::Greater));
}

#[test]
fn ordering_cases_are_mutually_exclusive() {
    let values = [
        U256::zero(),
        U256::from_u64(1),
        limbs(0, 1, 0, 0),
        limbs(u64::MAX, u64::MAX, u64::MAX, u64::MAX),
    ];
    for a in values.iter() {
        for b in values.iter() {
            let lt = matches!(a.cmp(b), Ordering::Less);
            let eq = matches!(a.cmp(b), Ordering::Equal);
            let gt = matches!(a.cmp(b), Ordering::Greater);
            assert_eq!(u32::from(lt) + u32::from(eq) + u32::from(gt), 1);
            assert_eq!(eq, a == b);
        }
    }
}

#[test]
fn ge_matches_ordering() {
    let a = U256::from_u64(5);
    let b = U256::from_u64(9);
    assert!(b.ge(&a));
    assert!(b.ge(&b));
    assert!(!a.ge(&b));
}

#[test]
fn low_u32_takes_low_word_unconditionally() {
    let a = limbs(0x1234_5678_9ABC_DEF0, u64::MAX, u64::MAX, u64::MAX);
    assert_eq!(a.low_u32(), 0x9ABC_DEF0);
}

#[test]
fn from_u64_to_u64_round_trip() {
    assert_eq!(U256::from_u64(0xDEAD_BEEF_CAFE_F00D).to_u64(), 0xDEAD_BEEF_CAFE_F00D);
    assert_eq!(U256::zero().to_u64(), 0);
}

#[test]
fn from_i32_widens_positive_values() {
    assert_eq!(U256::from_i32(12345), U256::from_u64(12345));
}

#[test]
fn from_i32_reinterprets_negative_values() {
    assert_eq!(U256::from_i32(-1), U256::from_u64(u64::MAX));
    assert_eq!(U256::from_i32(-2), U256::from_u64(u64::MAX - 1));
}

#[test]
fn from_usize_to_usize_round_trip() {
    assert_eq!(U256::from_usize(987654).to_usize(), 987654);
}
