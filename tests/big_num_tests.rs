use clmm_basic::big_num::{U128, U256, U512};
use clmm_basic::precision_math::{Downcast256, UnsafeMathTrait, Upcast256, Upcast512};

fn big(hi: u128, lo: u128) -> U256 {
    U256 { hi, lo }
}

#[test]
fn mul_div_floor_and_ceil() {
    let a = U256::from_u128(3);
    let b = U256::from_u128(7);
    let d = U256::from_u128(2);
    assert_eq!(a.mul_div_floor(b, d), Some(U256::from_u128(10)));
    assert_eq!(a.mul_div_ceil(b, d), Some(U256::from_u128(11)));
}

#[test]
fn mul_div_zero_denominator() {
    let a = U256::from_u128(3);
    assert_eq!(a.mul_div_floor(a, U256::zero()), None);
    assert_eq!(a.mul_div_ceil(a, U256::zero()), None);
}

#[test]
fn mul_div_wide_intermediate() {
    let max = U256::max_value();
    assert_eq!(max.mul_div_floor(max, max), Some(max));
    assert_eq!(max.mul_div_ceil(max, max), Some(max));
    let two = U256::from_u128(2);
    assert_eq!(max.mul_div_floor(two, two), Some(max));
    assert_eq!(max.mul_div_floor(two, U256::from_u128(1)), None);
    // (2^200 * 2^100) / 2^150 = 2^150
    let x = big(1u128 << 72, 0);
    let y = U256::from_u128(1u128 << 100);
    let z = big(1u128 << 22, 0);
    assert_eq!(x.mul_div_floor(y, z), Some(big(1u128 << 22, 0)));
}

#[test]
fn div_rounding_up_each_width() {
    assert_eq!(<u64 as UnsafeMathTrait>::div_rounding_up(7, 2), 4);
    assert_eq!(<u64 as UnsafeMathTrait>::div_rounding_up(8, 2), 4);
    assert_eq!(<U128 as UnsafeMathTrait>::div_rounding_up(U128(10), U128(3)), U128(4));
    assert_eq!(
        <U256 as UnsafeMathTrait>::div_rounding_up(big(1, 1), U256::from_u128(2)),
        big(0, 1u128 << 127).overflowing_add(U256::from_u128(1)).0
    );
}

#[test]
fn add_sub_carry() {
    let max = U256::max_value();
    assert_eq!(max.overflowing_add(U256::from_u128(1)), (U256::zero(), true));
    assert_eq!(U256::zero().overflowing_sub(U256::from_u128(1)), (max, true));
    assert_eq!(big(0, u128::MAX).checked_add(U256::from_u128(1)), Some(big(1, 0)));
    assert_eq!(big(1, 0).checked_sub(U256::from_u128(1)), Some(big(0, u128::MAX)));
    assert_eq!(U256::zero().checked_sub(U256::from_u128(1)), None);
}

#[test]
fn shifts_by_one() {
    assert_eq!(big(0, 1u128 << 127).shl1(false), (big(1, 0), false));
    assert_eq!(big(1u128 << 127, 0).shl1(true), (big(0, 1), true));
    assert_eq!(big(1, 1).shr1(), (big(0, 1u128 << 127), true));
}

#[test]
fn widening_and_casts() {
    let max = U256::max_value();
    let p = max.widening_mul(max);
    // (2^256 - 1)^2 = 2^512 - 2^257 + 1
    assert_eq!(p.lo, U256::from_u128(1));
    assert_eq!(p.hi, big(u128::MAX, u128::MAX - 1));
    assert_eq!(p.as_u256(), U256::from_u128(1));
    assert_eq!(U128(5).as_u256(), U256::from_u128(5));
    assert_eq!(U256::from_u128(9).as_u512(), U512 { hi: U256::zero(), lo: U256::from_u128(9) });
    assert_eq!(U256::from_u64(77).as_u64(), 77);
    let (q, r) = big(0, 100).div_rem(U256::from_u128(7));
    assert_eq!((q, r), (U256::from_u128(14), U256::from_u128(2)));
}

#[test]
fn general_shifts() {
    let one = U256::from_u128(1);
    assert_eq!(one.shl(64), U256::from_u128(1u128 << 64));
    assert_eq!(one.shl(200), big(1u128 << 72, 0));
    assert_eq!(one.shl(255).shl(1), U256::zero());
    assert_eq!(U256::max_value().shl(300), U256::zero());
    assert_eq!(big(1u128 << 72, 0).shr(200), one);
    assert_eq!(big(5, 0).shr(129), big(0, 2));
    assert_eq!(U256::max_value().shr(256), U256::zero());
    assert_eq!(U256::from_u128(12345).shl(0), U256::from_u128(12345));
}
