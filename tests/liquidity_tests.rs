use clmm_basic::errors::ClmmError;
use clmm_basic::liquidity_math::{
    add_delta, get_delta_amount_0_signed, get_delta_amount_0_unsigned,
    get_delta_amount_1_signed, get_delta_amount_1_unsigned, get_delta_amounts_signed,
};
use clmm_basic::tick_math::get_sqrt_price_at_tick;

const PRICE_MINUS_60: u128 = 18391489527427966291;
const PRICE_0: u128 = 1u128 << 64;
const PRICE_60: u128 = 18502164624211742928;

#[test]
fn add_delta_adds_and_removes() {
    assert_eq!(add_delta(100, 5), Ok(105));
    assert_eq!(add_delta(100, -5), Ok(95));
    assert_eq!(add_delta(100, -100), Ok(0));
}

#[test]
fn add_delta_round_trip() {
    let l: u128 = 1_000_000_000_000;
    let d: i128 = 123_456_789;
    let up = add_delta(l, d).unwrap();
    assert_eq!(add_delta(up, -d), Ok(l));
    let down = add_delta(l, -d).unwrap();
    assert_eq!(add_delta(down, d), Ok(l));
}

#[test]
fn add_delta_overflow() {
    assert_eq!(add_delta(u128::MAX, 1), Err(ClmmError::Overflow));
    assert_eq!(add_delta(7, 0), Err(ClmmError::Overflow));
}

#[test]
fn add_delta_underflow() {
    assert_eq!(add_delta(0, -1), Err(ClmmError::Underflow));
    assert_eq!(add_delta(u128::MAX, i128::MIN), Ok(u128::MAX - (1u128 << 127)));
    assert_eq!(add_delta(5, i128::MIN), Err(ClmmError::Underflow));
}

#[test]
fn amount_0_exact_values() {
    assert_eq!(get_delta_amount_0_unsigned(PRICE_0, PRICE_60, 1_000_000, true), Ok(2996));
    assert_eq!(get_delta_amount_0_unsigned(PRICE_0, PRICE_60, 1_000_000, false), Ok(2995));
    assert_eq!(get_delta_amount_0_unsigned(PRICE_MINUS_60, PRICE_60, 1_000_000, true), Ok(6000));
}

#[test]
fn amount_0_either_order() {
    assert_eq!(
        get_delta_amount_0_unsigned(PRICE_60, PRICE_0, 1_000_000, true),
        get_delta_amount_0_unsigned(PRICE_0, PRICE_60, 1_000_000, true)
    );
}

#[test]
fn amount_0_overflow() {
    assert_eq!(
        get_delta_amount_0_unsigned(1u128 << 64, 1u128 << 65, 1u128 << 100, true),
        Err(ClmmError::MaxTokenOverflow)
    );
}

#[test]
fn amount_0_zero_price() {
    assert_eq!(
        get_delta_amount_0_unsigned(0, PRICE_60, 1_000_000, true),
        Err(ClmmError::ArithmeticPrecondition)
    );
}

#[test]
fn amount_1_exact_values() {
    assert_eq!(get_delta_amount_1_unsigned(PRICE_MINUS_60, PRICE_0, 1_000_000, true), Ok(2996));
    assert_eq!(get_delta_amount_1_unsigned(PRICE_MINUS_60, PRICE_0, 1_000_000, false), Ok(2995));
    assert_eq!(get_delta_amount_1_unsigned(PRICE_MINUS_60, PRICE_60, 1_000_000, true), Ok(6000));
    assert_eq!(get_delta_amount_1_unsigned(0, 1u128 << 64, 5, false), Ok(5));
}

#[test]
fn amount_1_overflow() {
    assert_eq!(
        get_delta_amount_1_unsigned(0, 1u128 << 65, 1u128 << 64, false),
        Err(ClmmError::MaxTokenOverflow)
    );
}

#[test]
fn rounding_up_is_not_below_rounding_down() {
    let prices = [PRICE_MINUS_60, PRICE_0, PRICE_60, 1u128 << 70];
    for &a in prices.iter() {
        for &b in prices.iter() {
            for l in [1u128, 999, 1_000_000, 123_456_789_012] {
                let up = get_delta_amount_0_unsigned(a, b, l, true).unwrap();
                let down = get_delta_amount_0_unsigned(a, b, l, false).unwrap();
                assert!(up >= down);
            }
        }
    }
}

#[test]
fn signed_amounts_round_by_direction() {
    assert_eq!(get_delta_amount_0_signed(PRICE_0, PRICE_60, 1_000_000), Ok(2996));
    assert_eq!(get_delta_amount_0_signed(PRICE_0, PRICE_60, -1_000_000), Ok(2995));
    assert_eq!(get_delta_amount_1_signed(PRICE_MINUS_60, PRICE_0, 1_000_000), Ok(2996));
    assert_eq!(get_delta_amount_1_signed(PRICE_MINUS_60, PRICE_0, -1_000_000), Ok(2995));
}

#[test]
fn position_straddling_current_price() {
    let current = get_sqrt_price_at_tick(0).unwrap();
    let (amount_0, amount_1) = get_delta_amounts_signed(0, current, -60, 60, 1_000_000).unwrap();
    assert!(amount_0 > 0 && amount_1 > 0);
    assert_eq!((amount_0, amount_1), (2996, 2996));
}

#[test]
fn position_above_and_below_current_price() {
    assert_eq!(get_delta_amounts_signed(-100, 0, -60, 60, 1_000_000), Ok((6000, 0)));
    assert_eq!(get_delta_amounts_signed(60, 0, -60, 60, 1_000_000), Ok((0, 6000)));
}

#[test]
fn position_with_invalid_tick() {
    assert_eq!(
        get_delta_amounts_signed(0, PRICE_0, -60, 500_000, 1_000_000),
        Err(ClmmError::InvalidTickRange)
    );
}
