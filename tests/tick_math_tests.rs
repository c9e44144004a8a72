use clmm_basic::errors::ClmmError;
use clmm_basic::tick_math::{
    get_sqrt_price_at_tick, get_tick_at_sqrt_price, MAX_SQRT_PRICE_X64, MAX_TICK,
    MIN_SQRT_PRICE_X64, MIN_TICK,
};

#[test]
fn price_of_tick_zero_is_one() {
    assert_eq!(get_sqrt_price_at_tick(0), Ok(1u128 << 64));
}

#[test]
fn price_at_small_ticks() {
    assert_eq!(get_sqrt_price_at_tick(1), Ok(18447666387855957090));
    assert_eq!(get_sqrt_price_at_tick(-1), Ok(18445821805675395072));
    assert_eq!(get_sqrt_price_at_tick(60), Ok(18502164624211742928));
    assert_eq!(get_sqrt_price_at_tick(-60), Ok(18391489527427966291));
    assert_eq!(get_sqrt_price_at_tick(100), Ok(18539204128674375874));
    assert_eq!(get_sqrt_price_at_tick(-100), Ok(18354745142194513203));
}

#[test]
fn price_at_largest_sixteen_bit_ticks() {
    assert_eq!(get_sqrt_price_at_tick(65535), Ok(488565748650354975137));
    assert_eq!(get_sqrt_price_at_tick(-65535), Ok(696492473860388424));
}

#[test]
fn price_outside_tick_range_is_rejected() {
    assert_eq!(get_sqrt_price_at_tick(MAX_TICK + 1), Err(ClmmError::InvalidTickRange));
    assert_eq!(get_sqrt_price_at_tick(MIN_TICK - 1), Err(ClmmError::InvalidTickRange));
    assert_eq!(get_sqrt_price_at_tick(i32::MIN), Err(ClmmError::InvalidTickRange));
}

#[test]
fn tick_of_price_one_is_zero() {
    assert_eq!(get_tick_at_sqrt_price(1u128 << 64), Ok(0));
}

#[test]
fn tick_of_neighbouring_prices() {
    assert_eq!(get_tick_at_sqrt_price(18502164624211742928), Ok(60));
    assert_eq!(get_tick_at_sqrt_price(18502164624211742927), Ok(59));
    assert_eq!(get_tick_at_sqrt_price(18391489527427966291), Ok(-60));
    assert_eq!(get_tick_at_sqrt_price(MIN_SQRT_PRICE_X64), Ok(MIN_TICK));
    assert_eq!(get_tick_at_sqrt_price(MIN_SQRT_PRICE_X64 + 1), Ok(MIN_TICK));
    assert_eq!(get_tick_at_sqrt_price(MAX_SQRT_PRICE_X64), Ok(MAX_TICK));
    assert_eq!(get_tick_at_sqrt_price(MAX_SQRT_PRICE_X64 - 1), Ok(MAX_TICK - 1));
}

#[test]
fn tick_of_price_outside_range_is_rejected() {
    assert_eq!(get_tick_at_sqrt_price(0), Err(ClmmError::InvalidTickRange));
    assert_eq!(get_tick_at_sqrt_price(MIN_SQRT_PRICE_X64 - 1), Err(ClmmError::InvalidTickRange));
    assert_eq!(get_tick_at_sqrt_price(MAX_SQRT_PRICE_X64 + 1), Err(ClmmError::InvalidTickRange));
}

#[test]
fn price_beyond_sixteen_bits() {
    assert_eq!(get_sqrt_price_at_tick(65536), Ok(488590176327110977113));
    assert_eq!(get_sqrt_price_at_tick(-65536), Ok(696457651848324352));
    assert_eq!(get_sqrt_price_at_tick(200000), Ok(406113483392345977776134));
    assert_eq!(get_sqrt_price_at_tick(-200000), Ok(837899702512935));
    assert_eq!(get_sqrt_price_at_tick(443635), Ok(79222712485061176096288712065));
}

#[test]
fn price_at_tick_range_ends() {
    assert_eq!(get_sqrt_price_at_tick(MIN_TICK), Ok(MIN_SQRT_PRICE_X64));
    assert_eq!(get_sqrt_price_at_tick(MAX_TICK), Ok(MAX_SQRT_PRICE_X64));
}

#[test]
fn tick_price_round_trip_over_tick_range() {
    let mut t: i32 = MIN_TICK;
    while t <= MAX_TICK {
        let p = get_sqrt_price_at_tick(t).unwrap();
        assert_eq!(get_tick_at_sqrt_price(p), Ok(t));
        t += 1;
    }
}

#[test]
fn price_is_increasing_over_tick_range() {
    let mut previous = get_sqrt_price_at_tick(MIN_TICK).unwrap();
    let mut t: i32 = MIN_TICK + 1;
    while t <= MAX_TICK {
        let p = get_sqrt_price_at_tick(t).unwrap();
        assert!(previous < p);
        previous = p;
        t += 1;
    }
}
