//! Token amounts for a liquidity change over a price range, and the signed
//! update of a liquidity accumulator.
use crate::big_num::{base256, U256};
use vstd::arithmetic::power2::lemma2_to64_rest;
use crate::errors::ClmmError;
use crate::precision_math::{div_ceil, UnsafeMathTrait};
use crate::tick_math::{get_sqrt_price_at_tick, sqrt_price_at_tick, MAX_TICK, MIN_TICK, Q64_ONE};
use vstd::arithmetic::div_mod::{
    lemma_div_denominator, lemma_div_is_ordered, lemma_fundamental_div_mod,
    lemma_fundamental_div_mod_converse,
};
use vstd::prelude::*;

verus! {

/// Bits of the fractional part of a Q64.64 number.
pub const RESOLUTION: u8 = 64;

/// What `add_delta(x, y)` returns.
pub open spec fn add_delta_result(x: u128, y: i128) -> Result<u128, ClmmError> {
    if y < 0 {
        if x + y < 0 {
            Err(ClmmError::Underflow)
        } else {
            Ok((x + y) as u128)
        }
    } else {
        if x + y <= x || x + y > u128::MAX {
            Err(ClmmError::Overflow)
        } else {
            Ok((x + y) as u128)
        }
    }
}

/// Applies the signed delta `y` to the liquidity `x`.
///
/// Fails with `Underflow` when a negative delta would go below zero, and with
/// `Overflow` when a non-negative delta does not strictly increase `x`: past
/// `u128::MAX`, or a zero delta.
pub fn add_delta(x: u128, y: i128) -> (r: Result<u128, ClmmError>)
    ensures
        r == add_delta_result(x, y),
{
    if y < 0 {
        let d: u128 = (-(y + 1)) as u128 + 1;
        if d > x {
            Err(ClmmError::Underflow)
        } else {
            Ok(x - d)
        }
    } else {
        let d: u128 = y as u128;
        if d == 0 || x > u128::MAX - d {
            Err(ClmmError::Overflow)
        } else {
            Ok(x + d)
        }
    }
}

/// A delta that `add_delta` accepts, followed by its negation, leaves the
/// liquidity where it was.
pub proof fn lemma_add_delta_round_trip(liquidity: u128, delta: i128)
    requires
        add_delta_result(liquidity, delta) is Ok,
        delta != i128::MIN,
    ensures
        add_delta_result(add_delta_result(liquidity, delta)->Ok_0, (-delta) as i128) == Ok::<
            u128,
            ClmmError,
        >(liquidity),
{
}

/// The lower of two square-root prices.
pub open spec fn price_lower(a: u128, b: u128) -> nat {
    if a > b {
        b as nat
    } else {
        a as nat
    }
}

/// The upper of two square-root prices.
pub open spec fn price_upper(a: u128, b: u128) -> nat {
    if a > b {
        a as nat
    } else {
        b as nat
    }
}

/// `L * 2^64 * (upper - lower) / (lower * upper)`, rounded up or down: the
/// token-0 amount of liquidity `L` between the two prices.
pub open spec fn amount_0(a: u128, b: u128, liquidity: u128, round_up: bool) -> nat {
    let lower = price_lower(a, b);
    let upper = price_upper(a, b);
    let num = (liquidity * (Q64_ONE as nat) * ((upper - lower) as nat)) as nat;
    if round_up {
        div_ceil(num, lower * upper)
    } else {
        num / (lower * upper)
    }
}

/// `L * (upper - lower) / 2^64`, rounded up or down: the token-1 amount of
/// liquidity `L` between the two prices.
pub open spec fn amount_1(a: u128, b: u128, liquidity: u128, round_up: bool) -> nat {
    let num = (liquidity * ((price_upper(a, b) - price_lower(a, b)) as nat)) as nat;
    if round_up {
        div_ceil(num, Q64_ONE as nat)
    } else {
        num / (Q64_ONE as nat)
    }
}

/// What `get_delta_amount_0_unsigned` returns.
pub open spec fn delta_amount_0(a: u128, b: u128, liquidity: u128, round_up: bool) -> Result<
    u64,
    ClmmError,
> {
    if price_lower(a, b) == 0 {
        Err(ClmmError::ArithmeticPrecondition)
    } else if amount_0(a, b, liquidity, round_up) > u64::MAX {
        Err(ClmmError::MaxTokenOverflow)
    } else {
        Ok(amount_0(a, b, liquidity, round_up) as u64)
    }
}

/// What `get_delta_amount_1_unsigned` returns.
pub open spec fn delta_amount_1(a: u128, b: u128, liquidity: u128, round_up: bool) -> Result<
    u64,
    ClmmError,
> {
    if amount_1(a, b, liquidity, round_up) > u64::MAX {
        Err(ClmmError::MaxTokenOverflow)
    } else {
        Ok(amount_1(a, b, liquidity, round_up) as u64)
    }
}

/// `|l|` as an unsigned value.
pub open spec fn abs_liquidity(l: i128) -> u128 {
    if l < 0 {
        (-l) as u128
    } else {
        l as u128
    }
}

/// `ceil(ceil(x / b) / a) == ceil(x / (a * b))`.
proof fn lemma_div_ceil_nested(x: nat, b: nat, a: nat)
    requires
        a > 0,
        b > 0,
    ensures
        div_ceil(div_ceil(x, b), a) == div_ceil(x, b * a),
{
    let y = x + b - 1;
    lemma_fundamental_div_mod(y, b as int);
    let q = y / (b as int);
    let r = y % (b as int);
    assert((q + a - 1) * b == q * b + (a - 1) * b) by (nonlinear_arith);
    assert(b * a == a * b) by (nonlinear_arith);
    assert((a - 1) * b == a * b - b) by (nonlinear_arith);
    assert(b * q == q * b) by (nonlinear_arith);
    lemma_fundamental_div_mod_converse(x + b * a - 1, b as int, q + a - 1, r);
    assert(b * a > 0) by (nonlinear_arith)
        requires
            a > 0,
            b > 0,
    ;
    lemma_div_denominator(x + b * a - 1, b as int, a as int);
}

/// `ceil(x / d) <= m` and `x / d <= m` when `x <= m * d`.
proof fn lemma_quotient_bound(x: nat, d: nat, m: nat)
    requires
        d > 0,
        x <= m * d,
    ensures
        div_ceil(x, d) <= m,
        (x as int) / (d as int) <= m,
{
    lemma_div_is_ordered(x + d - 1, m * d + d - 1, d as int);
    lemma_div_is_ordered(x as int, m * d + d - 1, d as int);
    lemma_fundamental_div_mod_converse(m * d + d - 1, d as int, m as int, d - 1);
}

/// The token-0 amount for liquidity `liquidity` between two square-root
/// prices, in either order, rounded up or down.
///
/// Fails with `ArithmeticPrecondition` when the lower price is zero and with
/// `MaxTokenOverflow` when the amount does not fit in 64 bits.
pub fn get_delta_amount_0_unsigned(
    sqrt_ratio_a_x64: u128,
    sqrt_ratio_b_x64: u128,
    liquidity: u128,
    round_up: bool,
) -> (r: Result<u64, ClmmError>)
    ensures
        r == delta_amount_0(sqrt_ratio_a_x64, sqrt_ratio_b_x64, liquidity, round_up),
{
    let mut sqrt_ratio_a_x64 = sqrt_ratio_a_x64;
    let mut sqrt_ratio_b_x64 = sqrt_ratio_b_x64;
    if sqrt_ratio_a_x64 > sqrt_ratio_b_x64 {
        let t = sqrt_ratio_a_x64;
        sqrt_ratio_a_x64 = sqrt_ratio_b_x64;
        sqrt_ratio_b_x64 = t;
    }
    if sqrt_ratio_a_x64 == 0 {
        return Err(ClmmError::ArithmeticPrecondition);
    }
    let ghost lower = sqrt_ratio_a_x64 as nat;
    let ghost upper = sqrt_ratio_b_x64 as nat;
    let ghost n1: nat = (liquidity * (Q64_ONE as nat)) as nat;
    let ghost n2 = (upper - lower) as nat;

    let numerator_1 = U256::from_u128(liquidity).shl(RESOLUTION as u32);
    proof {
        lemma2_to64_rest();
        vstd::arithmetic::div_mod::lemma_small_mod(n1, base256());
    }
    assert(numerator_1@ == n1);
    let numerator_2 = U256::from_u128(sqrt_ratio_b_x64 - sqrt_ratio_a_x64);
    let denominator = U256::from_u128(sqrt_ratio_b_x64);
    proof {
        assert(n1 * n2 <= n1 * upper) by (nonlinear_arith)
            requires
                n2 <= upper,
        ;
        lemma_quotient_bound((n1 * n2) as nat, upper, n1);
        assert(n1 < 0x1000000000000000000000000000000000000000000000000nat);
        lemma_div_ceil_nested((n1 * n2) as nat, upper, lower);
        lemma_div_denominator((n1 * n2) as int, upper as int, lower as int);
        assert(n1 * n2 == liquidity * (Q64_ONE as nat) * n2) by (nonlinear_arith)
            requires
                n1 == liquidity * (Q64_ONE as nat),
        ;
        assert(upper * lower == lower * upper) by (nonlinear_arith);
    }
    let result = if round_up {
        let t = numerator_1.mul_div_ceil(numerator_2, denominator).unwrap();
        UnsafeMathTrait::div_rounding_up(t, U256::from_u128(sqrt_ratio_a_x64))
    } else {
        let t = numerator_1.mul_div_floor(numerator_2, denominator).unwrap();
        let (q, _) = t.div_rem(U256::from_u128(sqrt_ratio_a_x64));
        q
    };
    if !result.le(&U256::from_u64(u64::MAX)) {
        return Err(ClmmError::MaxTokenOverflow);
    }
    Ok(result.as_u64())
}

/// The token-1 amount for liquidity `liquidity` between two square-root
/// prices, in either order, rounded up or down.
///
/// Fails with `MaxTokenOverflow` when the amount does not fit in 64 bits.
pub fn get_delta_amount_1_unsigned(
    sqrt_ratio_a_x64: u128,
    sqrt_ratio_b_x64: u128,
    liquidity: u128,
    round_up: bool,
) -> (r: Result<u64, ClmmError>)
    ensures
        r == delta_amount_1(sqrt_ratio_a_x64, sqrt_ratio_b_x64, liquidity, round_up),
{
    let mut sqrt_ratio_a_x64 = sqrt_ratio_a_x64;
    let mut sqrt_ratio_b_x64 = sqrt_ratio_b_x64;
    if sqrt_ratio_a_x64 > sqrt_ratio_b_x64 {
        let t = sqrt_ratio_a_x64;
        sqrt_ratio_a_x64 = sqrt_ratio_b_x64;
        sqrt_ratio_b_x64 = t;
    }
    let ghost n: nat = (liquidity * ((sqrt_ratio_b_x64 - sqrt_ratio_a_x64) as nat)) as nat;
    proof {
        assert(n <= 0xffff_ffff_ffff_ffff_ffff_ffff_ffff_ffff * 0xffff_ffff_ffff_ffff_ffff_ffff_ffff_ffffnat)
            by (nonlinear_arith)
            requires
                n == liquidity * ((sqrt_ratio_b_x64 - sqrt_ratio_a_x64) as nat),
                sqrt_ratio_a_x64 <= sqrt_ratio_b_x64,
        ;
        lemma_quotient_bound(n, Q64_ONE as nat, 0x1000000000000000000000000000000000000000000000000nat);
    }
    let liquidity_wide = U256::from_u128(liquidity);
    let difference = U256::from_u128(sqrt_ratio_b_x64 - sqrt_ratio_a_x64);
    let q64 = U256::from_u128(Q64_ONE);
    let result = if round_up {
        liquidity_wide.mul_div_ceil(difference, q64)
    } else {
        liquidity_wide.mul_div_floor(difference, q64)
    }.unwrap();
    if !result.le(&U256::from_u64(u64::MAX)) {
        return Err(ClmmError::MaxTokenOverflow);
    }
    Ok(result.as_u64())
}

/// The token-0 amount for a signed liquidity change: rounded down when
/// liquidity is removed (`liquidity < 0`), up when it is added.
pub fn get_delta_amount_0_signed(
    sqrt_ratio_a_x64: u128,
    sqrt_ratio_b_x64: u128,
    liquidity: i128,
) -> (r: Result<u64, ClmmError>)
    ensures
        r == delta_amount_0(
            sqrt_ratio_a_x64,
            sqrt_ratio_b_x64,
            abs_liquidity(liquidity),
            liquidity >= 0,
        ),
{
    if liquidity < 0 {
        get_delta_amount_0_unsigned(
            sqrt_ratio_a_x64,
            sqrt_ratio_b_x64,
            (-(liquidity + 1)) as u128 + 1,
            false,
        )
    } else {
        get_delta_amount_0_unsigned(sqrt_ratio_a_x64, sqrt_ratio_b_x64, liquidity as u128, true)
    }
}

/// The token-1 amount for a signed liquidity change: rounded down when
/// liquidity is removed (`liquidity < 0`), up when it is added.
pub fn get_delta_amount_1_signed(
    sqrt_ratio_a_x64: u128,
    sqrt_ratio_b_x64: u128,
    liquidity: i128,
) -> (r: Result<u64, ClmmError>)
    ensures
        r == delta_amount_1(
            sqrt_ratio_a_x64,
            sqrt_ratio_b_x64,
            abs_liquidity(liquidity),
            liquidity >= 0,
        ),
{
    if liquidity < 0 {
        get_delta_amount_1_unsigned(
            sqrt_ratio_a_x64,
            sqrt_ratio_b_x64,
            (-(liquidity + 1)) as u128 + 1,
            false,
        )
    } else {
        get_delta_amount_1_unsigned(sqrt_ratio_a_x64, sqrt_ratio_b_x64, liquidity as u128, true)
    }
}

/// Rounding up never gives less than rounding down, for either token; and
/// where the rounded-up amount fits, so does the rounded-down one.
pub proof fn lemma_rounding_asymmetry(a: u128, b: u128, liquidity: u128)
    ensures
        price_lower(a, b) > 0 ==> amount_0(a, b, liquidity, true) >= amount_0(
            a,
            b,
            liquidity,
            false,
        ),
        amount_1(a, b, liquidity, true) >= amount_1(a, b, liquidity, false),
        delta_amount_0(a, b, liquidity, true) matches Ok(up) ==> delta_amount_0(
            a,
            b,
            liquidity,
            false,
        ) matches Ok(down) && up >= down,
        delta_amount_1(a, b, liquidity, true) matches Ok(up) ==> delta_amount_1(
            a,
            b,
            liquidity,
            false,
        ) matches Ok(down) && up >= down,
{
    let lower = price_lower(a, b);
    let upper = price_upper(a, b);
    let num0 = (liquidity * (Q64_ONE as nat) * ((upper - lower) as nat)) as nat;
    let num1 = (liquidity * ((upper - lower) as nat)) as nat;
    if lower * upper > 0 {
        lemma_div_is_ordered(num0 as int, num0 + lower * upper - 1, (lower * upper) as int);
    }
    lemma_div_is_ordered(num1 as int, num1 + Q64_ONE - 1, Q64_ONE as int);
    if lower > 0 {
        assert(lower * upper > 0) by (nonlinear_arith)
            requires
                lower > 0,
                upper >= lower,
        ;
    }
}

/// Whether `tick` lies in `[MIN_TICK, MAX_TICK]`.
pub open spec fn tick_in_range(tick: i32) -> bool {
    MIN_TICK <= tick <= MAX_TICK
}

/// What `get_delta_amounts_signed` returns: both bounds must be valid ticks;
/// below the range only token 0 moves, above it only token 1, and inside it
/// both, split at the current price.
pub open spec fn delta_amounts(
    tick_current: i32,
    sqrt_price_x64_current: u128,
    tick_lower: i32,
    tick_upper: i32,
    liquidity_delta: i128,
) -> Result<(u64, u64), ClmmError> {
    let l = abs_liquidity(liquidity_delta);
    let up = liquidity_delta >= 0;
    let price_lower = sqrt_price_at_tick(tick_lower) as u128;
    let price_upper = sqrt_price_at_tick(tick_upper) as u128;
    if !tick_in_range(tick_lower) || !tick_in_range(tick_upper) {
        Err(ClmmError::InvalidTickRange)
    } else if tick_current < tick_lower {
        match delta_amount_0(price_lower, price_upper, l, up) {
            Ok(amount_0) => Ok((amount_0, 0u64)),
            Err(e) => Err(e),
        }
    } else if tick_current < tick_upper {
        match delta_amount_0(sqrt_price_x64_current, price_upper, l, up) {
            Ok(amount_0) => match delta_amount_1(price_lower, sqrt_price_x64_current, l, up) {
                Ok(amount_1) => Ok((amount_0, amount_1)),
                Err(e) => Err(e),
            },
            Err(e) => Err(e),
        }
    } else {
        match delta_amount_1(price_lower, price_upper, l, up) {
            Ok(amount_1) => Ok((0u64, amount_1)),
            Err(e) => Err(e),
        }
    }
}

/// The token amounts `(amount_0, amount_1)` for a signed liquidity change of a
/// position over `[tick_lower, tick_upper]`, where the pool stands at
/// `tick_current` and `sqrt_price_x64_current`.
pub fn get_delta_amounts_signed(
    tick_current: i32,
    sqrt_price_x64_current: u128,
    tick_lower: i32,
    tick_upper: i32,
    liquidity_delta: i128,
) -> (r: Result<(u64, u64), ClmmError>)
    ensures
        r == delta_amounts(
            tick_current,
            sqrt_price_x64_current,
            tick_lower,
            tick_upper,
            liquidity_delta,
        ),
{
    let price_lower = get_sqrt_price_at_tick(tick_lower)?;
    let price_upper = get_sqrt_price_at_tick(tick_upper)?;
    let mut amount_0: u64 = 0;
    let mut amount_1: u64 = 0;
    if tick_current < tick_lower {
        amount_0 = get_delta_amount_0_signed(price_lower, price_upper, liquidity_delta)?;
    } else if tick_current < tick_upper {
        amount_0 = get_delta_amount_0_signed(sqrt_price_x64_current, price_upper, liquidity_delta)?;
        amount_1 = get_delta_amount_1_signed(price_lower, sqrt_price_x64_current, liquidity_delta)?;
    } else {
        amount_1 = get_delta_amount_1_signed(price_lower, price_upper, liquidity_delta)?;
    }
    Ok((amount_0, amount_1))
}

} // verus!
