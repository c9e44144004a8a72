//! Conversion between a tick and its square-root price in Q64.64.
//!
//! The price of tick `t` is `sqrt(1.0001)^t * 2^64`, computed by a ladder over
//! the bits of `|t|`; the way back goes through an integer base-2 logarithm.
use crate::errors::ClmmError;
use vstd::arithmetic::div_mod::{lemma_div_is_ordered, lemma_fundamental_div_mod};
use vstd::arithmetic::power2::{
    lemma2_to64, lemma2_to64_rest, lemma_pow2_adds, lemma_pow2_strictly_increases, lemma_pow2_unfold, pow2,
};
use vstd::bits::{lemma_u128_shr_is_div, lemma_u64_shl_is_mul};
use vstd::prelude::*;

verus! {

/// The least tick.
pub const MIN_TICK: i32 = -443636;

/// The greatest tick.
pub const MAX_TICK: i32 = -MIN_TICK;

/// The least square-root price accepted.
pub const MIN_SQRT_PRICE_X64: u128 = 4295048016;

/// The greatest square-root price accepted.
pub const MAX_SQRT_PRICE_X64: u128 = 79226673521066979257578248091;

/// Bits of `|tick|` that the ladder reads: enough for `MAX_TICK`.
pub const LADDER_BITS: u32 = 19;

/// Squaring steps of the base-2 logarithm.
pub const BIT_PRECISION: u32 = 16;

/// 1.0 in Q64.64.
pub const Q64_ONE: u128 = 0x1_0000_0000_0000_0000;

/// `sqrt(1.0001)^(-2^k)` in Q64.64, for bit `k` of `|tick|`.
pub open spec fn spec_ladder_factor(k: u32) -> u128 {
    if k == 0 {
        0xfffcb933bd6fb800
    } else if k == 1 {
        0xfff97272373d4000
    } else if k == 2 {
        0xfff2e50f5f657000
    } else if k == 3 {
        0xffe5caca7e10f000
    } else if k == 4 {
        0xffcb9843d60f7000
    } else if k == 5 {
        0xff973b41fa98e800
    } else if k == 6 {
        0xff2ea16466c9b000
    } else if k == 7 {
        0xfe5dee046a9a3800
    } else if k == 8 {
        0xfcbe86c7900bb000
    } else if k == 9 {
        0xf987a7253ac65800
    } else if k == 10 {
        0xf3392b0822bb6000
    } else if k == 11 {
        0xe7159475a2caf000
    } else if k == 12 {
        0xd097f3bdfd2f2000
    } else if k == 13 {
        0xa9f746462d9f8000
    } else if k == 14 {
        0x70d869a156f31c00
    } else if k == 15 {
        0x31be135f97ed3200
    } else if k == 16 {
        0x9aa508b5b85a500
    } else if k == 17 {
        0x5d6af8dedc582c
    } else {
        0x2216e584f5fa
    }
}

#[verifier::when_used_as_spec(spec_ladder_factor)]
fn ladder_factor(k: u32) -> (r: u128)
    ensures
        r == spec_ladder_factor(k),
{
    if k == 0 {
        0xfffcb933bd6fb800
    } else if k == 1 {
        0xfff97272373d4000
    } else if k == 2 {
        0xfff2e50f5f657000
    } else if k == 3 {
        0xffe5caca7e10f000
    } else if k == 4 {
        0xffcb9843d60f7000
    } else if k == 5 {
        0xff973b41fa98e800
    } else if k == 6 {
        0xff2ea16466c9b000
    } else if k == 7 {
        0xfe5dee046a9a3800
    } else if k == 8 {
        0xfcbe86c7900bb000
    } else if k == 9 {
        0xf987a7253ac65800
    } else if k == 10 {
        0xf3392b0822bb6000
    } else if k == 11 {
        0xe7159475a2caf000
    } else if k == 12 {
        0xd097f3bdfd2f2000
    } else if k == 13 {
        0xa9f746462d9f8000
    } else if k == 14 {
        0x70d869a156f31c00
    } else if k == 15 {
        0x31be135f97ed3200
    } else if k == 16 {
        0x9aa508b5b85a500
    } else if k == 17 {
        0x5d6af8dedc582c
    } else {
        0x2216e584f5fa
    }
}

/// `|tick|` as the ladder reads it.
pub open spec fn abs_tick(tick: i32) -> u32 {
    if tick < 0 {
        (-tick) as u32
    } else {
        tick as u32
    }
}

/// The Q64.64 product of `a` and `f`, rounded down.
pub open spec fn mul_q64(a: nat, f: nat) -> nat {
    (a * f / (Q64_ONE as nat)) as nat
}

/// Whether bit `k` of `abs` is set.
pub open spec fn bit_set(abs: u32, k: u32) -> bool {
    abs & (1u32 << k) != 0
}

/// The ratio once bits `0..=k` of `abs` have been applied: bit 0 chooses the
/// start, each later set bit multiplies by its factor in Q64.64, rounding down.
pub open spec fn ladder(abs: u32, k: nat) -> nat
    decreases k,
{
    if k == 0 {
        if bit_set(abs, 0) {
            spec_ladder_factor(0) as nat
        } else {
            Q64_ONE as nat
        }
    } else {
        let r = ladder(abs, (k - 1) as nat);
        if bit_set(abs, k as u32) {
            mul_q64(r, spec_ladder_factor(k as u32) as nat)
        } else {
            r
        }
    }
}

/// The least value that `ladder` can take after bits `0..=k`.
pub open spec fn ladder_floor(k: nat) -> nat
    decreases k,
{
    if k == 0 {
        spec_ladder_factor(0) as nat
    } else {
        mul_q64(ladder_floor((k - 1) as nat), spec_ladder_factor(k as u32) as nat)
    }
}

/// The square-root price of `tick` in Q64.64: the ladder over the low
/// `LADDER_BITS` bits of `|tick|`, inverted for a positive tick.
pub open spec fn sqrt_price_at_tick(tick: i32) -> nat {
    let ratio = ladder(abs_tick(tick), (LADDER_BITS - 1) as nat);
    if tick > 0 {
        u128::MAX as nat / ratio
    } else {
        ratio
    }
}

proof fn lemma_ladder_step(a: nat, b: nat, f: nat)
    requires
        a <= b,
        f < Q64_ONE,
    ensures
        mul_q64(a, f) <= mul_q64(b, f),
        mul_q64(b, f) <= b,
{
    assert(a * f <= b * f) by (nonlinear_arith)
        requires
            a <= b,
    ;
    assert(b * f <= b * (Q64_ONE as nat)) by (nonlinear_arith)
        requires
            f < Q64_ONE,
    ;
    lemma_div_is_ordered((a * f) as int, (b * f) as int, Q64_ONE as int);
    lemma_div_is_ordered((b * f) as int, (b * Q64_ONE) as int, Q64_ONE as int);
    assert(b * (Q64_ONE as nat) / (Q64_ONE as nat) == b) by (nonlinear_arith);
}

proof fn lemma_ladder_floor_positive()
    ensures
        ladder_floor(18) > 0,
{
    reveal_with_fuel(ladder_floor, 19);
}

/// The ladder on a tick other than `i32::MIN`: `sqrt_price_at_tick(tick)`,
/// with no range check.
fn sqrt_price_ladder(tick: i32) -> (r: u128)
    requires
        tick != i32::MIN,
    ensures
        r == sqrt_price_at_tick(tick),
        r > 0,
{
    let abs: u32 = if tick < 0 {
        (-tick) as u32
    } else {
        tick as u32
    };
    let mut ratio: u128 = if abs & 0x1 != 0 {
        ladder_factor(0)
    } else {
        Q64_ONE
    };
    assert(1u32 << 0u32 == 1u32) by (bit_vector);
    let mut k: u32 = 1;
    while k < LADDER_BITS
        invariant
            1 <= k <= LADDER_BITS,
            abs == abs_tick(tick),
            ratio == ladder(abs, (k - 1) as nat),
            ladder_floor((k - 1) as nat) <= ratio <= Q64_ONE,
        decreases LADDER_BITS - k,
    {
        let f = ladder_factor(k);
        proof {
            lemma_ladder_step(ladder_floor((k - 1) as nat), ratio as nat, f as nat);
        }
        if abs & (1u32 << k) != 0 {
            assert(ratio * f <= Q64_ONE * f) by (nonlinear_arith)
                requires
                    ratio <= Q64_ONE,
            ;
            let product = ratio * f;
            assert(product >> 64u128 == product / 0x1_0000_0000_0000_0000u128) by (bit_vector);
            ratio = product >> 64u128;
        }
        k = k + 1;
    }
    proof {
        lemma_ladder_floor_positive();
    }
    if tick > 0 {
        assert(u128::MAX / ratio >= 1) by (nonlinear_arith)
            requires
                1 <= ratio <= Q64_ONE,
        ;
        ratio = u128::MAX / ratio;
    }
    ratio
}

/// The ends of the tick range have the least and the greatest price accepted.
pub proof fn lemma_price_at_range_ends()
    ensures
        sqrt_price_at_tick(MIN_TICK) == MIN_SQRT_PRICE_X64,
        sqrt_price_at_tick(MAX_TICK) == MAX_SQRT_PRICE_X64,
{
    assert(abs_tick(MIN_TICK) == 443636u32);
    assert(abs_tick(MAX_TICK) == 443636u32);
    assert(!bit_set(443636u32, 0u32)) by (bit_vector);
    assert(!bit_set(443636u32, 1u32)) by (bit_vector);
    assert(bit_set(443636u32, 2u32)) by (bit_vector);
    assert(!bit_set(443636u32, 3u32)) by (bit_vector);
    assert(bit_set(443636u32, 4u32)) by (bit_vector);
    assert(bit_set(443636u32, 5u32)) by (bit_vector);
    assert(bit_set(443636u32, 6u32)) by (bit_vector);
    assert(bit_set(443636u32, 7u32)) by (bit_vector);
    assert(!bit_set(443636u32, 8u32)) by (bit_vector);
    assert(!bit_set(443636u32, 9u32)) by (bit_vector);
    assert(bit_set(443636u32, 10u32)) by (bit_vector);
    assert(!bit_set(443636u32, 11u32)) by (bit_vector);
    assert(!bit_set(443636u32, 12u32)) by (bit_vector);
    assert(!bit_set(443636u32, 13u32)) by (bit_vector);
    assert(bit_set(443636u32, 14u32)) by (bit_vector);
    assert(bit_set(443636u32, 15u32)) by (bit_vector);
    assert(!bit_set(443636u32, 16u32)) by (bit_vector);
    assert(bit_set(443636u32, 17u32)) by (bit_vector);
    assert(bit_set(443636u32, 18u32)) by (bit_vector);
    assert(ladder(443636u32, 0) == 18446744073709551616);
    assert(ladder(443636u32, 1) == 18446744073709551616);
    assert(ladder(443636u32, 2) == 18443055278223355904);
    assert(ladder(443636u32, 3) == 18443055278223355904);
    assert(ladder(443636u32, 4) == 18428307471288122970);
    assert(ladder(443636u32, 5) == 18398847226801874084);
    assert(ladder(443636u32, 6) == 18340067951587048657);
    assert(ladder(443636u32, 7) == 18223072152272633034);
    assert(ladder(443636u32, 8) == 18223072152272633034);
    assert(ladder(443636u32, 9) == 18223072152272633034);
    assert(ladder(443636u32, 10) == 17313578044588124205);
    assert(ladder(443636u32, 11) == 17313578044588124205);
    assert(ladder(443636u32, 12) == 17313578044588124205);
    assert(ladder(443636u32, 13) == 17313578044588124205);
    assert(ladder(443636u32, 14) == 7631863196528592884);
    assert(ladder(443636u32, 15) == 1482921196046239949);
    assert(ladder(443636u32, 16) == 1482921196046239949);
    assert(ladder(443636u32, 17) == 2113820261058665);
    assert(ladder(443636u32, 18) == 4295048016);
    assert(u128::MAX as nat / 4295048016nat == 79226673521066979257578248091nat);
}

/// The square-root price of `tick`, in Q64.64: `MIN_SQRT_PRICE_X64` at
/// `MIN_TICK` and `MAX_SQRT_PRICE_X64` at `MAX_TICK`. Fails with
/// `InvalidTickRange` outside `[MIN_TICK, MAX_TICK]`.
pub fn get_sqrt_price_at_tick(tick: i32) -> (r: Result<u128, ClmmError>)
    ensures
        tick == MIN_TICK ==> r == Ok::<u128, ClmmError>(MIN_SQRT_PRICE_X64),
        tick == MAX_TICK ==> r == Ok::<u128, ClmmError>(MAX_SQRT_PRICE_X64),
        (MIN_TICK <= tick <= MAX_TICK) ==> (r matches Ok(p) && p == sqrt_price_at_tick(tick)),
        !(MIN_TICK <= tick <= MAX_TICK) ==> r == Err::<u128, ClmmError>(
            ClmmError::InvalidTickRange,
        ),
{
    proof {
        lemma_price_at_range_ends();
    }
    if tick < MIN_TICK || tick > MAX_TICK {
        return Err(ClmmError::InvalidTickRange);
    }
    Ok(sqrt_price_ladder(tick))
}


/// Index of the highest set bit of a positive value.
pub open spec fn msb(x: nat) -> nat
    decreases x,
{
    if x <= 1 {
        0
    } else {
        1 + msb(x / 2)
    }
}

/// `x` scaled by a power of two into `[2^63, 2^64)`.
pub open spec fn normalized(x: nat) -> nat {
    let m = msb(x);
    if m >= 64 {
        x / pow2((m - 63) as nat)
    } else {
        x * pow2((63 - m) as nat)
    }
}

/// The fraction bits of a base-2 logarithm found by `n` squarings of `r`, a
/// value in `[2^63, 2^64)` standing for `r / 2^63`: each squaring that reaches
/// 2 adds `bit`, and `bit` halves at each step.
pub open spec fn log2_fraction(r: nat, bit: nat, n: nat) -> nat
    decreases n,
{
    if n == 0 {
        0
    } else {
        let sq = r * r;
        if sq >= 0x8000_0000_0000_0000_0000_0000_0000_0000 {
            bit + log2_fraction(sq / 0x1_0000_0000_0000_0000, bit / 2, (n - 1) as nat)
        } else {
            log2_fraction(sq / 0x8000_0000_0000_0000, bit / 2, (n - 1) as nat)
        }
    }
}

/// `log2(p / 2^64)` in Q32.32, with `BIT_PRECISION` fraction bits found.
pub open spec fn log2_x32(p: nat) -> int {
    (msb(p) - 64) * 0x1_0000_0000 + log2_fraction(
        normalized(p),
        0x8000_0000_0000_0000,
        BIT_PRECISION as nat,
    ) / 0x1_0000_0000
}

/// `log_sqrt(1.0001)(p / 2^64)` in Q64.64.
pub open spec fn log_sqrt_10001_x64(p: nat) -> int {
    log2_x32(p) * 59543866431248
}

/// The lower candidate tick for price `p`.
pub open spec fn tick_low(p: nat) -> int {
    (log_sqrt_10001_x64(p) - 184467440737095516) / 0x1_0000_0000_0000_0000
}

/// The upper candidate tick for price `p`.
pub open spec fn tick_high(p: nat) -> int {
    (log_sqrt_10001_x64(p) + 15793534762490258745) / 0x1_0000_0000_0000_0000
}

/// The tick of price `p`: the upper candidate when its own price does not
/// exceed `p`, else the lower one.
pub open spec fn tick_at_sqrt_price(p: nat) -> int {
    let lo = tick_low(p);
    let hi = tick_high(p);
    if lo == hi {
        lo
    } else if sqrt_price_at_tick(hi as i32) <= p {
        hi
    } else {
        lo
    }
}

proof fn lemma_msb(x: nat)
    requires
        x >= 1,
    ensures
        pow2(msb(x)) <= x < pow2(msb(x) + 1),
    decreases x,
{
    lemma2_to64();
    lemma2_to64_rest();
    if x > 1 {
        lemma_msb(x / 2);
        let m = msb(x / 2);
        lemma_pow2_unfold(m + 1);
        lemma_pow2_unfold(m + 2);
    }
}

proof fn lemma_msb_u128(x: u128)
    requires
        x >= 1,
    ensures
        msb(x as nat) < 128,
        pow2(msb(x as nat)) <= x < pow2(msb(x as nat) + 1),
{
    lemma_msb(x as nat);
    lemma2_to64();
    lemma2_to64_rest();
    lemma_pow2_adds(64, 64);
    let m = msb(x as nat);
    if m > 128 {
        lemma_pow2_strictly_increases(128, m);
    }
}

proof fn lemma_normalized_range(x: u128)
    requires
        x >= 1,
    ensures
        0x8000_0000_0000_0000 <= normalized(x as nat) < 0x1_0000_0000_0000_0000,
{
    lemma_msb_u128(x);
    lemma2_to64();
    lemma2_to64_rest();
    let m = msb(x as nat);
    if m >= 64 {
        let s = (m - 63) as nat;
        let pp = pow2(s);
        lemma_pow2_adds(63, s);
        lemma_pow2_adds(64, s);
        assert(pp > 0) by {
            vstd::arithmetic::power2::lemma_pow2_pos(s);
        }
        let q = x as nat / pp;
        lemma_fundamental_div_mod(x as int, pp as int);
        assert(pow2(63) * pp == pp * pow2(63)) by (nonlinear_arith);
        assert(pow2(64) * pp == pp * pow2(64)) by (nonlinear_arith);
        assert(q >= pow2(63)) by {
            if q < pow2(63) {
                assert(pp * q <= pp * pow2(63) - pp) by (nonlinear_arith)
                    requires
                        q <= pow2(63) - 1,
                        pp > 0,
                ;
            }
        }
        assert(normalized(x as nat) == q);
        assert(q < pow2(64)) by {
            if q >= pow2(64) {
                assert(pp * q >= pp * pow2(64)) by (nonlinear_arith)
                    requires
                        q >= pow2(64),
                        pp > 0,
                ;
            }
        }
    } else {
        let s = (63 - m) as nat;
        let pp = pow2(s);
        vstd::arithmetic::power2::lemma_pow2_pos(s);
        lemma_pow2_adds(m, s);
        lemma_pow2_adds(m + 1, s);
        assert(pow2(m) * pp <= x * pp) by (nonlinear_arith)
            requires
                pow2(m) <= x,
        ;
        assert(x * pp < pow2(m + 1) * pp) by (nonlinear_arith)
            requires
                x < pow2(m + 1),
                pp > 0,
        ;
        assert(pow2(m) * pp == pow2(63));
        assert(pow2(m + 1) * pp == pow2(64));
        assert(normalized(x as nat) == x * pp);
    }
}

/// Index of the highest set bit of a positive value.
fn most_significant_bit(x: u128) -> (m: u32)
    requires
        x > 0,
    ensures
        m == msb(x as nat),
        m < 128,
{
    proof {
        lemma_msb_u128(x);
    }
    let mut m: u32 = 0;
    let mut y: u128 = x;
    while y > 1
        invariant
            1 <= y <= x,
            msb(x as nat) == m + msb(y as nat),
            msb(x as nat) < 128,
        decreases y,
    {
        y = y / 2;
        m = m + 1;
    }
    m
}

/// `x / 2^64` rounded toward negative infinity, as an arithmetic right
/// shift by 64 bits would give it.
fn floor_div_q64(x: i128) -> (r: i32)
    requires
        -0x40_0000_0000_0000_0000_0000 <= x <= 0x40_0000_0000_0000_0000_0000,
    ensures
        r == x / 0x1_0000_0000_0000_0000,
        r != i32::MIN,
{
    let q = x.checked_div_euclid(0x1_0000_0000_0000_0000i128).unwrap();
    q as i32
}

/// Whether tick `t` brackets price `p`: `t` is a valid tick whose price does
/// not exceed `p`, and `p` is below the price of `t + 1` unless `t` is
/// `MAX_TICK`.
pub open spec fn brackets(t: int, p: nat) -> bool {
    &&& MIN_TICK <= t <= MAX_TICK
    &&& sqrt_price_at_tick(t as i32) <= p
    &&& t < MAX_TICK ==> p < sqrt_price_at_tick((t + 1) as i32)
}

/// Under the hypothesis that prices strictly increase over the tick range,
/// the only tick that brackets the price of a valid tick `t` is `t` itself.
/// With the bracketing that `get_tick_at_sqrt_price` guarantees, this takes
/// the round trip tick -> price -> tick back to `t`; the hypothesis itself
/// is not proved here.
pub proof fn lemma_round_trip_if_increasing(t: i32, u: int)
    requires
        MIN_TICK <= t <= MAX_TICK,
        brackets(u, sqrt_price_at_tick(t)),
        forall|a: i32, b: i32|
            MIN_TICK <= a < b <= MAX_TICK ==> #[trigger] sqrt_price_at_tick(a)
                < #[trigger] sqrt_price_at_tick(b),
    ensures
        u == t,
{
    if u < t {
        let v = (u + 1) as i32;
        if v < t {
            assert(sqrt_price_at_tick(v) < sqrt_price_at_tick(t));
        }
    } else if u > t {
        assert(sqrt_price_at_tick(t) < sqrt_price_at_tick(u as i32));
    }
}

/// Whether `t` brackets `p`.
fn tick_brackets(t: i32, p: u128) -> (r: bool)
    ensures
        r == brackets(t as int, p as nat),
{
    if t < MIN_TICK || t > MAX_TICK {
        return false;
    }
    if sqrt_price_ladder(t) > p {
        return false;
    }
    t == MAX_TICK || p < sqrt_price_ladder(t + 1)
}

/// The tick that brackets `p`, found by bisection over the tick range.
fn bisect_tick(p: u128) -> (t: i32)
    requires
        MIN_SQRT_PRICE_X64 <= p <= MAX_SQRT_PRICE_X64,
    ensures
        brackets(t as int, p as nat),
{
    proof {
        lemma_price_at_range_ends();
    }
    if p == MAX_SQRT_PRICE_X64 {
        return MAX_TICK;
    }
    let mut lo: i32 = MIN_TICK;
    let mut hi: i32 = MAX_TICK;
    while hi - lo > 1
        invariant
            MIN_TICK <= lo < hi <= MAX_TICK,
            sqrt_price_at_tick(lo) <= p,
            p < sqrt_price_at_tick(hi),
        decreases hi - lo,
    {
        let mid = lo + (hi - lo) / 2;
        if sqrt_price_ladder(mid) <= p {
            lo = mid;
        } else {
            hi = mid;
        }
    }
    lo
}

/// The tick of `sqrt_price_x64`: the valid tick `t` with
/// `price(t) <= sqrt_price_x64 < price(t + 1)`.
///
/// A base-2 logarithm gives two candidates; the upper one is taken when its
/// own price does not exceed `sqrt_price_x64`, else the lower one. That
/// estimate is returned when it brackets the price, as it does wherever the
/// logarithm's error bound holds; otherwise the tick is found by bisection.
/// Fails with `InvalidTickRange` outside
/// `[MIN_SQRT_PRICE_X64, MAX_SQRT_PRICE_X64]`.
pub fn get_tick_at_sqrt_price(sqrt_price_x64: u128) -> (r: Result<i32, ClmmError>)
    ensures
        (MIN_SQRT_PRICE_X64 <= sqrt_price_x64 <= MAX_SQRT_PRICE_X64) ==> (r matches Ok(t)
            && brackets(t as int, sqrt_price_x64 as nat)),
        (MIN_SQRT_PRICE_X64 <= sqrt_price_x64 <= MAX_SQRT_PRICE_X64 && brackets(
            tick_at_sqrt_price(sqrt_price_x64 as nat),
            sqrt_price_x64 as nat,
        )) ==> r == Ok::<i32, ClmmError>(tick_at_sqrt_price(sqrt_price_x64 as nat) as i32),
        !(MIN_SQRT_PRICE_X64 <= sqrt_price_x64 <= MAX_SQRT_PRICE_X64) ==> r == Err::<
            i32,
            ClmmError,
        >(ClmmError::InvalidTickRange),
{
    if sqrt_price_x64 < MIN_SQRT_PRICE_X64 || sqrt_price_x64 > MAX_SQRT_PRICE_X64 {
        return Err(ClmmError::InvalidTickRange);
    }
    let ghost p = sqrt_price_x64 as nat;
    let msb = most_significant_bit(sqrt_price_x64);
    let log2p_integer_x32: i128 = (msb as i128 - 64) * 0x1_0000_0000;

    proof {
        lemma_normalized_range(sqrt_price_x64);
        lemma_msb_u128(sqrt_price_x64);
        lemma2_to64();
        lemma2_to64_rest();
    }
    let mut r: u128 = if msb >= 64 {
        proof {
            lemma_u128_shr_is_div(sqrt_price_x64, (msb - 63) as u128);
        }
        sqrt_price_x64 >> ((msb - 63) as u128)
    } else {
        proof {
            let pp = pow2((63 - msb) as nat);
            vstd::arithmetic::power2::lemma_pow2_pos((63 - msb) as nat);
            lemma_pow2_adds(msb as nat + 1, (63 - msb) as nat);
            assert(sqrt_price_x64 * pp < pow2(msb as nat + 1) * pp) by (nonlinear_arith)
                requires
                    sqrt_price_x64 < pow2(msb as nat + 1),
                    pp > 0,
            ;
            assert(sqrt_price_x64 <= sqrt_price_x64 * pp) by (nonlinear_arith)
                requires
                    pp >= 1,
            ;
            lemma_u64_shl_is_mul(sqrt_price_x64 as u64, (63 - msb) as u64);
        }
        ((sqrt_price_x64 as u64) << ((63 - msb) as u64)) as u128
    };
    assert(r == normalized(p));

    let mut bit: u128 = 0x8000_0000_0000_0000;
    let mut precision: u32 = 0;
    let mut log2p_fraction_x64: u128 = 0;
    while precision < BIT_PRECISION
        invariant
            precision <= BIT_PRECISION,
            0x8000_0000_0000_0000 <= r < 0x1_0000_0000_0000_0000,
            bit <= 0x8000_0000_0000_0000,
            log2p_fraction_x64 <= precision * 0x8000_0000_0000_0000,
            log2p_fraction_x64 + log2_fraction(r as nat, bit as nat, (BIT_PRECISION - precision) as nat)
                == log2_fraction(normalized(p), 0x8000_0000_0000_0000, BIT_PRECISION as nat),
        decreases BIT_PRECISION - precision,
    {
        assert(0x4000_0000_0000_0000_0000_0000_0000_0000 <= r * r < 0x1_0000_0000_0000_0000_0000_0000_0000_0000) by (nonlinear_arith)
            requires
                0x8000_0000_0000_0000 <= r < 0x1_0000_0000_0000_0000,
        ;
        let sq = r * r;
        let is_r_more_than_two: u128 = sq >> 127u128;
        assert(is_r_more_than_two == if sq >= 0x8000_0000_0000_0000_0000_0000_0000_0000u128 {
            1u128
        } else {
            0u128
        }) by (bit_vector)
            requires
                is_r_more_than_two == sq >> 127u128,
        ;
        if is_r_more_than_two == 1 {
            assert(sq >> 64u128 == sq / 0x1_0000_0000_0000_0000u128) by (bit_vector);
        } else {
            assert(sq >> 63u128 == sq / 0x8000_0000_0000_0000u128) by (bit_vector);
        }
        r = sq >> (63 + is_r_more_than_two);
        log2p_fraction_x64 = log2p_fraction_x64 + bit * is_r_more_than_two;
        bit = bit / 2;
        precision = precision + 1;
    }
    assert(log2p_fraction_x64 >> 32u128 == log2p_fraction_x64 / 0x1_0000_0000u128) by (bit_vector);
    let log2p_fraction_x32 = log2p_fraction_x64 >> 32u128;
    let log2p_x32: i128 = log2p_integer_x32 + log2p_fraction_x32 as i128;
    assert(log2p_x32 == log2_x32(p));

    // Change of base: multiply by 2^32 / log2(sqrt(1.0001)).
    let log_sqrt_10001_x64: i128 = log2p_x32 * 59543866431248i128;

    // The candidates bracket the tick within the error of the logarithm.
    let tick_low = floor_div_q64(log_sqrt_10001_x64 - 184467440737095516i128);
    let tick_high = floor_div_q64(log_sqrt_10001_x64 + 15793534762490258745i128);

    let estimate = if tick_low == tick_high {
        tick_low
    } else if sqrt_price_ladder(tick_high) <= sqrt_price_x64 {
        tick_high
    } else {
        tick_low
    };
    if tick_brackets(estimate, sqrt_price_x64) {
        Ok(estimate)
    } else {
        Ok(bisect_tick(sqrt_price_x64))
    }
}

} // verus!
