//! Fixed-width unsigned integers of 128, 256 and 512 bits.
//!
//! A `U256` is a pair of `u128` halves and a `U512` a pair of `U256` halves.
//! Every operation is stated over the value as a natural number (`x@`).
use vstd::arithmetic::div_mod::{
    lemma_basic_div, lemma_div_denominator, lemma_fundamental_div_mod,
    lemma_fundamental_div_mod_converse, lemma_mod_multiples_basic, lemma_mul_mod_noop_right,
    lemma_small_mod,
};
use vstd::arithmetic::power2::{
    lemma2_to64, lemma2_to64_rest, lemma_pow2_adds, lemma_pow2_pos, lemma_pow2_strictly_increases,
    lemma_pow2_unfold, pow2,
};
use vstd::prelude::*;

verus! {

/// 2^128.
pub open spec fn base128() -> nat {
    0x100000000000000000000000000000000nat
}

/// 2^256.
pub open spec fn base256() -> nat {
    0x10000000000000000000000000000000000000000000000000000000000000000nat
}

/// 2^512.
pub open spec fn base512() -> nat {
    0x100000000000000000000000000000000000000000000000000000000000000000000000000000000000000000000000000000000000000000000000000000000nat
}

/// 2^256 as a power of two.
proof fn lemma_pow2_256()
    ensures
        pow2(256) == base256(),
{
    lemma2_to64();
    lemma2_to64_rest();
    lemma_pow2_adds(64, 64);
    lemma_pow2_adds(128, 128);
    let p64 = pow2(64);
    let p128 = pow2(128);
    assert(p128 == base128()) by (nonlinear_arith)
        requires
            p64 == 0x1_0000_0000_0000_0000,
            p128 == p64 * p64,
    ;
    assert(pow2(256) == base256()) by (nonlinear_arith)
        requires
            p128 == base128(),
            pow2(256) == p128 * p128,
    ;
}

/// `x / d <= x` for a positive divisor.
pub proof fn lemma_div_le(x: int, d: int)
    requires
        0 <= x,
        0 < d,
    ensures
        0 <= x / d <= x,
{
    lemma_fundamental_div_mod(x, d);
    let q = x / d;
    assert(0 <= x % d < d);
    assert(q >= 0) by {
        if q < 0 {
            assert(d * q <= -d) by (nonlinear_arith)
                requires
                    q <= -1,
                    d > 0,
            ;
        }
    }
    assert(q <= d * q) by (nonlinear_arith)
        requires
            q >= 0,
            d >= 1,
    ;
}

pub open spec fn bit_value(b: bool) -> nat {
    if b {
        1
    } else {
        0
    }
}

/// `a + b + cin`, as a low word and a carry out.
fn add_carry_u128(a: u128, b: u128, cin: bool) -> (res: (u128, bool))
    ensures
        res.0 + (if res.1 { base128() } else { 0 }) == a + b + bit_value(cin),
{
    let c: u128 = if cin {
        1
    } else {
        0
    };
    if a <= u128::MAX - b {
        let s = a + b;
        if s <= u128::MAX - c {
            (s + c, false)
        } else {
            (s - (u128::MAX - c) - 1, true)
        }
    } else {
        let s = a - (u128::MAX - b) - 1;
        (s + c, true)
    }
}

/// `a - b - bin`, as a low word and a borrow out.
fn sub_borrow_u128(a: u128, b: u128, bin: bool) -> (res: (u128, bool))
    ensures
        res.0 as int == a - b - bit_value(bin) + (if res.1 { base128() } else { 0 }),
        res.1 == (a < b + bit_value(bin)),
{
    let c: u128 = if bin {
        1
    } else {
        0
    };
    if a >= b {
        let d = a - b;
        if d >= c {
            (d - c, false)
        } else {
            (u128::MAX, true)
        }
    } else {
        (u128::MAX - (b - a - 1) - c, true)
    }
}

/// `2 * x + cin`, as a low word and the bit shifted out.
fn shl1_u128(x: u128, cin: bool) -> (res: (u128, bool))
    ensures
        res.0 + (if res.1 { base128() } else { 0 }) == 2 * x + bit_value(cin),
{
    let c: u128 = if cin {
        1
    } else {
        0
    };
    if x >= 0x8000_0000_0000_0000_0000_0000_0000_0000 {
        ((x - 0x8000_0000_0000_0000_0000_0000_0000_0000) * 2 + c, true)
    } else {
        (x * 2 + c, false)
    }
}

/// An unsigned 128-bit integer.
#[derive(Clone, Copy, Debug, PartialEq, Eq, Structural)]
pub struct U128(pub u128);

impl View for U128 {
    type V = nat;

    open spec fn view(&self) -> nat {
        self.0 as nat
    }
}

/// An unsigned 256-bit integer: `hi * 2^128 + lo`.
#[derive(Clone, Copy, Debug, PartialEq, Eq, Structural)]
pub struct U256 {
    pub hi: u128,
    pub lo: u128,
}

impl View for U256 {
    type V = nat;

    open spec fn view(&self) -> nat {
        self.hi as nat * base128() + self.lo as nat
    }
}

/// An unsigned 512-bit integer: `hi * 2^256 + lo`.
#[derive(Clone, Copy, Debug, PartialEq, Eq, Structural)]
pub struct U512 {
    pub hi: U256,
    pub lo: U256,
}

impl View for U512 {
    type V = nat;

    open spec fn view(&self) -> nat {
        self.hi@ * base256() + self.lo@
    }
}

impl U256 {
    pub proof fn lemma_bounds(self)
        ensures
            self@ < base256(),
    {
    }

    pub fn zero() -> (r: U256)
        ensures
            r@ == 0,
    {
        U256 { hi: 0, lo: 0 }
    }

    /// The largest value, 2^256 - 1.
    pub fn max_value() -> (r: U256)
        ensures
            r@ == base256() - 1,
    {
        U256 { hi: u128::MAX, lo: u128::MAX }
    }

    pub fn from_u128(x: u128) -> (r: U256)
        ensures
            r@ == x,
    {
        U256 { hi: 0, lo: x }
    }

    pub fn from_u64(x: u64) -> (r: U256)
        ensures
            r@ == x,
    {
        U256 { hi: 0, lo: x as u128 }
    }

    pub fn is_zero(&self) -> (r: bool)
        ensures
            r == (self@ == 0),
    {
        self.hi == 0 && self.lo == 0
    }

    pub fn lt(&self, other: &U256) -> (r: bool)
        ensures
            r == (self@ < other@),
    {
        self.hi < other.hi || (self.hi == other.hi && self.lo < other.lo)
    }

    pub fn le(&self, other: &U256) -> (r: bool)
        ensures
            r == (self@ <= other@),
    {
        !other.lt(self)
    }

    /// `self + other + cin`, with the carry out.
    pub fn add_with_carry(self, other: U256, cin: bool) -> (res: (U256, bool))
        ensures
            res.0@ + (if res.1 { base256() } else { 0 }) == self@ + other@ + bit_value(cin),
    {
        let (lo, c1) = add_carry_u128(self.lo, other.lo, cin);
        let (hi, c2) = add_carry_u128(self.hi, other.hi, c1);
        (U256 { hi, lo }, c2)
    }

    /// `self + other` modulo 2^256, and whether it wrapped.
    pub fn overflowing_add(self, other: U256) -> (res: (U256, bool))
        ensures
            res.0@ + (if res.1 { base256() } else { 0 }) == self@ + other@,
    {
        self.add_with_carry(other, false)
    }

    /// `self - other - bin`, with the borrow out.
    pub fn sub_with_borrow(self, other: U256, bin: bool) -> (res: (U256, bool))
        ensures
            res.0@ as int == self@ - other@ - bit_value(bin) + (if res.1 { base256() } else { 0 }),
            res.1 == (self@ < other@ + bit_value(bin)),
    {
        let (lo, b1) = sub_borrow_u128(self.lo, other.lo, bin);
        let (hi, b2) = sub_borrow_u128(self.hi, other.hi, b1);
        let r = U256 { hi, lo };
        assert(r@ as int == self@ - other@ - bit_value(bin) + (if b2 { base256() } else { 0 }));
        proof {
            r.lemma_bounds();
        }
        (r, b2)
    }

    /// `self - other` modulo 2^256, and whether it wrapped.
    pub fn overflowing_sub(self, other: U256) -> (res: (U256, bool))
        ensures
            res.0@ as int == self@ - other@ + (if res.1 { base256() } else { 0 }),
            res.1 == (self@ < other@),
    {
        self.sub_with_borrow(other, false)
    }

    pub fn checked_add(self, other: U256) -> (r: Option<U256>)
        ensures
            r is Some <==> self@ + other@ < base256(),
            r matches Some(v) ==> v@ == self@ + other@,
    {
        let (v, c) = self.overflowing_add(other);
        if c {
            None
        } else {
            Some(v)
        }
    }

    pub fn checked_sub(self, other: U256) -> (r: Option<U256>)
        ensures
            r is Some <==> other@ <= self@,
            r matches Some(v) ==> v@ == self@ - other@,
    {
        let (v, b) = self.overflowing_sub(other);
        if b {
            None
        } else {
            Some(v)
        }
    }

    /// `2 * self + cin`, with the bit shifted out at the top.
    pub fn shl1(self, cin: bool) -> (res: (U256, bool))
        ensures
            res.0@ + (if res.1 { base256() } else { 0 }) == 2 * self@ + bit_value(cin),
    {
        let (lo, c1) = shl1_u128(self.lo, cin);
        let (hi, c2) = shl1_u128(self.hi, c1);
        (U256 { hi, lo }, c2)
    }

    /// `self / 2`, with the bit shifted out at the bottom.
    pub fn shr1(self) -> (res: (U256, bool))
        ensures
            self@ == 2 * res.0@ + bit_value(res.1),
    {
        let top: u128 = if self.hi % 2 == 1 {
            0x8000_0000_0000_0000_0000_0000_0000_0000
        } else {
            0
        };
        (U256 { hi: self.hi / 2, lo: self.lo / 2 + top }, self.lo % 2 == 1)
    }

    /// The full product `self * other`, which always fits in 512 bits.
    pub fn widening_mul(self, other: U256) -> (r: U512)
        ensures
            r@ == self@ * other@,
        decreases other@,
    {
        if other.is_zero() {
            assert(self@ * other@ == 0) by (nonlinear_arith)
                requires
                    other@ == 0,
            ;
            U512::zero()
        } else {
            let (half, bit) = other.shr1();
            let m = self.widening_mul(half);
            proof {
                self.lemma_bounds();
                other.lemma_bounds();
                let (a, b, h) = (self@ as int, other@ as int, half@ as int);
                assert(a * b == 2 * (a * h) + bit_value(bit) * a) by (nonlinear_arith)
                    requires
                        b == 2 * h + bit_value(bit),
                ;
                assert(a * b < base512()) by (nonlinear_arith)
                    requires
                        0 <= a < base256(),
                        0 <= b < base256(),
                        base512() == base256() * base256(),
                ;
            }
            let (m2, _) = m.shl1(false);
            if bit {
                let (s, _) = m2.add_with_carry(U512 { hi: U256::zero(), lo: self }, false);
                proof {
                    s.lemma_bounds();
                }
                s
            } else {
                m2
            }
        }
    }

    /// Quotient and remainder by a nonzero divisor.
    pub fn div_rem(self, d: U256) -> (res: (U256, U256))
        requires
            d@ > 0,
        ensures
            res.0@ == self@ / d@,
            res.1@ == self@ % d@,
    {
        let wide = U512 { hi: U256::zero(), lo: self };
        assert(wide.hi@ * base256() == 0);
        let (q, r) = wide.div_rem(d);
        proof {
            lemma_fundamental_div_mod_converse(self@ as int, d@ as int, q@ as int, r@ as int);
            lemma_div_le(self@ as int, d@ as int);
        }
        (q.lo, r)
    }

    /// `self * 2^n` modulo 2^256: a left shift by `n` bits.
    pub fn shl(self, n: u32) -> (r: U256)
        ensures
            r@ == (self@ * pow2(n as nat)) % base256(),
    {
        proof {
            lemma_pow2_256();
            lemma2_to64();
        }
        if n >= 256 {
            proof {
                let rest = (n - 256) as nat;
                lemma_pow2_adds(256, rest);
                let k = self@ * pow2(rest);
                assert(self@ * pow2(n as nat) == k * base256()) by (nonlinear_arith)
                    requires
                        pow2(n as nat) == pow2(256) * pow2(rest),
                        pow2(256) == base256(),
                        k == self@ * pow2(rest),
                ;
                lemma_mod_multiples_basic(k as int, base256() as int);
            }
            return U256::zero();
        }
        let mut r = self;
        let mut i: u32 = 0;
        proof {
            lemma_small_mod(self@, base256());
        }
        while i < n
            invariant
                i <= n,
                r@ == (self@ * pow2(i as nat)) % base256(),
            decreases n - i,
        {
            let (next, c) = r.shl1(false);
            proof {
                let x = self@ * pow2(i as nat);
                next.lemma_bounds();
                lemma_fundamental_div_mod_converse(
                    2 * r@ as int,
                    base256() as int,
                    bit_value(c) as int,
                    next@ as int,
                );
                lemma_mul_mod_noop_right(2, x as int, base256() as int);
                lemma_pow2_unfold(i as nat + 1);
                assert(self@ * pow2(i as nat + 1) == 2 * x) by (nonlinear_arith)
                    requires
                        pow2(i as nat + 1) == 2 * pow2(i as nat),
                        x == self@ * pow2(i as nat),
                ;
            }
            r = next;
            i = i + 1;
        }
        r
    }

    /// `self / 2^n`: a right shift by `n` bits.
    pub fn shr(self, n: u32) -> (r: U256)
        ensures
            r@ == self@ / pow2(n as nat),
    {
        proof {
            lemma_pow2_256();
            lemma2_to64();
            lemma_pow2_pos(n as nat);
        }
        if n >= 256 {
            proof {
                if n > 256 {
                    lemma_pow2_strictly_increases(256, n as nat);
                }
                lemma_basic_div(self@ as int, pow2(n as nat) as int);
            }
            return U256::zero();
        }
        let mut r = self;
        let mut i: u32 = 0;
        while i < n
            invariant
                i <= n,
                r@ == self@ / pow2(i as nat),
            decreases n - i,
        {
            let (next, b) = r.shr1();
            proof {
                lemma_fundamental_div_mod_converse(
                    r@ as int,
                    2,
                    next@ as int,
                    bit_value(b) as int,
                );
                lemma_pow2_pos(i as nat);
                lemma_pow2_unfold(i as nat + 1);
                lemma_div_denominator(self@ as int, pow2(i as nat) as int, 2);
            }
            r = next;
            i = i + 1;
        }
        r
    }

    /// The value as a `u64`; it must fit.
    pub fn as_u64(&self) -> (r: u64)
        requires
            self@ <= u64::MAX,
        ensures
            r == self@,
    {
        self.lo as u64
    }

    /// The value as a `u128`; it must fit.
    pub fn as_u128(&self) -> (r: u128)
        requires
            self@ <= u128::MAX,
        ensures
            r == self@,
    {
        self.lo
    }
}

impl U512 {
    pub proof fn lemma_bounds(self)
        ensures
            self@ < base512(),
    {
        self.hi.lemma_bounds();
        self.lo.lemma_bounds();
        assert(self.hi@ * base256() <= (base256() - 1) * base256()) by (nonlinear_arith)
            requires
                self.hi@ < base256(),
        ;
    }

    pub fn zero() -> (r: U512)
        ensures
            r@ == 0,
    {
        let r = U512 { hi: U256::zero(), lo: U256::zero() };
        assert(r.hi@ * base256() == 0);
        r
    }

    pub fn is_zero(&self) -> (r: bool)
        ensures
            r == (self@ == 0),
    {
        self.hi.is_zero() && self.lo.is_zero()
    }

    /// `self + other + cin`, with the carry out.
    pub fn add_with_carry(self, other: U512, cin: bool) -> (res: (U512, bool))
        ensures
            res.0@ + (if res.1 { base512() } else { 0 }) == self@ + other@ + bit_value(cin),
    {
        let (lo, c1) = self.lo.add_with_carry(other.lo, cin);
        let (hi, c2) = self.hi.add_with_carry(other.hi, c1);
        (U512 { hi, lo }, c2)
    }

    pub fn checked_add(self, other: U512) -> (r: Option<U512>)
        ensures
            r is Some <==> self@ + other@ < base512(),
            r matches Some(v) ==> v@ == self@ + other@,
    {
        let (v, c) = self.add_with_carry(other, false);
        proof {
            v.lemma_bounds();
        }
        if c {
            None
        } else {
            Some(v)
        }
    }

    /// Quotient and remainder by a nonzero divisor, as `q * d + r == self`
    /// with `r < d`.
    pub fn div_rem(self, d: U256) -> (res: (U512, U256))
        requires
            d@ > 0,
        ensures
            res.0@ * d@ + res.1@ == self@,
            res.1@ < d@,
        decreases self@,
    {
        if self.is_zero() {
            let z = U512::zero();
            assert(z@ * d@ == 0);
            (z, U256::zero())
        } else {
            let (half, bit) = self.shr1();
            let (q, r) = half.div_rem(d);
            let (r2, c) = r.shl1(bit);
            let ghost t: int = 2 * r@ as int + bit_value(bit) as int;
            proof {
                self.lemma_bounds();
                d.lemma_bounds();
                r2.lemma_bounds();
                let (qq, dd) = (q@ as int, d@ as int);
                assert(2 * qq * dd == 2 * (qq * dd)) by (nonlinear_arith);
                assert(2 * qq * dd + t == self@);
                assert((2 * qq + 1) * dd == 2 * qq * dd + dd) by (nonlinear_arith);
                assert(2 * qq <= 2 * qq * dd) by (nonlinear_arith)
                    requires
                        qq >= 0,
                        dd >= 1,
                ;
                assert(2 * qq + 1 <= (2 * qq + 1) * dd) by (nonlinear_arith)
                    requires
                        qq >= 0,
                        dd >= 1,
                ;
            }
            if c || !r2.lt(&d) {
                let (r3, _) = r2.overflowing_sub(d);
                let (q3, _) = q.shl1(true);
                (q3, r3)
            } else {
                let (q2, _) = q.shl1(false);
                (q2, r2)
            }
        }
    }

    /// `2 * self + cin`, with the bit shifted out at the top.
    pub fn shl1(self, cin: bool) -> (res: (U512, bool))
        ensures
            res.0@ + (if res.1 { base512() } else { 0 }) == 2 * self@ + bit_value(cin),
    {
        let (lo, c1) = self.lo.shl1(cin);
        let (hi, c2) = self.hi.shl1(c1);
        (U512 { hi, lo }, c2)
    }

    /// `self / 2`, with the bit shifted out at the bottom.
    pub fn shr1(self) -> (res: (U512, bool))
        ensures
            self@ == 2 * res.0@ + bit_value(res.1),
    {
        let (hi, b1) = self.hi.shr1();
        let (lo, b0) = self.lo.shr1();
        let top = if b1 {
            U256 { hi: 0x8000_0000_0000_0000_0000_0000_0000_0000, lo: 0 }
        } else {
            U256::zero()
        };
        let (lo2, c) = lo.add_with_carry(top, false);
        proof {
            lo.lemma_bounds();
        }
        (U512 { hi, lo: lo2 }, b0)
    }
}

} // verus!
