//! Conversions between the widths, multiply-divide with full intermediate
//! precision, and division rounding up.
use crate::big_num::{base256, lemma_div_le, U128, U256, U512};
use vstd::arithmetic::div_mod::{lemma_fundamental_div_mod, lemma_fundamental_div_mod_converse};
use vstd::prelude::*;

verus! {

/// `ceil(x / y)` for a positive `y`.
pub open spec fn div_ceil(x: nat, y: nat) -> nat {
    ((x + y - 1) / (y as int)) as nat
}

/// Truncation to the low 256 bits.
pub trait Downcast256 {
    fn as_u256(self) -> U256;
}

impl Downcast256 for U512 {
    fn as_u256(self) -> (r: U256)
        ensures
            r@ == self@ % base256(),
    {
        proof {
            self.lo.lemma_bounds();
            lemma_fundamental_div_mod_converse(
                self@ as int,
                base256() as int,
                self.hi@ as int,
                self.lo@ as int,
            );
        }
        self.lo
    }
}

/// Widening to 256 bits.
pub trait Upcast256 {
    fn as_u256(self) -> U256;
}

impl Upcast256 for U128 {
    fn as_u256(self) -> (r: U256)
        ensures
            r@ == self@,
    {
        U256 { hi: 0, lo: self.0 }
    }
}

/// Widening to 512 bits.
pub trait Upcast512 {
    fn as_u512(self) -> U512;
}

impl Upcast512 for U256 {
    fn as_u512(self) -> (r: U512)
        ensures
            r@ == self@,
    {
        let r = U512 { hi: U256::zero(), lo: self };
        assert(r.hi@ * base256() == 0);
        r
    }
}

impl U256 {
    /// `floor(self * num / denom)`, computed over 512 bits; `None` when
    /// `denom` is zero or the quotient does not fit in 256 bits.
    pub fn mul_div_floor(self, num: U256, denom: U256) -> (r: Option<U256>)
        ensures
            denom@ == 0 ==> r is None,
            denom@ > 0 ==> (r is Some <==> self@ * num@ / denom@ < base256()),
            r matches Some(v) ==> v@ == self@ * num@ / denom@,
    {
        if denom.is_zero() {
            return None;
        }
        let (q, rem) = self.widening_mul(num).div_rem(denom);
        proof {
            lemma_fundamental_div_mod_converse(
                (self@ * num@) as int,
                denom@ as int,
                q@ as int,
                rem@ as int,
            );
            q.lo.lemma_bounds();
        }
        if q.hi.is_zero() {
            Some(q.as_u256())
        } else {
            None
        }
    }

    /// `ceil(self * num / denom)`, computed over 512 bits; `None` when
    /// `denom` is zero or the quotient does not fit in 256 bits.
    pub fn mul_div_ceil(self, num: U256, denom: U256) -> (r: Option<U256>)
        ensures
            denom@ == 0 ==> r is None,
            denom@ > 0 ==> (r is Some <==> div_ceil(self@ * num@, denom@) < base256()),
            r matches Some(v) ==> v@ == div_ceil(self@ * num@, denom@),
    {
        if denom.is_zero() {
            return None;
        }
        let one = U256::from_u128(1);
        let dm1 = match denom.checked_sub(one) {
            Some(v) => v,
            None => return None,
        };
        let product = self.widening_mul(num);
        proof {
            self.lemma_bounds();
            num.lemma_bounds();
            let (a, b) = (self@ as int, num@ as int);
            assert(a * b <= (base256() - 1) * (base256() - 1)) by (nonlinear_arith)
                requires
                    0 <= a < base256(),
                    0 <= b < base256(),
            ;
        }
        let padded = match product.checked_add(dm1.as_u512()) {
            Some(v) => v,
            None => return None,
        };
        let (q, rem) = padded.div_rem(denom);
        proof {
            lemma_fundamental_div_mod_converse(
                self@ * num@ + denom@ - 1int,
                denom@ as int,
                q@ as int,
                rem@ as int,
            );
            q.lo.lemma_bounds();
        }
        if q.hi.is_zero() {
            Some(q.as_u256())
        } else {
            None
        }
    }
}

/// `x / y + (x % y > 0)` is `ceil(x / y)`, and is at most `x`.
pub proof fn lemma_div_rounding_up(x: int, y: int)
    requires
        0 <= x,
        0 < y,
    ensures
        x / y + (if x % y > 0 {
            1int
        } else {
            0int
        }) == (x + y - 1) / y,
        (x + y - 1) / y <= x,
        0 <= (x + y - 1) / y,
{
    lemma_fundamental_div_mod(x, y);
    lemma_div_le(x, y);
    let q = x / y;
    let r = x % y;
    assert((q + 1) * y == q * y + y) by (nonlinear_arith);
    assert(y * q == q * y) by (nonlinear_arith);
    if r > 0 {
        lemma_fundamental_div_mod_converse(x + y - 1, y, q + 1, r - 1);
        assert(2 * q <= q * y) by (nonlinear_arith)
            requires
                q >= 0,
                y >= 2,
        ;
    } else {
        lemma_fundamental_div_mod_converse(x + y - 1, y, q, y - 1);
    }
}

/// Division rounding up, on each width that the amounts use.
pub trait UnsafeMathTrait: Sized {
    /// The value as a natural number.
    spec fn math_value(x: Self) -> nat;

    fn div_rounding_up(x: Self, y: Self) -> (r: Self)
        requires
            Self::math_value(y) > 0,
        ensures
            Self::math_value(r) == div_ceil(Self::math_value(x), Self::math_value(y)),
    ;
}

impl UnsafeMathTrait for u64 {
    open spec fn math_value(x: u64) -> nat {
        x as nat
    }

    fn div_rounding_up(x: u64, y: u64) -> (r: u64) {
        proof {
            lemma_div_rounding_up(x as int, y as int);
        }
        x / y + if x % y > 0 {
            1
        } else {
            0
        }
    }
}

impl UnsafeMathTrait for U128 {
    open spec fn math_value(x: U128) -> nat {
        x@
    }

    fn div_rounding_up(x: U128, y: U128) -> (r: U128) {
        proof {
            lemma_div_rounding_up(x.0 as int, y.0 as int);
        }
        U128(
            x.0 / y.0 + if x.0 % y.0 > 0 {
                1
            } else {
                0
            },
        )
    }
}

impl UnsafeMathTrait for U256 {
    open spec fn math_value(x: U256) -> nat {
        x@
    }

    fn div_rounding_up(x: U256, y: U256) -> (r: U256) {
        let (q, rem) = x.div_rem(y);
        proof {
            lemma_div_rounding_up(x@ as int, y@ as int);
            x.lemma_bounds();
        }
        if rem.is_zero() {
            q
        } else {
            let (s, _) = q.overflowing_add(U256::from_u128(1));
            s
        }
    }
}

} // verus!
