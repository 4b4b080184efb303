use vstd::prelude::*;

use crate::algorithms::{abs_int, div_trunc, lemma_abs_mul, lemma_div_trunc_abs};
use crate::integer::Primitive;

verus! {

/// The full-width multiply-divide capability: `(a * b) / c` with the
/// product taken in a type of at least twice the bit width, so that it
/// cannot overflow before the division narrows it back down.
pub trait FullMulDiv: Primitive {
    /// `(self * rhs) / div`, truncating toward zero, exact whenever the
    /// true quotient fits in the type.
    fn full_mul_div(self, rhs: Self, div: Self) -> (r: Self)
        requires
            div.as_int() != 0,
            Self::spec_min() <= div_trunc(self.as_int() * rhs.as_int(), div.as_int())
                <= Self::spec_max(),
        ensures
            r.as_int() == div_trunc(self.as_int() * rhs.as_int(), div.as_int()),
    ;
}

impl FullMulDiv for u64 {
    fn full_mul_div(self, rhs: Self, div: Self) -> (r: Self) {
        proof {
            assert((self as int) * (rhs as int) <= (u64::MAX as int) * (u64::MAX as int))
                by (nonlinear_arith)
                requires
                    self as int <= u64::MAX as int,
                    rhs as int <= u64::MAX as int,
            ;
            assert((u64::MAX as int) * (u64::MAX as int) <= u128::MAX as int) by (nonlinear_arith);
        }
        let numer: u128 = (self as u128) * (rhs as u128);
        let out: u128 = numer / (div as u128);
        out as u64
    }
}

impl FullMulDiv for i64 {
    fn full_mul_div(self, rhs: Self, div: Self) -> (r: Self) {
        proof {
            let a = self as int;
            let b = rhs as int;
            assert(-0x40000000000000000000000000000000 <= a * b
                <= 0x40000000000000000000000000000000) by (nonlinear_arith)
                requires
                    -0x8000000000000000 <= a <= 0x7fffffffffffffff,
                    -0x8000000000000000 <= b <= 0x7fffffffffffffff,
            ;
        }
        let numer: i128 = (self as i128) * (rhs as i128);
        let out: i128 = i128::checked_div(numer, div as i128).unwrap();
        out as i64
    }
}

/// Relies on ruint's 256-bit unsigned integer: `U256::from` embeds a
/// `u128` exactly; `checked_mul` returns the exact product (the product of
/// two 128-bit values always fits in 256 bits); `checked_div` returns the
/// Euclidean quotient and is `None` only for a zero divisor; and
/// `u128::try_from` hands the quotient back exactly iff it fits in 128
/// bits.
#[verifier::external_body]
fn wide_mul_div(a: u128, b: u128, c: u128) -> (r: Option<u128>)
    requires
        c != 0,
    ensures
        match r {
            Some(q) => q as int == (a as int * b as int) / (c as int),
            None => (a as int * b as int) / (c as int) > u128::MAX,
        },
{
    let numer = ruint::aliases::U256::from(a).checked_mul(ruint::aliases::U256::from(b))?;
    let quot = numer.checked_div(ruint::aliases::U256::from(c))?;
    u128::try_from(quot).ok()
}

/// The magnitude of a signed 128-bit value, computed without overflowing
/// on the smallest value.
fn abs_u128(x: i128) -> (r: u128)
    ensures
        r as int == abs_int(x as int),
{
    if x >= 0 {
        x as u128
    } else {
        ((-(x + 1)) as u128) + 1
    }
}

impl FullMulDiv for u128 {
    fn full_mul_div(self, rhs: Self, div: Self) -> (r: Self) {
        proof {
            assert(self as int * rhs as int >= 0) by (nonlinear_arith)
                requires
                    self as int >= 0,
                    rhs as int >= 0,
            ;
        }
        wide_mul_div(self, rhs, div).unwrap()
    }
}

impl FullMulDiv for i32 {
    fn full_mul_div(self, rhs: Self, div: Self) -> (r: Self) {
        proof {
            let a = self as int;
            let b = rhs as int;
            assert(-0x4000000000000000 <= a * b <= 0x4000000000000000) by (nonlinear_arith)
                requires
                    -0x80000000 <= a <= 0x7fffffff,
                    -0x80000000 <= b <= 0x7fffffff,
            ;
        }
        let numer: i64 = (self as i64) * (rhs as i64);
        let out: i64 = i64::checked_div(numer, div as i64).unwrap();
        out as i32
    }
}

impl FullMulDiv for i128 {
    fn full_mul_div(self, rhs: Self, div: Self) -> (r: Self) {
        let ghost prod: int = self as int * rhs as int;
        let ghost want: int = div_trunc(prod, div as int);
        if let Some(numer) = i128::checked_mul(self, rhs) {
            i128::checked_div(numer, div).unwrap()
        } else {
            proof {
                assert(self as int != 0 && rhs as int != 0);
                assert((prod < 0) == (((self as int) < 0) != ((rhs as int) < 0))
                    && abs_int(prod) > 0) by (nonlinear_arith)
                    requires
                        prod == (self as int) * (rhs as int),
                        self as int != 0,
                        rhs as int != 0,
                ;
                lemma_abs_mul(self as int, rhs as int);
                lemma_div_trunc_abs(prod, div as int);
            }
            let au: u128 = abs_u128(self);
            let bu: u128 = abs_u128(rhs);
            let cu: u128 = abs_u128(div);
            let q = wide_mul_div(au, bu, cu).unwrap();
            let negative: bool = ((self < 0) != (rhs < 0)) != (div < 0);
            proof {
                assert(abs_int(want) == q as int);
                assert(want == if (prod < 0) != ((div as int) < 0) {
                    -(q as int)
                } else {
                    q as int
                });
            }
            if negative {
                if q == 0 {
                    0
                } else {
                    -((q - 1) as i128) - 1
                }
            } else {
                q as i128
            }
        }
    }
}

} // verus!
