use vstd::prelude::*;
use vstd::arithmetic::div_mod::lemma_div_is_ordered_by_denominator;

use crate::algorithms::{
    abs_int, div_trunc, lemma_div_trunc_abs, lemma_div_trunc_exact, lemma_div_trunc_fundamental,
    lemma_pow10_increases, lemma_pow10_positive, lemma_quantize_magnitude, pow10, rem_trunc,
};
use crate::cheats::{try_pow10, Cheats};
use crate::full_mul_div::FullMulDiv;
use crate::integer::{Primitive, ScaledInteger, SignedScaledInteger};

verus! {

/// A fixed-point decimal value: the wrapped integer, interpreted as
/// `stored / 10^D`, where `D` is the compile-time count of fractional
/// digits.
#[derive(Debug, Default, Clone, Copy, PartialEq, Eq, PartialOrd, Ord, Hash)]
pub struct Decimal<I, const D: u8>(pub I);

/// The scaling factor `10^d` fits the backing type, the caller's duty
/// when choosing the digit count.
pub open spec fn scale_fits<I: Primitive>(d: nat) -> bool {
    pow10(d) <= I::spec_max()
}

/// What lossless scale conversion yields: the same real value re-scaled
/// from `scale` to `d` fractional digits, or nothing when digits would be
/// lost or the result would not fit the range `min..=max`. The power of
/// ten that rescales is computed in the backing type, so it must fit the
/// type itself; a zero converts at any pair of scales.
pub open spec fn spec_try_from_scaled(x: int, scale: nat, d: nat, min: int, max: int) -> Option<
    int,
> {
    if scale > d {
        if pow10((scale - d) as nat) <= max {
            if rem_trunc(x, pow10((scale - d) as nat)) == 0 {
                Some(div_trunc(x, pow10((scale - d) as nat)))
            } else {
                None
            }
        } else if x == 0 {
            Some(0int)
        } else {
            None
        }
    } else if scale < d {
        if pow10((d - scale) as nat) <= max && min <= x * pow10((d - scale) as nat) <= max {
            Some(x * pow10((d - scale) as nat))
        } else {
            None
        }
    } else {
        Some(x)
    }
}

impl<I, const D: u8> Decimal<I, D> where I: ScaledInteger<D> {
    /// The value zero.
    pub fn zero() -> (r: Self)
        ensures
            r.0.as_int() == 0,
    {
        Decimal(I::zero())
    }

    /// The value one, stored as the scaling factor.
    pub fn one() -> (r: Self)
        requires
            scale_fits::<I>(D as nat),
        ensures
            r.0.as_int() == pow10(D as nat),
    {
        Decimal(I::scaling_factor())
    }

    /// The value two, stored as twice the scaling factor.
    pub fn two() -> (r: Self)
        requires
            2 * pow10(D as nat) <= I::spec_max(),
        ensures
            r.0.as_int() == 2 * pow10(D as nat),
    {
        Decimal(I::two_scaling_factor())
    }

    /// The smallest representable value.
    pub fn min() -> (r: Self)
        ensures
            r.0.as_int() == I::spec_min(),
    {
        Decimal(I::min_value())
    }

    /// The largest representable value.
    pub fn max() -> (r: Self)
        ensures
            r.0.as_int() == I::spec_max(),
    {
        Decimal(I::max_value())
    }

    /// The scaling factor `10^D` as a backing integer.
    pub fn scaling_factor() -> (r: I)
        requires
            scale_fits::<I>(D as nat),
        ensures
            r.as_int() == pow10(D as nat),
    {
        I::scaling_factor()
    }

    /// The compile-time count of fractional digits.
    pub fn decimals() -> (r: u8)
        ensures
            r == D,
    {
        D
    }

    /// The wrapped backing integer.
    pub fn integer(&self) -> (r: I)
        ensures
            r == self.0,
    {
        self.0
    }

    /// Losslessly converts a scaled integer to this type: the result
    /// denotes the same real value, or nothing is returned.
    pub fn try_from_scaled(integer: I, scale: u8) -> (r: Option<Self>)
        ensures
            ({
                let spec_r = spec_try_from_scaled(
                    integer.as_int(),
                    scale as nat,
                    D as nat,
                    I::spec_min(),
                    I::spec_max(),
                );
                match r {
                    Some(v) => spec_r == Some(v.0.as_int()),
                    None => spec_r is None,
                }
            }),
            scale == D ==> r == Some(Decimal::<I, D>(integer)),
    {
        proof {
            integer.lemma_range();
            I::lemma_type_facts();
        }
        if scale > D {
            let diff: u8 = scale - D;
            proof {
                lemma_pow10_positive(diff as nat);
                lemma_pow10_increases(1, diff as nat);
            }
            match try_pow10::<I>(diff) {
                Some(divisor) => {
                    let remainder = integer.checked_rem(divisor).unwrap();
                    if !remainder.eq_val(I::zero()) {
                        None
                    } else {
                        proof {
                            lemma_div_trunc_abs(integer.as_int(), divisor.as_int());
                            lemma_shrinking_quotient_fits::<I>(integer.as_int(), divisor.as_int());
                        }
                        Some(Decimal(integer.checked_div(divisor).unwrap()))
                    }
                },
                None => {
                    if integer.eq_val(I::zero()) {
                        Some(Decimal(integer))
                    } else {
                        None
                    }
                },
            }
        } else if scale < D {
            let diff: u8 = D - scale;
            match try_pow10::<I>(diff) {
                Some(multiplier) => {
                    match integer.checked_mul(multiplier) {
                        Some(p) => Some(Decimal(p)),
                        None => None,
                    }
                },
                None => None,
            }
        } else {
            Some(Decimal(integer))
        }
    }

    /// Whether the wrapped integer is zero.
    pub fn is_zero(&self) -> (r: bool)
        ensures
            r == (self.0.as_int() == 0),
    {
        self.0.eq_val(I::zero())
    }

    /// Rounds toward zero to the nearest multiple of `quantum`.
    pub fn quantize_round_to_zero(&self, quantum: Self) -> (r: Self)
        requires
            quantum.0.as_int() != 0,
            !(self.0.as_int() == I::spec_min() && quantum.0.as_int() == -1),
        ensures
            r.0.as_int() == div_trunc(self.0.as_int(), quantum.0.as_int()) * quantum.0.as_int(),
    {
        proof {
            self.0.lemma_range();
            quantum.0.lemma_range();
            I::lemma_type_facts();
            lemma_div_trunc_abs(self.0.as_int(), quantum.0.as_int());
            lemma_quantize_magnitude(self.0.as_int(), quantum.0.as_int());
            lemma_shrinking_quotient_fits::<I>(self.0.as_int(), quantum.0.as_int());
        }
        let q = self.0.checked_div(quantum.0).unwrap();
        Decimal(q.checked_mul(quantum.0).unwrap())
    }

    /// Checked addition on the wrapped integers: addition does not change
    /// the scale. The precondition is exactly that the backing sum fits,
    /// so decimal addition agrees with the backing integers' addition
    /// wherever the latter is defined.
    pub fn add(self, rhs: Self) -> (r: Self)
        requires
            I::spec_min() <= self.0.as_int() + rhs.0.as_int() <= I::spec_max(),
        ensures
            r.0.as_int() == self.0.as_int() + rhs.0.as_int(),
    {
        Decimal(self.0.checked_add(rhs.0).unwrap())
    }

    /// Checked subtraction on the wrapped integers, exactly where the
    /// backing difference fits.
    pub fn sub(self, rhs: Self) -> (r: Self)
        requires
            I::spec_min() <= self.0.as_int() - rhs.0.as_int() <= I::spec_max(),
        ensures
            r.0.as_int() == self.0.as_int() - rhs.0.as_int(),
    {
        Decimal(self.0.checked_sub(rhs.0).unwrap())
    }

    /// Decimal multiplication: the full-width product of the backing
    /// integers divided by the scaling factor, truncating toward zero.
    pub fn mul(self, rhs: Self) -> (r: Self)
        requires
            scale_fits::<I>(D as nat),
            I::spec_min() <= div_trunc(self.0.as_int() * rhs.0.as_int(), pow10(D as nat))
                <= I::spec_max(),
        ensures
            r.0.as_int() == div_trunc(self.0.as_int() * rhs.0.as_int(), pow10(D as nat)),
    {
        proof {
            lemma_pow10_positive(D as nat);
        }
        Decimal(I::full_mul_div(self.0, rhs.0, I::scaling_factor()))
    }

    /// Decimal division: the numerator is pre-scaled by the scaling
    /// factor at full width, then divided, truncating toward zero.
    pub fn div(self, rhs: Self) -> (r: Self)
        requires
            scale_fits::<I>(D as nat),
            rhs.0.as_int() != 0,
            I::spec_min() <= div_trunc(self.0.as_int() * pow10(D as nat), rhs.0.as_int())
                <= I::spec_max(),
        ensures
            r.0.as_int() == div_trunc(self.0.as_int() * pow10(D as nat), rhs.0.as_int()),
    {
        Decimal(I::full_mul_div(self.0, I::scaling_factor(), rhs.0))
    }

    /// Remainder on the wrapped integers, at the same scale, with the
    /// dividend's sign.
    pub fn rem(self, rhs: Self) -> (r: Self)
        requires
            rhs.0.as_int() != 0,
            !(self.0.as_int() == I::spec_min() && rhs.0.as_int() == -1),
        ensures
            r.0.as_int() == rem_trunc(self.0.as_int(), rhs.0.as_int()),
    {
        Decimal(self.0.checked_rem(rhs.0).unwrap())
    }

    /// In-place addition; the new value is the checked sum.
    pub fn add_assign(&mut self, rhs: Self)
        requires
            I::spec_min() <= old(self).0.as_int() + rhs.0.as_int() <= I::spec_max(),
        ensures
            final(self).0.as_int() == old(self).0.as_int() + rhs.0.as_int(),
    {
        *self = Decimal(self.0.checked_add(rhs.0).unwrap());
    }

    /// In-place subtraction; the new value is the checked difference.
    pub fn sub_assign(&mut self, rhs: Self)
        requires
            I::spec_min() <= old(self).0.as_int() - rhs.0.as_int() <= I::spec_max(),
        ensures
            final(self).0.as_int() == old(self).0.as_int() - rhs.0.as_int(),
    {
        *self = Decimal(self.0.checked_sub(rhs.0).unwrap());
    }

    /// In-place multiplication, as `mul`.
    pub fn mul_assign(&mut self, rhs: Self)
        requires
            scale_fits::<I>(D as nat),
            I::spec_min() <= div_trunc(old(self).0.as_int() * rhs.0.as_int(), pow10(D as nat))
                <= I::spec_max(),
        ensures
            final(self).0.as_int() == div_trunc(
                old(self).0.as_int() * rhs.0.as_int(),
                pow10(D as nat),
            ),
    {
        proof {
            lemma_pow10_positive(D as nat);
        }
        *self = Decimal(I::full_mul_div(self.0, rhs.0, I::scaling_factor()));
    }

    /// In-place division, as `div`.
    pub fn div_assign(&mut self, rhs: Self)
        requires
            scale_fits::<I>(D as nat),
            rhs.0.as_int() != 0,
            I::spec_min() <= div_trunc(old(self).0.as_int() * pow10(D as nat), rhs.0.as_int())
                <= I::spec_max(),
        ensures
            final(self).0.as_int() == div_trunc(
                old(self).0.as_int() * pow10(D as nat),
                rhs.0.as_int(),
            ),
    {
        *self = Decimal(I::full_mul_div(self.0, I::scaling_factor(), rhs.0));
    }
}

impl<I, const D: u8> Decimal<I, D> where I: SignedScaledInteger<D> {
    /// Checked negation; defined exactly where the negated value fits.
    pub fn neg(self) -> (r: Self)
        requires
            I::spec_min() <= -self.0.as_int() <= I::spec_max(),
        ensures
            r.0.as_int() == -self.0.as_int(),
    {
        Decimal(self.0.checked_neg().unwrap())
    }

    /// The absolute value; defined exactly where it fits.
    pub fn abs(&self) -> (r: Self)
        requires
            -self.0.as_int() <= I::spec_max(),
        ensures
            r.0.as_int() == abs_int(self.0.as_int()),
    {
        proof {
            self.0.lemma_range();
            I::lemma_type_facts();
            I::lemma_signed();
        }
        if self.0.is_negative() {
            Decimal(self.0.checked_neg().unwrap())
        } else {
            Decimal(self.0)
        }
    }

    /// The positive difference: `self - other` when that is positive,
    /// zero otherwise.
    pub fn abs_sub(&self, other: &Self) -> (r: Self)
        requires
            self.0.as_int() > other.0.as_int() ==> self.0.as_int() - other.0.as_int()
                <= I::spec_max(),
        ensures
            r.0.as_int() == if self.0.as_int() <= other.0.as_int() {
                0int
            } else {
                self.0.as_int() - other.0.as_int()
            },
    {
        if self.0.le_val(other.0) {
            Decimal(I::zero())
        } else {
            proof {
                self.0.lemma_range();
                other.0.lemma_range();
                I::lemma_type_facts();
            }
            Decimal(self.0.checked_sub(other.0).unwrap())
        }
    }

    /// The sign of the value: minus one, zero or one.
    pub fn signum(&self) -> (r: Self)
        ensures
            r.0.as_int() == if self.0.as_int() < 0 {
                -1int
            } else if self.0.as_int() == 0 {
                0int
            } else {
                1int
            },
    {
        proof {
            I::lemma_type_facts();
            I::lemma_signed();
        }
        if self.0.is_negative() {
            Decimal(I::from_digit(1).checked_neg().unwrap())
        } else if self.0.eq_val(I::zero()) {
            Decimal(I::zero())
        } else {
            Decimal(I::from_digit(1))
        }
    }

    /// Whether the value is strictly positive.
    pub fn is_positive(&self) -> (r: bool)
        ensures
            r == (self.0.as_int() > 0),
    {
        !self.0.is_negative() && !self.0.eq_val(I::zero())
    }

    /// Whether the value is strictly negative.
    pub fn is_negative(&self) -> (r: bool)
        ensures
            r == (self.0.as_int() < 0),
    {
        self.0.is_negative()
    }
}

/// A quotient of a value of the type by a divisor other than minus one
/// fits the type: the magnitude shrinks enough, or the sign saves it.
pub(crate) proof fn lemma_shrinking_quotient_fits<I: Primitive>(a: int, b: int)
    requires
        b != 0,
        !(a == I::spec_min() && b == -1),
        I::spec_min() <= a <= I::spec_max(),
        I::spec_min() <= b <= I::spec_max(),
        I::spec_min() <= 0 && I::spec_max() >= 10,
        I::spec_min() == 0 || I::spec_min() == -I::spec_max() - 1,
    ensures
        I::spec_min() <= div_trunc(a, b) <= I::spec_max(),
{
    let q = div_trunc(a, b);
    let m = abs_int(a);
    let n = abs_int(b);
    lemma_div_trunc_abs(a, b);
    vstd::arithmetic::div_mod::lemma_div_nonincreasing(m, n);
    if q < 0 {
        // the magnitude is at most the dividend's, which fits the
        // negative side of the range
        assert(I::spec_min() < 0);
    } else if q > I::spec_max() {
        // then the quotient keeps the whole magnitude of a minimal
        // signed value, which only a divisor of minus one can do
        assert(q == m && m == -I::spec_min() && a == I::spec_min());
        if n >= 2 {
            lemma_div_is_ordered_by_denominator(m, 2, n);
            vstd::arithmetic::div_mod::lemma_div_decreases(m, 2);
            assert(false);
        }
        assert(b == 1 || b == -1);
        if b == 1 {
            // a negative dividend by a positive divisor gives a
            // non-positive quotient
            assert(div_trunc(a, b) <= 0);
            assert(false);
        }
        assert(false);
    }
}

/// Law: multiplying any value by one, and dividing any value by one,
/// both return the value unchanged — for every value of the backing
/// type, the smallest and largest included. `one` is stored as the
/// scaling factor, and both `mul` by one and `div` by one compute
/// `div_trunc(v * 10^D, 10^D)`.
pub proof fn lemma_mul_div_identity_one(v: int, d: nat)
    ensures
        div_trunc(v * pow10(d), pow10(d)) == v,
{
    lemma_pow10_positive(d);
    lemma_div_trunc_exact(v, pow10(d));
}

/// Law: adding zero returns the value unchanged, and one plus one is
/// two — `add` computes the backing sum, zero is stored as `0`, one as
/// the scaling factor and two as twice the scaling factor.
pub proof fn lemma_additive_identity(v: int, d: nat)
    ensures
        v + 0 == v,
        pow10(d) + pow10(d) == 2 * pow10(d),
{
}

/// Law: when the mathematically exact product of two decimals is
/// representable at this scale — the scaled product is divisible by the
/// scaling factor — multiplication computes it exactly, with no
/// truncation: the result times `10^D` recovers the full product.
pub proof fn lemma_exact_mul(a0: int, b0: int, d: nat)
    requires
        rem_trunc(a0 * b0, pow10(d)) == 0,
    ensures
        div_trunc(a0 * b0, pow10(d)) * pow10(d) == a0 * b0,
{
    lemma_pow10_positive(d);
    lemma_exact_quotient(a0 * b0, pow10(d));
}

/// Law: when the mathematically exact quotient of two decimals is
/// representable at this scale — the pre-scaled numerator is divisible
/// by the divisor — division computes it exactly, with no truncation.
pub proof fn lemma_exact_div(a0: int, b0: int, d: nat)
    requires
        b0 != 0,
        rem_trunc(a0 * pow10(d), b0) == 0,
    ensures
        div_trunc(a0 * pow10(d), b0) * b0 == a0 * pow10(d),
{
    lemma_exact_quotient(a0 * pow10(d), b0);
}

/// A division with remainder zero loses nothing: multiplying the
/// quotient back recovers the dividend.
pub proof fn lemma_exact_quotient(x: int, y: int)
    requires
        y != 0,
        rem_trunc(x, y) == 0,
    ensures
        div_trunc(x, y) * y == x,
{
    lemma_div_trunc_fundamental(x, y);
    assert(y * div_trunc(x, y) == div_trunc(x, y) * y) by (nonlinear_arith);
}

} // verus!
