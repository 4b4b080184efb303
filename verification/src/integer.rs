use vstd::prelude::*;

use crate::algorithms::{abs_int, combine_spec, div_trunc, mag_cap, rem_trunc};
use crate::cheats::Cheats;
use crate::full_mul_div::FullMulDiv;

verus! {

/// The capabilities a backing machine integer must supply, together with
/// its mathematical model (`as_int`) and range. Every operation either
/// returns the exact mathematical result or reports that it does not fit.
pub trait Primitive: Sized + Copy {
    /// The mathematical value of this machine integer.
    spec fn as_int(self) -> int;

    /// Smallest representable value.
    spec fn spec_min() -> int;

    /// Largest representable value.
    spec fn spec_max() -> int;

    /// Every value lies in the type's range.
    proof fn lemma_range(self)
        ensures
            Self::spec_min() <= self.as_int() <= Self::spec_max(),
    ;

    /// The range has the shape of an unsigned or a two's-complement signed
    /// machine type, and is wide enough for a decimal digit and for ten.
    proof fn lemma_type_facts()
        ensures
            Self::spec_min() <= 0,
            Self::spec_max() >= 10,
            Self::spec_min() == 0 || Self::spec_min() == -Self::spec_max() - 1,
    ;

    /// Two values with the same mathematical value are the same value.
    proof fn lemma_injective(a: Self, b: Self)
        ensures
            a.as_int() == b.as_int() ==> a == b,
    ;

    fn zero() -> (r: Self)
        ensures
            r.as_int() == 0,
    ;

    fn one() -> (r: Self)
        ensures
            r.as_int() == 1,
    ;

    fn ten() -> (r: Self)
        ensures
            r.as_int() == 10,
    ;

    fn min_value() -> (r: Self)
        ensures
            r.as_int() == Self::spec_min(),
    ;

    fn max_value() -> (r: Self)
        ensures
            r.as_int() == Self::spec_max(),
    ;

    /// Embeds a single decimal digit.
    fn from_digit(d: u8) -> (r: Self)
        requires
            d <= 9,
        ensures
            r.as_int() == d as int,
    ;

    /// The magnitude of a single-digit value, as a byte.
    fn rem_digit(self) -> (r: u8)
        requires
            -9 <= self.as_int() <= 9,
        ensures
            r as int == abs_int(self.as_int()),
    ;

    fn eq_val(self, rhs: Self) -> (r: bool)
        ensures
            r == (self.as_int() == rhs.as_int()),
    ;

    fn le_val(self, rhs: Self) -> (r: bool)
        ensures
            r == (self.as_int() <= rhs.as_int()),
    ;

    fn is_negative(self) -> (r: bool)
        ensures
            r == (self.as_int() < 0),
    ;

    fn checked_add(self, rhs: Self) -> (r: Option<Self>)
        ensures
            match r {
                Some(v) => Self::spec_min() <= self.as_int() + rhs.as_int() <= Self::spec_max()
                    && v.as_int() == self.as_int() + rhs.as_int(),
                None => !(Self::spec_min() <= self.as_int() + rhs.as_int() <= Self::spec_max()),
            },
    ;

    fn checked_sub(self, rhs: Self) -> (r: Option<Self>)
        ensures
            match r {
                Some(v) => Self::spec_min() <= self.as_int() - rhs.as_int() <= Self::spec_max()
                    && v.as_int() == self.as_int() - rhs.as_int(),
                None => !(Self::spec_min() <= self.as_int() - rhs.as_int() <= Self::spec_max()),
            },
    ;

    fn checked_mul(self, rhs: Self) -> (r: Option<Self>)
        ensures
            match r {
                Some(v) => Self::spec_min() <= self.as_int() * rhs.as_int() <= Self::spec_max()
                    && v.as_int() == self.as_int() * rhs.as_int(),
                None => !(Self::spec_min() <= self.as_int() * rhs.as_int() <= Self::spec_max()),
            },
    ;

    /// Division truncating toward zero, as the machine divides.
    fn checked_div(self, rhs: Self) -> (r: Option<Self>)
        ensures
            match r {
                Some(v) => rhs.as_int() != 0 && Self::spec_min() <= div_trunc(
                    self.as_int(),
                    rhs.as_int(),
                ) <= Self::spec_max() && v.as_int() == div_trunc(self.as_int(), rhs.as_int()),
                None => rhs.as_int() == 0 || !(Self::spec_min() <= div_trunc(
                    self.as_int(),
                    rhs.as_int(),
                ) <= Self::spec_max()),
            },
    ;

    /// Remainder paired with truncating division; it carries the sign of
    /// the dividend.
    fn checked_rem(self, rhs: Self) -> (r: Option<Self>)
        ensures
            match r {
                Some(v) => rhs.as_int() != 0 && !(self.as_int() == Self::spec_min()
                    && rhs.as_int() == -1) && v.as_int() == rem_trunc(self.as_int(), rhs.as_int()),
                None => rhs.as_int() == 0 || (self.as_int() == Self::spec_min() && rhs.as_int()
                    == -1),
            },
    ;

    /// Whether scaling a non-negative integer part by the scaling factor
    /// already exceeds the largest magnitude the type can hold.
    fn mul_sf_overflows(int_part: Self, sf: Self) -> (r: bool)
        requires
            int_part.as_int() >= 0,
            sf.as_int() >= 1,
        ensures
            r == (int_part.as_int() * sf.as_int() > mag_cap(Self::spec_min(), Self::spec_max())),
    ;

    /// Combines a scaled integer part and a fractional part into the stored
    /// value, negating in two's complement when a minus sign was present.
    fn combine_scaled(int_part: Self, frac: Self, sf: Self, negative: bool) -> (r: Option<Self>)
        requires
            int_part.as_int() >= 0,
            frac.as_int() >= 0,
            sf.as_int() >= 1,
            sf.as_int() <= Self::spec_max(),
            int_part.as_int() * sf.as_int() <= mag_cap(Self::spec_min(), Self::spec_max()),
            frac.as_int() < sf.as_int(),
        ensures
            ({
                let m = int_part.as_int() * sf.as_int() + frac.as_int();
                match r {
                    Some(v) => combine_spec(m, negative, Self::spec_min(), Self::spec_max())
                        == Some(v.as_int()),
                    None => combine_spec(m, negative, Self::spec_min(), Self::spec_max()) is None,
                }
            }),
    ;
}

/// A backing integer usable at `D` fractional digits: the primitive
/// capabilities plus the scale constants and the full-width
/// multiply-divide.
pub trait ScaledInteger<const D: u8>: Primitive + Cheats<D> + FullMulDiv {

}

impl<I, const D: u8> ScaledInteger<D> for I where I: Primitive + Cheats<D> + FullMulDiv {

}

/// A signed backing integer: adds checked negation, and the promise that
/// the range is the two's-complement one.
pub trait SignedScaledInteger<const D: u8>: ScaledInteger<D> {
    /// The range of a signed type is symmetric but for the extra
    /// negative value.
    proof fn lemma_signed()
        ensures
            Self::spec_min() == -Self::spec_max() - 1,
    ;

    fn checked_neg(self) -> (r: Option<Self>)
        ensures
            match r {
                Some(v) => Self::spec_min() <= -self.as_int() <= Self::spec_max() && v.as_int()
                    == -self.as_int(),
                None => !(Self::spec_min() <= -self.as_int() <= Self::spec_max()),
            },
    ;
}

impl Primitive for u64 {
    open spec fn as_int(self) -> int {
        self as int
    }

    open spec fn spec_min() -> int {
        0
    }

    open spec fn spec_max() -> int {
        u64::MAX as int
    }

    proof fn lemma_range(self) {
    }

    proof fn lemma_type_facts() {
    }

    proof fn lemma_injective(a: Self, b: Self) {
    }

    fn zero() -> (r: Self) {
        0
    }

    fn one() -> (r: Self) {
        1
    }

    fn ten() -> (r: Self) {
        10
    }

    fn min_value() -> (r: Self) {
        u64::MIN
    }

    fn max_value() -> (r: Self) {
        u64::MAX
    }

    fn from_digit(d: u8) -> (r: Self) {
        d as u64
    }

    fn rem_digit(self) -> (r: u8) {
        self as u8
    }

    fn eq_val(self, rhs: Self) -> (r: bool) {
        self == rhs
    }

    fn le_val(self, rhs: Self) -> (r: bool) {
        self <= rhs
    }

    fn is_negative(self) -> (r: bool) {
        false
    }

    fn checked_add(self, rhs: Self) -> (r: Option<Self>) {
        u64::checked_add(self, rhs)
    }

    fn checked_sub(self, rhs: Self) -> (r: Option<Self>) {
        u64::checked_sub(self, rhs)
    }

    fn checked_mul(self, rhs: Self) -> (r: Option<Self>) {
        u64::checked_mul(self, rhs)
    }

    fn checked_div(self, rhs: Self) -> (r: Option<Self>) {
        u64::checked_div(self, rhs)
    }

    fn checked_rem(self, rhs: Self) -> (r: Option<Self>) {
        u64::checked_rem(self, rhs)
    }

    fn mul_sf_overflows(int_part: Self, sf: Self) -> (r: bool) {
        u64::checked_mul(int_part, sf).is_none()
    }

    fn combine_scaled(int_part: Self, frac: Self, sf: Self, negative: bool) -> (r: Option<Self>) {
        let scaled = u64::checked_mul(int_part, sf).unwrap();
        match u64::checked_add(scaled, frac) {
            None => None,
            Some(m) => {
                if negative {
                    if m == 0 {
                        Some(0)
                    } else {
                        Some(u64::MAX - m + 1)
                    }
                } else {
                    Some(m)
                }
            },
        }
    }
}

impl Primitive for i64 {
    open spec fn as_int(self) -> int {
        self as int
    }

    open spec fn spec_min() -> int {
        i64::MIN as int
    }

    open spec fn spec_max() -> int {
        i64::MAX as int
    }

    proof fn lemma_range(self) {
    }

    proof fn lemma_type_facts() {
    }

    proof fn lemma_injective(a: Self, b: Self) {
    }

    fn zero() -> (r: Self) {
        0
    }

    fn one() -> (r: Self) {
        1
    }

    fn ten() -> (r: Self) {
        10
    }

    fn min_value() -> (r: Self) {
        i64::MIN
    }

    fn max_value() -> (r: Self) {
        i64::MAX
    }

    fn from_digit(d: u8) -> (r: Self) {
        d as i64
    }

    fn rem_digit(self) -> (r: u8) {
        if self < 0 {
            (-self) as u8
        } else {
            self as u8
        }
    }

    fn eq_val(self, rhs: Self) -> (r: bool) {
        self == rhs
    }

    fn le_val(self, rhs: Self) -> (r: bool) {
        self <= rhs
    }

    fn is_negative(self) -> (r: bool) {
        self < 0
    }

    fn checked_add(self, rhs: Self) -> (r: Option<Self>) {
        i64::checked_add(self, rhs)
    }

    fn checked_sub(self, rhs: Self) -> (r: Option<Self>) {
        i64::checked_sub(self, rhs)
    }

    fn checked_mul(self, rhs: Self) -> (r: Option<Self>) {
        i64::checked_mul(self, rhs)
    }

    fn checked_div(self, rhs: Self) -> (r: Option<Self>) {
        i64::checked_div(self, rhs)
    }

    fn checked_rem(self, rhs: Self) -> (r: Option<Self>) {
        proof {
            if rhs != 0 {
                crate::algorithms::lemma_rem_trunc_cases(self as int, rhs as int);
            }
        }
        i64::checked_rem(self, rhs)
    }

    fn mul_sf_overflows(int_part: Self, sf: Self) -> (r: bool) {
        match u64::checked_mul(int_part as u64, sf as u64) {
            None => true,
            Some(p) => p > 9223372036854775808u64,
        }
    }

    fn combine_scaled(int_part: Self, frac: Self, sf: Self, negative: bool) -> (r: Option<Self>) {
        let iu: u64 = int_part as u64;
        let fu: u64 = frac as u64;
        let su: u64 = sf as u64;
        proof {
            assert(iu as int * su as int == int_part.as_int() * sf.as_int());
        }
        let m: u64 = iu * su + fu;
        if negative {
            if m > 9223372036854775808u64 {
                None
            } else if m == 0 {
                Some(0)
            } else {
                Some(-((m - 1) as i64) - 1)
            }
        } else {
            if m > 9223372036854775807u64 {
                None
            } else {
                Some(m as i64)
            }
        }
    }
}

impl<const D: u8> SignedScaledInteger<D> for i64 {
    proof fn lemma_signed() {
    }

    fn checked_neg(self) -> (r: Option<Self>) {
        i64::checked_sub(0, self)
    }
}

impl Primitive for u128 {
    open spec fn as_int(self) -> int {
        self as int
    }

    open spec fn spec_min() -> int {
        0
    }

    open spec fn spec_max() -> int {
        u128::MAX as int
    }

    proof fn lemma_range(self) {
    }

    proof fn lemma_type_facts() {
    }

    proof fn lemma_injective(a: Self, b: Self) {
    }

    fn zero() -> (r: Self) {
        0
    }

    fn one() -> (r: Self) {
        1
    }

    fn ten() -> (r: Self) {
        10
    }

    fn min_value() -> (r: Self) {
        u128::MIN
    }

    fn max_value() -> (r: Self) {
        u128::MAX
    }

    fn from_digit(d: u8) -> (r: Self) {
        d as u128
    }

    fn rem_digit(self) -> (r: u8) {
        self as u8
    }

    fn eq_val(self, rhs: Self) -> (r: bool) {
        self == rhs
    }

    fn le_val(self, rhs: Self) -> (r: bool) {
        self <= rhs
    }

    fn is_negative(self) -> (r: bool) {
        false
    }

    fn checked_add(self, rhs: Self) -> (r: Option<Self>) {
        u128::checked_add(self, rhs)
    }

    fn checked_sub(self, rhs: Self) -> (r: Option<Self>) {
        u128::checked_sub(self, rhs)
    }

    fn checked_mul(self, rhs: Self) -> (r: Option<Self>) {
        u128::checked_mul(self, rhs)
    }

    fn checked_div(self, rhs: Self) -> (r: Option<Self>) {
        u128::checked_div(self, rhs)
    }

    fn checked_rem(self, rhs: Self) -> (r: Option<Self>) {
        u128::checked_rem(self, rhs)
    }

    fn mul_sf_overflows(int_part: Self, sf: Self) -> (r: bool) {
        u128::checked_mul(int_part, sf).is_none()
    }

    fn combine_scaled(int_part: Self, frac: Self, sf: Self, negative: bool) -> (r: Option<Self>) {
        let scaled = u128::checked_mul(int_part, sf).unwrap();
        match u128::checked_add(scaled, frac) {
            None => None,
            Some(m) => {
                if negative {
                    if m == 0 {
                        Some(0)
                    } else {
                        Some(u128::MAX - m + 1)
                    }
                } else {
                    Some(m)
                }
            },
        }
    }
}

impl Primitive for i128 {
    open spec fn as_int(self) -> int {
        self as int
    }

    open spec fn spec_min() -> int {
        i128::MIN as int
    }

    open spec fn spec_max() -> int {
        i128::MAX as int
    }

    proof fn lemma_range(self) {
    }

    proof fn lemma_type_facts() {
    }

    proof fn lemma_injective(a: Self, b: Self) {
    }

    fn zero() -> (r: Self) {
        0
    }

    fn one() -> (r: Self) {
        1
    }

    fn ten() -> (r: Self) {
        10
    }

    fn min_value() -> (r: Self) {
        i128::MIN
    }

    fn max_value() -> (r: Self) {
        i128::MAX
    }

    fn from_digit(d: u8) -> (r: Self) {
        d as i128
    }

    fn rem_digit(self) -> (r: u8) {
        if self < 0 {
            (-self) as u8
        } else {
            self as u8
        }
    }

    fn eq_val(self, rhs: Self) -> (r: bool) {
        self == rhs
    }

    fn le_val(self, rhs: Self) -> (r: bool) {
        self <= rhs
    }

    fn is_negative(self) -> (r: bool) {
        self < 0
    }

    fn checked_add(self, rhs: Self) -> (r: Option<Self>) {
        i128::checked_add(self, rhs)
    }

    fn checked_sub(self, rhs: Self) -> (r: Option<Self>) {
        i128::checked_sub(self, rhs)
    }

    fn checked_mul(self, rhs: Self) -> (r: Option<Self>) {
        i128::checked_mul(self, rhs)
    }

    fn checked_div(self, rhs: Self) -> (r: Option<Self>) {
        i128::checked_div(self, rhs)
    }

    fn checked_rem(self, rhs: Self) -> (r: Option<Self>) {
        proof {
            if rhs != 0 {
                crate::algorithms::lemma_rem_trunc_cases(self as int, rhs as int);
            }
        }
        i128::checked_rem(self, rhs)
    }

    fn mul_sf_overflows(int_part: Self, sf: Self) -> (r: bool) {
        match u128::checked_mul(int_part as u128, sf as u128) {
            None => true,
            Some(p) => p > 170141183460469231731687303715884105728u128,
        }
    }

    fn combine_scaled(int_part: Self, frac: Self, sf: Self, negative: bool) -> (r: Option<Self>) {
        let iu: u128 = int_part as u128;
        let fu: u128 = frac as u128;
        let su: u128 = sf as u128;
        proof {
            assert(iu as int * su as int == int_part.as_int() * sf.as_int());
        }
        let m: u128 = iu * su + fu;
        if negative {
            if m > 170141183460469231731687303715884105728u128 {
                None
            } else if m == 0 {
                Some(0)
            } else {
                Some(-((m - 1) as i128) - 1)
            }
        } else {
            if m > 170141183460469231731687303715884105727u128 {
                None
            } else {
                Some(m as i128)
            }
        }
    }
}

impl Primitive for i32 {
    open spec fn as_int(self) -> int {
        self as int
    }

    open spec fn spec_min() -> int {
        i32::MIN as int
    }

    open spec fn spec_max() -> int {
        i32::MAX as int
    }

    proof fn lemma_range(self) {
    }

    proof fn lemma_type_facts() {
    }

    proof fn lemma_injective(a: Self, b: Self) {
    }

    fn zero() -> (r: Self) {
        0
    }

    fn one() -> (r: Self) {
        1
    }

    fn ten() -> (r: Self) {
        10
    }

    fn min_value() -> (r: Self) {
        i32::MIN
    }

    fn max_value() -> (r: Self) {
        i32::MAX
    }

    fn from_digit(d: u8) -> (r: Self) {
        d as i32
    }

    fn rem_digit(self) -> (r: u8) {
        if self < 0 {
            (-self) as u8
        } else {
            self as u8
        }
    }

    fn eq_val(self, rhs: Self) -> (r: bool) {
        self == rhs
    }

    fn le_val(self, rhs: Self) -> (r: bool) {
        self <= rhs
    }

    fn is_negative(self) -> (r: bool) {
        self < 0
    }

    fn checked_add(self, rhs: Self) -> (r: Option<Self>) {
        i32::checked_add(self, rhs)
    }

    fn checked_sub(self, rhs: Self) -> (r: Option<Self>) {
        i32::checked_sub(self, rhs)
    }

    fn checked_mul(self, rhs: Self) -> (r: Option<Self>) {
        i32::checked_mul(self, rhs)
    }

    fn checked_div(self, rhs: Self) -> (r: Option<Self>) {
        i32::checked_div(self, rhs)
    }

    fn checked_rem(self, rhs: Self) -> (r: Option<Self>) {
        proof {
            if rhs != 0 {
                crate::algorithms::lemma_rem_trunc_cases(self as int, rhs as int);
            }
        }
        i32::checked_rem(self, rhs)
    }

    fn mul_sf_overflows(int_part: Self, sf: Self) -> (r: bool) {
        match u64::checked_mul(int_part as u64, sf as u64) {
            None => true,
            Some(p) => p > 2147483648u64,
        }
    }

    fn combine_scaled(int_part: Self, frac: Self, sf: Self, negative: bool) -> (r: Option<Self>) {
        let iu: u64 = int_part as u64;
        let fu: u64 = frac as u64;
        let su: u64 = sf as u64;
        proof {
            assert(iu as int * su as int == int_part.as_int() * sf.as_int());
        }
        let m: u64 = iu * su + fu;
        if negative {
            if m > 2147483648u64 {
                None
            } else if m == 0 {
                Some(0)
            } else {
                Some(-((m - 1) as i32) - 1)
            }
        } else {
            if m > 2147483647u64 {
                None
            } else {
                Some(m as i32)
            }
        }
    }
}

impl<const D: u8> SignedScaledInteger<D> for i32 {
    proof fn lemma_signed() {
    }

    fn checked_neg(self) -> (r: Option<Self>) {
        i32::checked_sub(0, self)
    }
}

impl<const D: u8> SignedScaledInteger<D> for i128 {
    proof fn lemma_signed() {
    }

    fn checked_neg(self) -> (r: Option<Self>) {
        i128::checked_sub(0, self)
    }
}

} // verus!
