use vstd::prelude::*;

use crate::algorithms::{lemma_pow10_increases, lemma_pow10_positive, pow10};
use crate::integer::Primitive;

verus! {

/// Computes `10^e` in `I`, or reports that it does not fit.
pub fn try_pow10<I: Primitive>(e: u8) -> (r: Option<I>)
    ensures
        match r {
            Some(v) => pow10(e as nat) <= I::spec_max() && v.as_int() == pow10(e as nat),
            None => pow10(e as nat) > I::spec_max(),
        },
{
    let ten: I = I::ten();
    let mut acc: I = I::one();
    let mut i: u8 = 0;
    while i < e
        invariant
            i <= e,
            ten.as_int() == 10,
            acc.as_int() == pow10(i as nat),
        decreases e - i,
    {
        match acc.checked_mul(ten) {
            Some(next) => {
                acc = next;
            },
            None => {
                proof {
                    I::lemma_type_facts();
                    lemma_pow10_positive(i as nat);
                    lemma_pow10_increases((i + 1) as nat, e as nat);
                }
                return None;
            },
        }
        i = i + 1;
    }
    proof {
        acc.lemma_range();
    }
    Some(acc)
}

/// The scale constants a backing integer derives from the digit count `D`:
/// the scaling factor `10^D`, its double, and the constant two.
pub trait Cheats<const D: u8>: Primitive {
    fn two() -> (r: Self)
        ensures
            r.as_int() == 2,
    {
        Self::from_digit(2)
    }

    fn scaling_factor() -> (r: Self)
        requires
            pow10(D as nat) <= Self::spec_max(),
        ensures
            r.as_int() == pow10(D as nat),
    {
        let r = try_pow10::<Self>(D);
        r.unwrap()
    }

    fn two_scaling_factor() -> (r: Self)
        requires
            2 * pow10(D as nat) <= Self::spec_max(),
        ensures
            r.as_int() == 2 * pow10(D as nat),
    {
        proof {
            lemma_pow10_positive(D as nat);
            Self::lemma_type_facts();
        }
        let sf = Self::scaling_factor();
        sf.checked_add(sf).unwrap()
    }
}

impl<const D: u8> Cheats<D> for u64 {

}

impl<const D: u8> Cheats<D> for i64 {

}

impl<const D: u8> Cheats<D> for u128 {

}

impl<const D: u8> Cheats<D> for i128 {

}

impl<const D: u8> Cheats<D> for i32 {

}

} // verus!
