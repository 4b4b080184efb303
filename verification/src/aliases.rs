use vstd::prelude::*;

use crate::algorithms::pow10;
use crate::decimal::{scale_fits, Decimal};

verus! {

/// An unsigned 64-bit decimal with nine fractional digits.
pub type Uint64_9 = Decimal<u64, 9>;

/// An unsigned 128-bit decimal with eighteen fractional digits.
pub type Uint128_18 = Decimal<u128, 18>;

/// A signed 64-bit decimal with nine fractional digits.
pub type Int64_9 = Decimal<i64, 9>;

/// A signed 128-bit decimal with eighteen fractional digits.
pub type Int128_18 = Decimal<i128, 18>;

/// The concrete scaling factors of the bundled variants: ten to the
/// ninth fits the 64-bit backing types and ten to the eighteenth the
/// 128-bit ones, with room for their doubles.
pub proof fn lemma_common_scales_fit()
    ensures
        pow10(9) == 1000000000,
        pow10(18) == 1000000000000000000,
        scale_fits::<u64>(9),
        scale_fits::<i64>(9),
        scale_fits::<u128>(18),
        scale_fits::<i128>(18),
        2 * pow10(9) <= i64::MAX,
        2 * pow10(18) <= i128::MAX,
{
    assert(pow10(0) == 1);
    assert(pow10(1) == 10);
    assert(pow10(2) == 100);
    assert(pow10(3) == 1000);
    assert(pow10(4) == 10000);
    assert(pow10(5) == 100000);
    assert(pow10(6) == 1000000);
    assert(pow10(7) == 10000000);
    assert(pow10(8) == 100000000);
    assert(pow10(9) == 1000000000);
    assert(pow10(10) == 10000000000);
    assert(pow10(11) == 100000000000);
    assert(pow10(12) == 1000000000000);
    assert(pow10(13) == 10000000000000);
    assert(pow10(14) == 100000000000000);
    assert(pow10(15) == 1000000000000000);
    assert(pow10(16) == 10000000000000000);
    assert(pow10(17) == 100000000000000000);
    assert(pow10(18) == 1000000000000000000);
}

} // verus!
