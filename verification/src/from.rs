use vstd::prelude::*;

use crate::aliases::{Int128_18, Int64_9, Uint128_18, Uint64_9};
use crate::decimal::Decimal;

verus! {

impl core::convert::From<Uint64_9> for Uint128_18 {
    /// Widens from nine to eighteen fractional digits; the value cannot
    /// overflow, as the largest 64-bit value times a billion fits well
    /// within 128 bits.
    fn from(value: Uint64_9) -> (r: Self) {
        proof {
            assert((value.0 as int) * 1000000000 <= (u64::MAX as int) * 1000000000)
                by (nonlinear_arith)
                requires
                    value.0 as int <= u64::MAX as int,
            ;
        }
        Decimal((value.0 as u128) * 1000000000)
    }
}

impl vstd::std_specs::convert::FromSpecImpl<Uint64_9> for Uint128_18 {
    open spec fn obeys_from_spec() -> bool {
        true
    }

    open spec fn from_spec(value: Uint64_9) -> Self {
        Decimal(((value.0 as int) * 1000000000) as u128)
    }
}

impl core::convert::From<Int64_9> for Int128_18 {
    /// Widens from nine to eighteen fractional digits; the value cannot
    /// overflow, as the largest 64-bit magnitude times a billion fits
    /// well within 128 bits.
    fn from(value: Int64_9) -> (r: Self) {
        proof {
            assert((i64::MIN as int) * 1000000000 <= (value.0 as int) * 1000000000 <= (
            i64::MAX as int) * 1000000000) by (nonlinear_arith)
                requires
                    i64::MIN as int <= value.0 as int <= i64::MAX as int,
            ;
        }
        Decimal((value.0 as i128) * 1000000000)
    }
}

impl vstd::std_specs::convert::FromSpecImpl<Int64_9> for Int128_18 {
    open spec fn obeys_from_spec() -> bool {
        true
    }

    open spec fn from_spec(value: Int64_9) -> Self {
        Decimal(((value.0 as int) * 1000000000) as i128)
    }
}

} // verus!
