use const_decimal::{Decimal, Int128_18, Int64_9, Uint128_18, Uint64_9};

#[test]
fn u64_9_identities() {
    assert_eq!(Uint64_9::one().add(Uint64_9::one()), Uint64_9::two());
    assert_eq!(Uint64_9::one().sub(Uint64_9::one()), Uint64_9::zero());
    assert_eq!(Uint64_9::one().mul(Uint64_9::one()), Uint64_9::one());
    assert_eq!(Uint64_9::one().div(Uint64_9::one()), Uint64_9::one());
    assert_eq!(Uint64_9::max().mul(Uint64_9::one()), Uint64_9::max());
    assert_eq!(Uint64_9::max().div(Uint64_9::one()), Uint64_9::max());
    assert_eq!(Uint64_9::min().mul(Uint64_9::one()), Uint64_9::min());
    assert_eq!(Uint64_9::min().div(Uint64_9::one()), Uint64_9::min());
    assert_eq!(Uint64_9::zero().add(Uint64_9::one()), Uint64_9::one());
}

#[test]
fn i64_9_identities() {
    assert_eq!(Int64_9::one().add(Int64_9::one()), Int64_9::two());
    assert_eq!(Int64_9::one().sub(Int64_9::one()), Int64_9::zero());
    assert_eq!(Int64_9::one().mul(Int64_9::one()), Int64_9::one());
    assert_eq!(Int64_9::one().div(Int64_9::one()), Int64_9::one());
    assert_eq!(Int64_9::max().mul(Int64_9::one()), Int64_9::max());
    assert_eq!(Int64_9::max().div(Int64_9::one()), Int64_9::max());
    assert_eq!(Int64_9::min().mul(Int64_9::one()), Int64_9::min());
    assert_eq!(Int64_9::min().div(Int64_9::one()), Int64_9::min());
}

#[test]
fn u128_18_identities() {
    assert_eq!(Uint128_18::one().add(Uint128_18::one()), Uint128_18::two());
    assert_eq!(Uint128_18::one().mul(Uint128_18::one()), Uint128_18::one());
    assert_eq!(Uint128_18::max().mul(Uint128_18::one()), Uint128_18::max());
    assert_eq!(Uint128_18::max().div(Uint128_18::one()), Uint128_18::max());
}

#[test]
fn i128_18_identities() {
    assert_eq!(Int128_18::one().add(Int128_18::one()), Int128_18::two());
    assert_eq!(Int128_18::one().mul(Int128_18::one()), Int128_18::one());
    assert_eq!(Int128_18::min().mul(Int128_18::one()), Int128_18::min());
    assert_eq!(Int128_18::min().div(Int128_18::one()), Int128_18::min());
    assert_eq!(Int128_18::max().mul(Int128_18::one()), Int128_18::max());
    assert_eq!(Int128_18::max().div(Int128_18::one()), Int128_18::max());
}

#[test]
fn assign_operators() {
    let mut out = Uint64_9::one();
    out.add_assign(Uint64_9::one());
    assert_eq!(out, Uint64_9::two());

    let mut out = Uint64_9::one();
    out.sub_assign(Uint64_9::one());
    assert_eq!(out, Uint64_9::zero());

    let mut out = Uint64_9::one();
    out.mul_assign(Uint64_9::two());
    assert_eq!(out, Uint64_9::two());

    let mut out = Uint64_9::one();
    out.div_assign(Uint64_9::two());
    assert_eq!(out, Uint64_9::one().div(Uint64_9::two()));
    assert_eq!(out, Decimal(500_000_000));
}

#[test]
fn try_from_scaled_five_at_scale_zero() {
    let five = Int64_9::try_from_scaled(5, 0).unwrap();
    assert_eq!(five, Int64_9::two().add(Int64_9::two()).add(Int64_9::one()));
    assert_eq!(five.0, 5_000_000_000);
}

#[test]
fn try_from_scaled_same_scale_is_identity() {
    assert_eq!(Uint64_9::try_from_scaled(12345, 9), Some(Decimal(12345)));
    assert_eq!(Int64_9::try_from_scaled(-12345, 9), Some(Decimal(-12345)));
    assert_eq!(Uint64_9::try_from_scaled(u64::MAX, 9), Some(Decimal(u64::MAX)));
    assert_eq!(Int64_9::try_from_scaled(i64::MIN, 9), Some(Decimal(i64::MIN)));
}

#[test]
fn try_from_scaled_narrowing() {
    // one at scale zero through two is one
    assert_eq!(Uint64_9::try_from_scaled(1, 0), Some(Uint64_9::one()));
    assert_eq!(Uint64_9::try_from_scaled(10, 1), Some(Uint64_9::one()));
    assert_eq!(Uint64_9::try_from_scaled(100, 2), Some(Uint64_9::one()));
    // more fractional digits than kept: exact multiples pass, others fail
    assert_eq!(Uint64_9::try_from_scaled(1000, 12), Some(Decimal(1)));
    assert_eq!(Uint64_9::try_from_scaled(1234000, 12), Some(Decimal(1234)));
    assert_eq!(Uint64_9::try_from_scaled(1234, 12), None);
    assert_eq!(Int64_9::try_from_scaled(-5000, 12), Some(Decimal(-5)));
    assert_eq!(Int64_9::try_from_scaled(-5001, 12), None);
    // widening overflow
    assert_eq!(Uint64_9::try_from_scaled(u64::MAX, 0), None);
}

#[test]
fn quantize_round_to_zero_basics() {
    let quantum = Uint64_9::try_from_scaled(5, 1).unwrap();
    let original = Uint64_9::try_from_scaled(61, 1).unwrap();
    assert_eq!(original.quantize_round_to_zero(quantum), Uint64_9::try_from_scaled(60, 1).unwrap());
    let original = Uint64_9::try_from_scaled(49, 1).unwrap();
    assert_eq!(original.quantize_round_to_zero(quantum), Uint64_9::try_from_scaled(45, 1).unwrap());
    let original = Uint64_9::try_from_scaled(44, 1).unwrap();
    assert_eq!(original.quantize_round_to_zero(quantum), Uint64_9::try_from_scaled(40, 1).unwrap());

    let quantum = Uint64_9::try_from_scaled(2, 1).unwrap();
    let original = Uint64_9::try_from_scaled(61, 1).unwrap();
    assert_eq!(original.quantize_round_to_zero(quantum), Uint64_9::try_from_scaled(60, 1).unwrap());
    let original = Uint64_9::try_from_scaled(49, 1).unwrap();
    assert_eq!(original.quantize_round_to_zero(quantum), Uint64_9::try_from_scaled(48, 1).unwrap());
    let original = Uint64_9::try_from_scaled(44, 1).unwrap();
    assert_eq!(original.quantize_round_to_zero(quantum), Uint64_9::try_from_scaled(44, 1).unwrap());

    let quantum = Uint64_9::try_from_scaled(4, 1).unwrap();
    let original = Uint64_9::try_from_scaled(123, 1).unwrap();
    assert_eq!(
        original.quantize_round_to_zero(quantum),
        Uint64_9::try_from_scaled(120, 1).unwrap()
    );
}

#[test]
fn quantize_toward_zero_scenario() {
    // 11.65 at five fractional digits
    let d = Decimal::<i64, 5>::try_from_scaled(1165, 2).unwrap();
    // allow only increments of 0.5
    let quantum = Decimal::<i64, 5>::try_from_scaled(5, 1).unwrap();
    let q = d.quantize_round_to_zero(quantum);
    // 11.5 rounded down to the nearest quantum
    assert_eq!(q, Decimal::try_from_scaled(115, 1).unwrap());
    // a negative value rounds toward zero
    let q = d.neg().quantize_round_to_zero(quantum);
    assert_eq!(q, Decimal::try_from_scaled(115, 1).unwrap().neg());
}

#[test]
fn mul_matches_scaled_product() {
    // 1.5 * 2.0 == 3.0
    let a = Decimal::<u64, 9>(1_500_000_000);
    let b = Decimal::<u64, 9>(2_000_000_000);
    assert_eq!(a.mul(b), Decimal(3_000_000_000));
    // a truncating case: 0.000000001 * 0.1 truncates to zero
    let a = Decimal::<u64, 9>(1);
    let b = Decimal::<u64, 9>(100_000_000);
    assert_eq!(a.mul(b), Decimal(0));
    // the product needs the full width even though the result fits
    let a = Decimal::<u64, 9>(u64::MAX);
    let b = Decimal::<u64, 9>(500_000_000);
    assert_eq!(a.mul(b), Decimal(u64::MAX / 2));
}

#[test]
fn div_matches_scaled_quotient() {
    // 3.0 / 2.0 == 1.5
    let a = Decimal::<u64, 9>(3_000_000_000);
    let b = Decimal::<u64, 9>(2_000_000_000);
    assert_eq!(a.div(b), Decimal(1_500_000_000));
    // 1.0 / 3.0 truncates toward zero
    let a = Decimal::<u64, 9>(1_000_000_000);
    let b = Decimal::<u64, 9>(3_000_000_000);
    assert_eq!(a.div(b), Decimal(333_333_333));
    // signed truncation is toward zero, not downward
    let a = Decimal::<i64, 9>(-1_000_000_000);
    let b = Decimal::<i64, 9>(3_000_000_000);
    assert_eq!(a.div(b), Decimal(-333_333_333));
}

#[test]
fn wide_mul_reaches_the_128_bit_path() {
    // 100 * 100 == 10000 at eighteen digits: the raw product of the
    // stored integers is 10^40, beyond any 128-bit integer
    let hundred = Decimal::<u128, 18>(100_000_000_000_000_000_000);
    assert_eq!(hundred.mul(hundred), Decimal(10_000_000_000_000_000_000_000));

    let hundred = Decimal::<i128, 18>(100_000_000_000_000_000_000);
    assert_eq!(
        hundred.neg().mul(hundred),
        Decimal(-10_000_000_000_000_000_000_000)
    );
}

#[test]
fn rem_keeps_scale_and_sign() {
    let a = Decimal::<i64, 9>(7_500_000_000);
    let b = Decimal::<i64, 9>(2_000_000_000);
    assert_eq!(a.rem(b), Decimal(1_500_000_000));
    assert_eq!(a.neg().rem(b), Decimal(-1_500_000_000));
}

#[test]
fn signed_helpers() {
    let one = Int64_9::one();
    assert_eq!(one.neg().abs(), one);
    assert_eq!(one.abs(), one);
    assert_eq!(one.signum(), Decimal(1));
    assert_eq!(one.neg().signum(), Decimal(-1));
    assert_eq!(Int64_9::zero().signum(), Decimal(0));
    assert!(one.is_positive());
    assert!(!one.is_negative());
    assert!(one.neg().is_negative());
    assert!(!Int64_9::zero().is_positive());
    assert_eq!(one.abs_sub(&Int64_9::two()), Int64_9::zero());
    assert_eq!(Int64_9::two().abs_sub(&one), one);
}

#[test]
fn add_sub_match_native_integers() {
    let pairs: Vec<(u64, u64)> = vec![
        (0, 0),
        (1, 2),
        (u64::MAX - 5, 5),
        (123_456_789, 987_654_321),
    ];
    for (x, y) in pairs {
        assert_eq!(Decimal::<u64, 9>(x).add(Decimal(y)).0, x + y);
        assert_eq!(Decimal::<u64, 9>(x + y).sub(Decimal(y)).0, x);
    }
    let pairs: Vec<(i64, i64)> = vec![(0, 0), (-5, 3), (i64::MIN + 9, -9), (i64::MAX - 7, 7)];
    for (x, y) in pairs {
        assert_eq!(Decimal::<i64, 9>(x).add(Decimal(y)).0, x + y);
        assert_eq!(Decimal::<i64, 9>(x).sub(Decimal(y)).0, x - y);
    }
}

#[test]
fn accessors() {
    let d = Decimal::<u64, 9>(42);
    assert_eq!(d.integer(), 42);
    assert_eq!(Uint64_9::decimals(), 9);
    assert_eq!(Uint64_9::scaling_factor(), 1_000_000_000);
    assert!(Uint64_9::zero().is_zero());
    assert!(!Uint64_9::one().is_zero());
    assert_eq!(Uint64_9::min(), Decimal(0));
    assert_eq!(Uint64_9::max(), Decimal(u64::MAX));
    assert_eq!(Int64_9::min(), Decimal(i64::MIN));
}

#[test]
fn log10_counts_digits() {
    assert_eq!(const_decimal::algorithms::log10::<9, u64>(0), 0);
    assert_eq!(const_decimal::algorithms::log10::<9, u64>(1), 1);
    assert_eq!(const_decimal::algorithms::log10::<9, u64>(9), 1);
    assert_eq!(const_decimal::algorithms::log10::<9, u64>(10), 2);
    assert_eq!(const_decimal::algorithms::log10::<9, u64>(999), 3);
    assert_eq!(const_decimal::algorithms::log10::<9, u64>(u64::MAX), 20);
    assert_eq!(const_decimal::algorithms::log10::<9, i64>(-5), 0);
}
