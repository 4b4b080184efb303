use const_decimal::FullMulDiv;

#[test]
fn u128_full_mul_div() {
    // the quotient equals the dividend whenever multiplier and divisor
    // cancel, even though the intermediate product needs 256 bits
    assert_eq!(u128::full_mul_div(u128::MAX, u128::MAX, u128::MAX), u128::MAX);
    // 2 * (2^128 - 1) / 4 == 2^127 - 1
    assert_eq!(
        u128::full_mul_div(u128::MAX, 2, 4),
        170141183460469231731687303715884105727
    );
    // 10^20 * 10^20 / 10^18 == 10^22
    assert_eq!(
        u128::full_mul_div(100_000_000_000_000_000_000, 100_000_000_000_000_000_000, 10u128.pow(18)),
        10_000_000_000_000_000_000_000
    );
    // small operands behave like plain integer arithmetic
    assert_eq!(u128::full_mul_div(123_456_789, 987_654_321, 1_000), 121_932_631_112_635);
    assert_eq!(u128::full_mul_div(0, u128::MAX, 7), 0);
}

#[test]
fn i128_full_mul_div() {
    // the native-width path
    assert_eq!(i128::full_mul_div(123_456_789, 987_654_321, 1_000), 121_932_631_112_635);
    assert_eq!(i128::full_mul_div(-7, 3, 2), -10);
    assert_eq!(i128::full_mul_div(7, -3, 2), -10);
    assert_eq!(i128::full_mul_div(-7, -3, 2), 10);
    assert_eq!(i128::full_mul_div(7, 3, -2), -10);
    assert_eq!(i128::full_mul_div(i128::MIN, 1, 1), i128::MIN);
    assert_eq!(i128::full_mul_div(i128::MAX, 1, -1), -i128::MAX);
    // the wide path: the product does not fit 128 bits
    assert_eq!(
        i128::full_mul_div(
            100_000_000_000_000_000_000,
            -100_000_000_000_000_000_000,
            10i128.pow(18),
        ),
        -10_000_000_000_000_000_000_000
    );
    assert_eq!(
        i128::full_mul_div(
            -100_000_000_000_000_000_000,
            -100_000_000_000_000_000_000,
            10i128.pow(18),
        ),
        10_000_000_000_000_000_000_000
    );
    assert_eq!(i128::full_mul_div(i128::MAX, i128::MAX, i128::MAX), i128::MAX);
    assert_eq!(i128::full_mul_div(i128::MIN, i128::MAX, i128::MAX), i128::MIN);
}
