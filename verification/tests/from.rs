use std::str::FromStr;

use const_decimal::{Decimal, Int128_18, Uint128_18};

fn lcg(state: &mut u128) -> u128 {
    *state = state
        .wrapping_mul(47026247687942121848144207491837523525)
        .wrapping_add(117397592171526113268558934119004209487);
    *state
}

#[test]
fn from_uint128_18_from_uint64_9() {
    let mut state: u128 = 9;
    let mut values: Vec<u64> = vec![0, 1, u64::MAX, 123_456_789_012_345];
    for _ in 0..100 {
        values.push(lcg(&mut state) as u64);
    }
    for v in values {
        let decimal = Decimal::<u64, 9>(v);
        let out = Uint128_18::from(decimal);
        let out_f = f64::from_str(&out.to_string()).unwrap();
        let decimal_f = f64::from_str(&decimal.to_string()).unwrap();

        assert_eq!(out_f, decimal_f);
    }
}

#[test]
fn from_int128_18_from_int64_9() {
    let mut state: u128 = 10;
    let mut values: Vec<i64> = vec![0, 1, -1, i64::MAX, i64::MIN, -123_456_789_012_345];
    for _ in 0..100 {
        values.push(lcg(&mut state) as i64);
    }
    for v in values {
        let decimal = Decimal::<i64, 9>(v);
        let out = Int128_18::from(decimal);
        let out_f = f64::from_str(&out.to_string()).unwrap();
        let decimal_f = f64::from_str(&decimal.to_string()).unwrap();

        assert_eq!(out_f, decimal_f);
    }
}

#[test]
fn from_preserves_scaled_value() {
    let out = Uint128_18::from(Decimal::<u64, 9>(1_500_000_000));
    assert_eq!(out, Decimal(1_500_000_000_000_000_000u128));

    let out = Int128_18::from(Decimal::<i64, 9>(-1_500_000_000));
    assert_eq!(out, Decimal(-1_500_000_000_000_000_000i128));
}
