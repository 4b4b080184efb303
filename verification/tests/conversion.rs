use std::str::FromStr;

use const_decimal::{Decimal, Int128_18, Uint128_18};

fn lcg(state: &mut u128) -> u128 {
    *state = state
        .wrapping_mul(47026247687942121848144207491837523525)
        .wrapping_add(117397592171526113268558934119004209487);
    *state
}

#[test]
fn conversion_uint128_18_from_uint64_9() {
    let mut state: u128 = 7;
    let mut values: Vec<u64> = vec![0, 1, u64::MAX, 999_999_999, 1_000_000_000];
    for _ in 0..100 {
        values.push(lcg(&mut state) as u64);
    }
    for v in values {
        let decimal = Decimal::<u64, 9>(v);
        let out = Uint128_18::from(decimal);
        let out_f = f64::from_str(&out.to_string()).unwrap();
        let decimal_f = f64::from_str(&decimal.to_string()).unwrap();

        assert_eq!(out_f, decimal_f);
    }
}

#[test]
fn conversion_int128_18_from_int64_9() {
    let mut state: u128 = 8;
    let mut values: Vec<i64> = vec![0, 1, -1, i64::MAX, i64::MIN];
    for _ in 0..100 {
        values.push(lcg(&mut state) as i64);
    }
    for v in values {
        let decimal = Decimal::<i64, 9>(v);
        let out = Int128_18::from(decimal);
        let out_f = f64::from_str(&out.to_string()).unwrap();
        let decimal_f = f64::from_str(&decimal.to_string()).unwrap();

        assert_eq!(out_f, decimal_f);
    }
}
