use const_decimal::{Decimal, Int64_9, ParseDecimalError, Uint128_18, Uint64_9};

#[test]
fn uint64_9_to_string() {
    assert_eq!(Uint64_9::one().to_string(), "1.000000000");
    assert_eq!(Uint64_9::try_from_scaled(123, 9).unwrap().to_string(), "0.000000123");
    assert_eq!(
        (Uint64_9::one().add(Uint64_9::try_from_scaled(123, 9).unwrap())).to_string(),
        "1.000000123"
    );
}

#[test]
fn uint64_9_from_str() {
    assert_eq!("".parse::<Uint64_9>(), Err(ParseDecimalError::MissingDecimalPoint));
    assert_eq!("1.".parse::<Uint64_9>(), Err(ParseDecimalError::ParseInt));
    assert_eq!("1.0".parse::<Uint64_9>(), Ok(Uint64_9::one()));
    assert_eq!("0.1".parse::<Uint64_9>(), Ok(Decimal(10u64.pow(8))));
    assert_eq!("0.123456789".parse::<Uint64_9>(), Ok(Decimal(123456789)));
    assert_eq!("0.012345678".parse::<Uint64_9>(), Ok(Decimal(12345678)));
    assert_eq!("0.000000001".parse::<Uint64_9>(), Ok(Decimal(1)));

    assert_eq!("0.0000000001".parse::<Uint64_9>(), Err(ParseDecimalError::PrecisionLoss(10)));
    assert_eq!(
        format!("{}.0", u64::MAX).parse::<Uint64_9>(),
        Err(ParseDecimalError::Overflow(u64::MAX, 0))
    );
    assert_eq!(
        format!("{}.0", u64::MAX / 1_000_000_000).parse::<Uint64_9>(),
        Ok(Decimal(u64::MAX / 1_000_000_000 * 1_000_000_000))
    );
    assert_eq!("18446744073.709551615".parse::<Uint64_9>(), Ok(Uint64_9::max()));
    assert_eq!(
        "18446744073.709551616".parse::<Uint64_9>(),
        Err(ParseDecimalError::Overflow(18446744073, 709551616)),
    );
}

#[test]
fn int64_9_to_string() {
    assert_eq!(Int64_9::one().to_string(), "1.000000000");
    assert_eq!(Int64_9::try_from_scaled(123, 9).unwrap().to_string(), "0.000000123");
    assert_eq!(
        (Int64_9::one().add(Int64_9::try_from_scaled(123, 9).unwrap())).to_string(),
        "1.000000123"
    );
    assert_eq!(Int64_9::one().neg().to_string(), "-1.000000000");
    assert_eq!(Int64_9::try_from_scaled(123, 9).unwrap().neg().to_string(), "-0.000000123");
    assert_eq!(
        (Int64_9::one().neg().add(Int64_9::try_from_scaled(123, 9).unwrap().neg())).to_string(),
        "-1.000000123"
    );
}

#[test]
fn int64_9_from_str() {
    assert_eq!("".parse::<Int64_9>(), Err(ParseDecimalError::MissingDecimalPoint));
    assert_eq!("1.".parse::<Int64_9>(), Err(ParseDecimalError::ParseInt));
    assert_eq!("1.0".parse::<Int64_9>(), Ok(Int64_9::one()));
    assert_eq!("0.1".parse::<Int64_9>(), Ok(Decimal(10i64.pow(8))));
    assert_eq!("0.123456789".parse::<Int64_9>(), Ok(Decimal(123456789)));
    assert_eq!("0.012345678".parse::<Int64_9>(), Ok(Decimal(12345678)));
    assert_eq!("0.000000001".parse::<Int64_9>(), Ok(Decimal(1)));
    assert_eq!("0.0000000001".parse::<Int64_9>(), Err(ParseDecimalError::PrecisionLoss(10)));
    assert_eq!("-1.0".parse::<Int64_9>(), Ok(Int64_9::one().neg()));
    assert_eq!("-0.1".parse::<Int64_9>(), Ok(Decimal(10i64.pow(8)).neg()));
    assert_eq!("-0.123456789".parse::<Int64_9>(), Ok(Decimal(123456789).neg()));
    assert_eq!("-0.012345678".parse::<Int64_9>(), Ok(Decimal(12345678).neg()));
    assert_eq!("-0.000000001".parse::<Int64_9>(), Ok(Decimal(1).neg()));
    assert_eq!("-0.0000000001".parse::<Int64_9>(), Err(ParseDecimalError::PrecisionLoss(10)));
}

#[test]
fn sign_must_lead_the_whole_text() {
    // a sign anywhere but in front of the whole text is a bad digit
    assert_eq!("+1.0".parse::<Int64_9>(), Err(ParseDecimalError::ParseInt));
    assert_eq!("1.-5".parse::<Int64_9>(), Err(ParseDecimalError::ParseInt));
    assert_eq!("1.+5".parse::<Int64_9>(), Err(ParseDecimalError::ParseInt));
    // a leading minus on an unsigned decimal negates in two's complement
    assert_eq!("-1.0".parse::<Uint64_9>(), Ok(Decimal(u64::MAX - 1_000_000_000 + 1)));
    assert_eq!("-0.0".parse::<Uint64_9>(), Ok(Decimal(0)));
}

#[test]
fn zero_fractional_digits_format_and_parse() {
    // with no fractional digits kept, the canonical text still carries
    // one zero digit after the dot, which parsing then refuses: a type
    // with zero decimals does not round-trip through text
    let d = Decimal::<u64, 0>(5);
    assert_eq!(d.to_string(), "5.0");
    assert_eq!(Decimal::<u64, 0>::from_str("5.0"), Err(ParseDecimalError::PrecisionLoss(1)));
    assert_eq!(Decimal::<u64, 0>::from_str("5."), Err(ParseDecimalError::ParseInt));
}

/// A crude linear-congruential sequence, enough to sweep assorted bit
/// patterns deterministically.
fn lcg(state: &mut u128) -> u128 {
    *state = state
        .wrapping_mul(47026247687942121848144207491837523525)
        .wrapping_add(117397592171526113268558934119004209487);
    *state
}

#[test]
fn uint64_9_round_trip() {
    let mut state: u128 = 1;
    let mut values: Vec<u64> = vec![0, 1, u64::MAX, u64::MAX - 1, 999_999_999, 1_000_000_000];
    for _ in 0..200 {
        values.push(lcg(&mut state) as u64);
    }
    for v in values {
        let decimal = Decimal::<u64, 9>(v);
        let round_trip: Uint64_9 = decimal.to_string().parse().unwrap();
        assert_eq!(decimal, round_trip);
    }
}

#[test]
fn int64_9_round_trip() {
    let mut state: u128 = 2;
    let mut values: Vec<i64> = vec![0, 1, -1, i64::MAX, i64::MIN, i64::MIN + 1, -999_999_999];
    for _ in 0..200 {
        values.push(lcg(&mut state) as i64);
    }
    for v in values {
        let decimal = Decimal::<i64, 9>(v);
        let round_trip: Int64_9 = decimal.to_string().parse().unwrap();
        assert_eq!(decimal, round_trip);
    }
}

#[test]
fn uint128_18_round_trip() {
    let mut state: u128 = 3;
    let mut values: Vec<u128> = vec![0, 1, u128::MAX, u128::MAX - 1, 10u128.pow(18)];
    for _ in 0..200 {
        values.push(lcg(&mut state));
    }
    for v in values {
        let decimal = Decimal::<u128, 18>(v);
        let round_trip: Uint128_18 = decimal.to_string().parse().unwrap();
        assert_eq!(decimal, round_trip);
    }
}

#[test]
fn int128_18_round_trip() {
    let mut state: u128 = 4;
    let mut values: Vec<i128> = vec![0, 1, -1, i128::MAX, i128::MIN, i128::MIN + 1];
    for _ in 0..200 {
        values.push(lcg(&mut state) as i128);
    }
    for v in values {
        let decimal = Decimal::<i128, 18>(v);
        let round_trip: const_decimal::Int128_18 = decimal.to_string().parse().unwrap();
        assert_eq!(decimal, round_trip);
    }
}

fn arbitrary_strings() -> Vec<String> {
    let mut out: Vec<String> = vec![
        String::new(),
        "-".to_owned(),
        ".".to_owned(),
        "..".to_owned(),
        "-.".to_owned(),
        "1..2".to_owned(),
        "--1.0".to_owned(),
        "+1.0".to_owned(),
        " 1.0".to_owned(),
        "1.0 ".to_owned(),
        "abc".to_owned(),
        "a.b".to_owned(),
        "\u{00e9}.\u{00e9}".to_owned(),
        "1.0e5".to_owned(),
        "NaN".to_owned(),
        "-0.0".to_owned(),
        "999999999999999999999999999999999999999999.0".to_owned(),
        "0.999999999999999999999999999999999999999999".to_owned(),
    ];
    let mut state: u128 = 5;
    let alphabet: Vec<char> = "0123456789.-x\u{263a}".chars().collect();
    for _ in 0..200 {
        let len = (lcg(&mut state) % 24) as usize;
        let mut s = String::new();
        for _ in 0..len {
            let i = (lcg(&mut state) as usize) % alphabet.len();
            s.push(alphabet[i]);
        }
        out.push(s);
    }
    out
}

#[test]
fn uint64_9_parse_no_panic() {
    for s in arbitrary_strings() {
        let _ = s.parse::<Uint64_9>();
    }
}

#[test]
fn int64_9_parse_no_panic() {
    for s in arbitrary_strings() {
        let _ = s.parse::<Int64_9>();
    }
}

#[test]
fn uint128_18_parse_no_panic() {
    for s in arbitrary_strings() {
        let _ = s.parse::<Uint128_18>();
    }
}

#[test]
fn int128_18_parse_no_panic() {
    for s in arbitrary_strings() {
        let _ = s.parse::<const_decimal::Int128_18>();
    }
}

fn numeric_strings() -> Vec<String> {
    let mut out: Vec<String> = Vec::new();
    let mut state: u128 = 6;
    for _ in 0..200 {
        let int_len = (lcg(&mut state) % 25) as usize;
        let frac_len = (lcg(&mut state) % 25) as usize;
        let mut s = String::new();
        for _ in 0..int_len {
            s.push(char::from(b'0' + (lcg(&mut state) % 10) as u8));
        }
        s.push('.');
        for _ in 0..frac_len {
            s.push(char::from(b'0' + (lcg(&mut state) % 10) as u8));
        }
        out.push(s);
    }
    out
}

#[test]
fn uint64_9_parse_numeric_no_panic() {
    for s in numeric_strings() {
        let _ = s.parse::<Uint64_9>();
    }
}

#[test]
fn int64_9_parse_numeric_no_panic() {
    for s in numeric_strings() {
        let _ = s.parse::<Int64_9>();
    }
}

#[test]
fn uint128_18_parse_numeric_no_panic() {
    for s in numeric_strings() {
        let _ = s.parse::<Uint128_18>();
    }
}

#[test]
fn int128_18_parse_numeric_no_panic() {
    for s in numeric_strings() {
        let _ = s.parse::<const_decimal::Int128_18>();
    }
}
