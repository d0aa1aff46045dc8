use rosu_storyboard::num::{parse_i32, parse_num, parse_u8_plain, Num, NumberError, SCALE};

#[test]
fn parse_plain_decimals() {
    assert_eq!(parse_num(b"0", i32::MAX), Ok(Num { units: 0 }));
    assert_eq!(parse_num(b"1.5", i32::MAX), Ok(Num { units: 1_500_000_000 }));
    assert_eq!(parse_num(b"-2.25", i32::MAX), Ok(Num { units: -2_250_000_000 }));
    assert_eq!(parse_num(b"  42  ", i32::MAX), Ok(Num { units: 42 * SCALE }));
    assert_eq!(parse_num(b"+.5", i32::MAX), Ok(Num { units: 500_000_000 }));
    assert_eq!(parse_num(b"5.", i32::MAX), Ok(Num { units: 5 * SCALE }));
    // digits past the ninth fractional place are below the resolution
    assert_eq!(
        parse_num(b"0.1234567891", i32::MAX),
        Ok(Num { units: 123_456_789 })
    );
}

#[test]
fn parse_rejects_malformed_and_out_of_range() {
    assert_eq!(parse_num(b"", i32::MAX), Err(NumberError::Invalid));
    assert_eq!(parse_num(b"abc", i32::MAX), Err(NumberError::Invalid));
    assert_eq!(parse_num(b"1.2.3", i32::MAX), Err(NumberError::Invalid));
    assert_eq!(parse_num(b".", i32::MAX), Err(NumberError::Invalid));
    assert_eq!(parse_num(b"1 2", i32::MAX), Err(NumberError::Invalid));
    assert_eq!(parse_num(b"3000000000", i32::MAX), Err(NumberError::Overflow));
    assert_eq!(parse_num(b"-3000000000", i32::MAX), Err(NumberError::Underflow));
    assert_eq!(parse_num(b"200000", 131072), Err(NumberError::Overflow));
    assert_eq!(parse_num(b"131072", 131072), Ok(Num { units: 131072 * SCALE }));
}

#[test]
fn format_round_trips() {
    for units in [
        0i128,
        1,
        -1,
        1_500_000_000,
        -2_250_000_000,
        42 * SCALE,
        123_456_789,
        2147483647 * SCALE,
        -2147483647 * SCALE,
    ] {
        let n = Num { units };
        let mut out: Vec<u8> = Vec::new();
        n.push_text(&mut out);
        assert_eq!(parse_num(&out, i32::MAX), Ok(n), "{units}");
    }
}

#[test]
fn format_trims_trailing_zeros() {
    let mut out: Vec<u8> = Vec::new();
    Num { units: 1_500_000_000 }.push_text(&mut out);
    assert_eq!(out, b"1.5".to_vec());
    out.clear();
    Num { units: 2 * SCALE }.push_text(&mut out);
    assert_eq!(out, b"2".to_vec());
    out.clear();
    Num { units: -500_000_000 }.push_text(&mut out);
    assert_eq!(out, b"-0.5".to_vec());
}

#[test]
fn parse_exponent_forms() {
    assert_eq!(parse_num(b"1e3", i32::MAX), Ok(Num { units: 1000 * SCALE }));
    assert_eq!(parse_num(b"1.5E2", i32::MAX), Ok(Num { units: 150 * SCALE }));
    assert_eq!(parse_num(b"2e-3", i32::MAX), Ok(Num { units: 2_000_000 }));
    assert_eq!(parse_num(b"-25e-1", i32::MAX), Ok(Num { units: -2_500_000_000 }));
    assert_eq!(parse_num(b"5e-100", i32::MAX), Ok(Num { units: 0 }));
    assert_eq!(parse_num(b"0e999999999", i32::MAX), Ok(Num { units: 0 }));
    assert_eq!(parse_num(b"1e10", i32::MAX), Err(NumberError::Overflow));
    assert_eq!(parse_num(b"-1e10", i32::MAX), Err(NumberError::Underflow));
    assert_eq!(parse_num(b"1e", i32::MAX), Err(NumberError::Invalid));
    assert_eq!(parse_num(b"1e+", i32::MAX), Err(NumberError::Invalid));
    assert_eq!(parse_num(b"e5", i32::MAX), Err(NumberError::Invalid));
    assert_eq!(parse_num(b"1e5x", i32::MAX), Err(NumberError::Invalid));
    // the mantissa itself must lie within the limit before the shift
    assert_eq!(
        parse_num(b"99999999999e-5", i32::MAX),
        Err(NumberError::Overflow)
    );
}

#[test]
fn parse_integers() {
    assert_eq!(parse_i32(b"14"), Ok(14));
    assert_eq!(parse_i32(b" -7 "), Ok(-7));
    assert_eq!(parse_i32(b"2147483647"), Ok(2147483647));
    assert_eq!(parse_i32(b"2147483648"), Err(NumberError::Invalid));
    assert_eq!(parse_i32(b"-2147483648"), Err(NumberError::Underflow));
    assert_eq!(parse_i32(b"1.5"), Err(NumberError::Invalid));
    assert_eq!(parse_i32(b""), Err(NumberError::Invalid));
}

#[test]
fn parse_plain_bytes() {
    assert_eq!(parse_u8_plain(b"0"), Some(0));
    assert_eq!(parse_u8_plain(b"255"), Some(255));
    assert_eq!(parse_u8_plain(b"+9"), Some(9));
    assert_eq!(parse_u8_plain(b"256"), None);
    assert_eq!(parse_u8_plain(b"-1"), None);
    assert_eq!(parse_u8_plain(b" 1"), None);
    assert_eq!(parse_u8_plain(b""), None);
}

#[test]
fn saturating_arithmetic() {
    let big = Num::max_value();
    assert_eq!(big.add_sat(big), big);
    assert_eq!(Num::min_value().sub_sat(big), Num::min_value());
    let two = Num { units: 2 * SCALE };
    assert_eq!(two.mul_u32_sat(3).units, 6 * SCALE);
    assert_eq!(big.mul_u32_sat(2), big);
    assert_eq!(two.mul_u32_sat(0).units, 0);
}
