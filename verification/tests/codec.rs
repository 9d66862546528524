//! Tests of the value codec: integers, booleans, the tri-state encoding,
//! decimal floats and ISO 8601 durations.

use mpd_parser::parse_bool;
use mpd_parser::parse_f64;
use mpd_parser::parse_iso_8601_duration;
use mpd_parser::parse_u64;
use mpd_parser::parse_u64_or_bool;

fn f(bits: u64) -> f64 {
    f64::from_bits(bits)
}

#[test]
fn parse_u64_round_trips_decimal_strings() {
    assert_eq!(parse_u64(b"0").unwrap(), 0);
    assert_eq!(parse_u64(b"42").unwrap(), 42);
    assert_eq!(parse_u64(b"0042").unwrap(), 42);
    assert_eq!(parse_u64(b"4611686018427387903").unwrap(), 4611686018427387903);
    assert_eq!(parse_u64(b"18446744073709551615").unwrap(), u64::MAX);
}

#[test]
fn parse_u64_rejects_bad_text() {
    assert!(parse_u64(b"").is_err());
    assert!(parse_u64(b"12a").is_err());
    assert!(parse_u64(b"-1").is_err());
    assert!(parse_u64(b"+1").is_err());
    assert!(parse_u64(b" 1").is_err());
    assert!(parse_u64(b"18446744073709551616").is_err());
    assert!(parse_u64(b"99999999999999999999999").is_err());
}

#[test]
fn parse_bool_accepts_exactly_the_two_literals() {
    assert_eq!(parse_bool(b"true").unwrap(), true);
    assert_eq!(parse_bool(b"false").unwrap(), false);
    assert!(parse_bool(b"True").is_err());
    assert!(parse_bool(b"TRUE").is_err());
    assert!(parse_bool(b"1").is_err());
    assert!(parse_bool(b"").is_err());
}

#[test]
fn parse_u64_or_bool_tri_state() {
    assert_eq!(f(parse_u64_or_bool(b"true").unwrap()), f64::INFINITY);
    assert_eq!(f(parse_u64_or_bool(b"false").unwrap()), f64::NEG_INFINITY);
    assert_eq!(f(parse_u64_or_bool(b"42").unwrap()), 42.0);
    assert!(parse_u64_or_bool(b"maybe").is_err());
}

#[test]
fn integer_to_float_conversion_matches_the_platform() {
    // Values above 2^53 exercise the round-to-nearest-even path.
    for n in [
        0u64,
        1,
        2,
        9007199254740992,
        9007199254740993,
        9007199254740995,
        18446744073709551615,
        18446744073709551614,
        12345678901234567,
        1 << 63,
    ] {
        let got = f(parse_u64_or_bool(n.to_string().as_bytes()).unwrap());
        assert_eq!(got.to_bits(), (n as f64).to_bits(), "mismatch for {n}");
    }
}

#[test]
fn parse_f64_decodes_decimals() {
    assert_eq!(f(parse_f64(b"0").unwrap()).to_bits(), 0.0f64.to_bits());
    assert_eq!(f(parse_f64(b"1.5").unwrap()), 1.5);
    assert_eq!(f(parse_f64(b"-2.25").unwrap()), -2.25);
    assert_eq!(f(parse_f64(b"+10").unwrap()), 10.0);
    assert_eq!(f(parse_f64(b".5").unwrap()), 0.5);
    assert_eq!(f(parse_f64(b"5.").unwrap()), 5.0);
    assert_eq!(f(parse_f64(b"-0").unwrap()).to_bits(), (-0.0f64).to_bits());
}

#[test]
fn parse_f64_rounds_like_the_platform_parser() {
    for text in [
        "0.1",
        "123.456",
        "0.3333333333333333",
        "2.2250738585072014",
        "999999999999999999.9",
        "0.000001",
        "17.0000000000000001",
    ] {
        let got = f(parse_f64(text.as_bytes()).unwrap());
        let want: f64 = text.parse().unwrap();
        assert_eq!(got.to_bits(), want.to_bits(), "mismatch for {text}");
    }
}

#[test]
fn parse_f64_rejects_bad_text() {
    assert!(parse_f64(b"").is_err());
    assert!(parse_f64(b"abc").is_err());
    assert!(parse_f64(b".").is_err());
    assert!(parse_f64(b"-").is_err());
    assert!(parse_f64(b"1.2.3").is_err());
    assert!(parse_f64(b"1e").is_err());
    assert!(parse_f64(b"1e+").is_err());
    assert!(parse_f64(b"e3").is_err());
    assert!(parse_f64(b"1.5e3.2").is_err());
}

#[test]
fn parse_f64_exponents_round_like_the_platform() {
    for text in [
        "1e3",
        "2.5e10",
        "1.5e-7",
        "9.999e26",
        "1E26",
        "7e-27",
        "-3e+2",
        "10000000000000000000",
        "123e-20",
        "0.00125e5",
        "1e-30",
        "123456789e50",
        "2.718281828459045e-200",
        "6.02214076e23",
    ] {
        let got = f(parse_f64(text.as_bytes()).unwrap());
        let want: f64 = text.parse().unwrap();
        assert_eq!(got.to_bits(), want.to_bits(), "mismatch for {text}");
    }
}

#[test]
fn parse_f64_rounds_long_significands_like_the_platform() {
    for text in [
        "1.23456789012345678901234567890123456789",
        "9007199254740993.0000000000000001",
        "0.1000000000000000055511151231257827021181583404541015625",
        "123456789012345678901234567890.5e-29",
        "17976931348623157000000000000000000000000000000000000000000000000000000\
         00000000000000000000000000000000000000000000000000000000000000000000000\
         00000000000000000000000000000000000000000000000000000000000000000000000\
         00000000000000000000000000000000000000000000000000000000000000000000000\
         0000000000000000000000000",
    ] {
        let got = f(parse_f64(text.as_bytes()).unwrap());
        let want: f64 = text.parse().unwrap();
        assert_eq!(got.to_bits(), want.to_bits(), "mismatch for {text}");
    }
}

#[test]
fn parse_f64_handles_boundaries_and_subnormals_like_the_platform() {
    for text in [
        "1.7976931348623157e308",
        "1.7976931348623159e308",
        "179769313486231580793728971405303415261810836301892931964444899e246",
        "2.2250738585072014e-308",
        "4.9406564584124654e-324",
        "5e-324",
        "2.4703282292062327e-324",
        "2.4703282292062328e-324",
        "1e-320",
        "3e-310",
    ] {
        let got = f(parse_f64(text.as_bytes()).unwrap());
        let want: f64 = text.parse().unwrap();
        assert_eq!(got.to_bits(), want.to_bits(), "mismatch for {text}");
    }
}

#[test]
fn parse_f64_extreme_magnitudes_clamp() {
    assert_eq!(f(parse_f64(b"1e400").unwrap()), f64::INFINITY);
    assert_eq!(f(parse_f64(b"-2e309").unwrap()), f64::NEG_INFINITY);
    assert_eq!(f(parse_f64(b"1e-400").unwrap()), 0.0);
    assert_eq!(f(parse_f64(b"-1e-400").unwrap()).to_bits(), (-0.0f64).to_bits());
    assert_eq!(f(parse_f64(b"1e99999999999999999999").unwrap()), f64::INFINITY);
    assert_eq!(f(parse_f64(b"1e-99999999999999999999").unwrap()), 0.0);
}

#[test]
fn parse_f64_special_literals() {
    assert_eq!(f(parse_f64(b"inf").unwrap()), f64::INFINITY);
    assert_eq!(f(parse_f64(b"-INF").unwrap()), f64::NEG_INFINITY);
    assert_eq!(f(parse_f64(b"Infinity").unwrap()), f64::INFINITY);
    assert!(f(parse_f64(b"nan").unwrap()).is_nan());
    assert!(f(parse_f64(b"-NaN").unwrap()).is_nan());
}

#[test]
fn parse_duration_computes_seconds() {
    assert_eq!(f(parse_iso_8601_duration(b"PT0S").unwrap()), 0.0);
    assert_eq!(f(parse_iso_8601_duration(b"P1D").unwrap()), 86400.0);
    assert_eq!(f(parse_iso_8601_duration(b"PT1H30M").unwrap()), 5400.0);
    assert_eq!(f(parse_iso_8601_duration(b"P1Y").unwrap()), 31536000.0);
    assert_eq!(f(parse_iso_8601_duration(b"P1M").unwrap()), 2592000.0);
    assert_eq!(f(parse_iso_8601_duration(b"PT90S").unwrap()), 90.0);
    assert_eq!(f(parse_iso_8601_duration(b"P1DT2S").unwrap()), 86402.0);
    assert_eq!(f(parse_iso_8601_duration(b"P1Y2M3DT4H5M6S").unwrap()), 36993906.0);
}

#[test]
fn parse_duration_rejects_bad_text() {
    assert!(parse_iso_8601_duration(b"1D").is_err());
    assert!(parse_iso_8601_duration(b"").is_err());
    assert!(parse_iso_8601_duration(b"P1").is_err());
    assert!(parse_iso_8601_duration(b"P1X").is_err());
    assert!(parse_iso_8601_duration(b"P1M1Y").is_err());
    assert!(parse_iso_8601_duration(b"PT1S1H").is_err());
    assert!(parse_iso_8601_duration(b"PT0.5S").is_err());
    assert!(parse_iso_8601_duration(b"PT1,5S").is_err());
    assert!(parse_iso_8601_duration(b"P99999999999999999999D").is_err());
}

#[test]
fn parse_duration_empty_halves_are_legal() {
    assert_eq!(f(parse_iso_8601_duration(b"P").unwrap()), 0.0);
    assert_eq!(f(parse_iso_8601_duration(b"PT").unwrap()), 0.0);
    assert_eq!(f(parse_iso_8601_duration(b"P1DT").unwrap()), 86400.0);
}
