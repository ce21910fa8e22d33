use resistor_codes::{decode, multiplier_exponent, parse, Decoded, ParseError};

fn power_of_ten(exponent: i8) -> f32 {
    format!("1e{}", exponent).parse::<f32>().unwrap()
}

fn literal_value(literal: &[u8]) -> f32 {
    std::str::from_utf8(literal).unwrap().parse::<f32>().unwrap()
}

fn ohms_value_to_float(input: &str) -> Result<f32, ParseError> {
    let d = decode(input)?;
    Ok(literal_value(&d.literal) * power_of_ten(d.exponent))
}

fn assert_decodes(input: &str, expected: f32) {
    assert_eq!(ohms_value_to_float(input), Ok(expected));
}

fn assert_fails(input: &str, expected: ParseError) {
    assert_eq!(ohms_value_to_float(input), Err(expected));
}

fn assert_scans(input: &str, expected: (f32, u8)) {
    let scanned = parse(input).unwrap();
    assert_eq!((literal_value(&scanned.literal), scanned.letter), expected);
}

#[test]
fn test_parser() {
    assert_scans("1", (1.0, b'R'));
    assert_scans("1.0", (1.0, b'R'));
    assert_scans("1.", (1.0, b'R'));
    assert_scans("1.2", (1.2, b'R'));

    assert_scans("1.2R", (1.2, b'R'));
    assert_scans("1.R", (1.0, b'R'));
    assert_scans("1R", (1.0, b'R'));
    assert_scans("1R2", (1.2, b'R'));
    assert_scans("12R34", (12.34, b'R'));

    assert_scans("1L1", (1.1, b'L'));
    assert_scans("1R1", (1.1, b'R'));
    assert_scans("1K1", (1.1, b'K'));
    assert_scans("1M1", (1.1, b'M'));
    assert_scans("1G1", (1.1, b'G'));
    assert_scans("1T1", (1.1, b'T'));

    assert_scans("1.1L", (1.1, b'L'));
    assert_scans("1.1R", (1.1, b'R'));
    assert_scans("1.1K", (1.1, b'K'));
    assert_scans("1.1M", (1.1, b'M'));
    assert_scans("1.1G", (1.1, b'G'));
    assert_scans("1.1T", (1.1, b'T'));
}

fn assert_multiplier(input: u8, expected: f32) {
    assert_eq!(multiplier_exponent(input).map(power_of_ten), Ok(expected));
}

#[test]
fn test_get_multiplier() {
    assert_multiplier(b'L', 0.001);
    assert_multiplier(b'R', 1.0);
    assert_multiplier(b'K', 1_000.0);
    assert_multiplier(b'M', 1_000_000.0);
    assert_multiplier(b'G', 1_000_000_000.0);
    assert_multiplier(b'T', 1_000_000_000_000.0);

    assert_multiplier(b'l', 0.001);
    assert_multiplier(b'r', 1.0);
    assert_multiplier(b'k', 1_000.0);
    assert_multiplier(b'm', 1_000_000.0);
    assert_multiplier(b'g', 1_000_000_000.0);
    assert_multiplier(b't', 1_000_000_000_000.0);

    assert_eq!(
        multiplier_exponent(b'%'),
        Err(ParseError::UnsupportedLetterCode('%'))
    );
}

#[test]
fn multiplier_exponents_are_exact() {
    assert_eq!(multiplier_exponent(b'L'), Ok(-3));
    assert_eq!(multiplier_exponent(b'r'), Ok(0));
    assert_eq!(multiplier_exponent(b'K'), Ok(3));
    assert_eq!(multiplier_exponent(b'm'), Ok(6));
    assert_eq!(multiplier_exponent(b'G'), Ok(9));
    assert_eq!(multiplier_exponent(b't'), Ok(12));
    assert_eq!(multiplier_exponent(b'X'), Err(ParseError::UnsupportedLetterCode('X')));
}

#[test]
fn test_try_from_str() {
    let scanned = parse("1.23456L").unwrap();
    assert_eq!((literal_value(&scanned.literal), scanned.letter), (1.23456, b'L'));
    assert!(parse("abc").is_err());
}

#[test]
fn it_converts_from_ohms() {
    assert_eq!(ohms_value_to_float("1").unwrap(), 1.0);
    assert_eq!(ohms_value_to_float("2").unwrap(), 2.0);
}

#[test]
fn it_converts_from_kilohms() {
    assert_eq!(ohms_value_to_float("2K").unwrap(), 2000.0);
}

#[test]
fn it_converts_from_megohms() {
    assert_eq!(ohms_value_to_float("2M").unwrap(), 2_000_000.0);
}

#[test]
fn it_converts_from_gigaohms() {
    assert_eq!(ohms_value_to_float("2G").unwrap(), 2_000_000_000.0);
}

#[test]
fn resistor_codes_it_is_case_insensitive() {
    assert_eq!(ohms_value_to_float("1k").unwrap(), 1000.0);
    assert_eq!(ohms_value_to_float("1m").unwrap(), 1_000_000.0);
    assert_eq!(ohms_value_to_float("1g").unwrap(), 1_000_000_000.0);
}

#[test]
fn it_successfully_parses_fractions() {
    assert_eq!(ohms_value_to_float("1.23456").unwrap(), 1.23456);
    assert_eq!(ohms_value_to_float("1.23456K").unwrap(), 1_234.56);
}

#[test]
fn it_support_letter_and_digit_code_iec_60062() {
    assert_eq!(ohms_value_to_float("1R23456").unwrap(), 1.23456);
    assert_eq!(ohms_value_to_float("1K23456").unwrap(), 1_234.56);
    assert_eq!(ohms_value_to_float("1M23456").unwrap(), 1_234_560.0);
    assert_eq!(ohms_value_to_float("1G23456").unwrap(), 1_234_560_000.0);
    assert_eq!(ohms_value_to_float("1T23456").unwrap(), 1_234_560_000_000.0);
}

#[test]
fn it_successfully_parses_integers() {
    assert_decodes("1", 1.0);
    assert_decodes("1L", 0.001);
    assert_decodes("1R", 1.0);
    assert_decodes("1K", 1_000.0);
    assert_decodes("1M", 1_000_000.0);
    assert_decodes("1G", 1_000_000_000.0);
    assert_decodes("1T", 1_000_000_000_000.0);
}

#[test]
fn it_successfully_parses_floats() {
    assert_decodes("1.23456", 1.23456);
    assert_decodes("1.23456L", 0.00123456);
    assert_decodes("1.23456R", 1.23456);
    assert_decodes("1.23456K", 1_234.56);
    assert_decodes("1.23456M", 1_234_560.0);
    assert_decodes("1.23456G", 1_234_560_000.0);
    assert_decodes("1.23456T", 1_234_560_000_000.0);
}

#[test]
fn it_supports_letter_and_digit_code_iec_60062() {
    assert_decodes("1L23456", 0.00123456);
    assert_decodes("1R23456", 1.23456);
    assert_decodes("1K23456", 1_234.56);
    assert_decodes("1M23456", 1_234_560.0);
    assert_decodes("1G23456", 1_234_560_000.0);
    assert_decodes("1T23456", 1_234_560_000_000.0);
}

#[test]
fn test_ohms_value_to_float_it_is_case_insensitive() {
    assert_decodes("1k", 1000.0);
    assert_decodes("1.0m", 1_000_000.0);
    assert_decodes("1g2", 1_200_000_000.0);
}

#[test]
fn it_handles_invalid_letter_codes() {
    assert_fails("1%", ParseError::UnsupportedLetterCode('%'));
    assert_fails("1x2", ParseError::UnsupportedLetterCode('x'));
    assert_fails("1,2", ParseError::UnsupportedLetterCode(','));
}

fn decoded(literal: &str, exponent: i8) -> Result<Decoded, ParseError> {
    Ok(Decoded { literal: literal.as_bytes().to_vec(), exponent })
}

#[test]
fn decode_gives_literal_and_exponent() {
    assert_eq!(decode("4K7"), decoded("4.7", 3));
    assert_eq!(decode("1R23456"), decoded("1.23456", 0));
    assert_eq!(decode("2M"), decoded("2.", 6));
    assert_eq!(decode("12"), decoded("12", 0));
    assert_eq!(decode("1.5L"), decoded("1.5", -3));
    assert_eq!(decode(".5K"), decoded(".5", 3));
}

#[test]
fn literal_scenarios() {
    assert_decodes("4K7", 4700.0);
    assert_decodes("1R23456", 1.23456);
    assert_decodes("2M", 2_000_000.0);
}

#[test]
fn letter_acts_as_decimal_point() {
    assert_eq!(ohms_value_to_float("1R2"), ohms_value_to_float("1.2"));
    assert_eq!(ohms_value_to_float("12R34"), ohms_value_to_float("12.34"));
    assert_eq!(decode("12R34"), decode("12.34"));
    assert_eq!(decode("12r34"), decode("12.34"));
}

#[test]
fn decoding_ignores_case() {
    for code in ["4k7", "4K7", "2m2", "1.5g", "3T", "1l5", "0r47"] {
        let d = decode(code);
        assert!(d.is_ok());
        assert_eq!(decode(&code.to_ascii_uppercase()), d);
        assert_eq!(decode(&code.to_ascii_lowercase()), d);
    }
}

#[test]
fn error_cases() {
    assert_fails("1%", ParseError::UnsupportedLetterCode('%'));
    assert_fails("abc", ParseError::NumericLiteral);
    assert_fails("", ParseError::NumericLiteral);
    assert_fails(".", ParseError::NumericLiteral);
    assert_fails("K", ParseError::NumericLiteral);
    assert_fails("K.", ParseError::NumericLiteral);
}

#[test]
fn numeric_error_comes_before_letter_error() {
    assert_eq!(decode("%"), Err(ParseError::NumericLiteral));
    assert_eq!(parse("x"), Err(ParseError::NumericLiteral));
}

#[test]
fn trailing_byte_is_the_letter() {
    let scanned = parse("1K2M").unwrap();
    assert_eq!(scanned.literal, b"1.2".to_vec());
    assert_eq!(scanned.letter, b'M');
    assert_eq!(decode("1K2M"), decoded("1.2", 6));
    assert_eq!(decode("1.5R9"), decoded("1.5", 0));
    assert_eq!(decode("1.5%"), Err(ParseError::UnsupportedLetterCode('%')));
    assert_eq!(decode("1.K"), decoded("1.", 3));
}
