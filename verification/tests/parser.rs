use brc20_index::amount::{parse_amount, AmountError};

fn by(s: &str) -> Vec<u8> {
    s.as_bytes().to_vec()
}

const E18: u128 = 1_000_000_000_000_000_000;

#[test]
fn parse_whole_number_scales_by_decimals() {
    assert_eq!(parse_amount(&by("1000"), 18), Ok(1000 * E18));
    assert_eq!(parse_amount(&by("21000000"), 18), Ok(21_000_000 * E18));
    assert_eq!(parse_amount(&by("7"), 0), Ok(7));
    assert_eq!(parse_amount(&by("007"), 0), Ok(7));
}

#[test]
fn parse_fractional_within_precision() {
    assert_eq!(parse_amount(&by("10.5"), 1), Ok(105));
    assert_eq!(parse_amount(&by("0.5"), 2), Ok(50));
    assert_eq!(parse_amount(&by("1.25"), 2), Ok(125));
    assert_eq!(parse_amount(&by("1.5"), 18), Ok(E18 + E18 / 2));
}

#[test]
fn parse_rejects_excess_precision() {
    assert_eq!(parse_amount(&by("10.50"), 1), Err(AmountError::BadPrecision));
    assert_eq!(parse_amount(&by("1.5"), 0), Err(AmountError::BadPrecision));
    assert_eq!(
        parse_amount(&by("0.0000000000000000001"), 18),
        Err(AmountError::BadPrecision)
    );
}

#[test]
fn parse_rejects_malformed_shapes() {
    assert_eq!(parse_amount(&by(""), 18), Err(AmountError::Malformed));
    assert_eq!(parse_amount(&by(".5"), 18), Err(AmountError::Malformed));
    assert_eq!(parse_amount(&by("5."), 18), Err(AmountError::Malformed));
    assert_eq!(parse_amount(&by("1.2.3"), 18), Err(AmountError::Malformed));
    assert_eq!(parse_amount(&by("-5"), 18), Err(AmountError::Malformed));
    assert_eq!(parse_amount(&by(" 5"), 18), Err(AmountError::Malformed));
    assert_eq!(parse_amount(&by("5 "), 18), Err(AmountError::Malformed));
    assert_eq!(parse_amount(&by("NaN"), 18), Err(AmountError::Malformed));
    assert_eq!(parse_amount(&by("1e5"), 18), Err(AmountError::Malformed));
    assert_eq!(parse_amount(&by("."), 18), Err(AmountError::Malformed));
}

#[test]
fn parse_zero_is_accepted_by_the_grammar() {
    assert_eq!(parse_amount(&by("0"), 18), Ok(0));
    assert_eq!(parse_amount(&by("0.000"), 3), Ok(0));
}

#[test]
fn parse_handles_the_128_bit_range_exactly() {
    assert_eq!(
        parse_amount(&by("340282366920938463463374607431768211455"), 0),
        Ok(u128::MAX)
    );
    assert_eq!(
        parse_amount(&by("340282366920938463463374607431768211456"), 0),
        Err(AmountError::Malformed)
    );
    // in range as an integer, out of range once scaled
    assert_eq!(
        parse_amount(&by("340282366920938463463374607431768211455"), 1),
        Err(AmountError::Malformed)
    );
}
