use marketflow::decimal::parse_scaled;

#[test]
fn parses_plain_integer() {
    assert_eq!(parse_scaled(b"42", 0), Some(42));
    assert_eq!(parse_scaled(b"0", 0), Some(0));
    assert_eq!(parse_scaled(b"007", 0), Some(7));
}

#[test]
fn scales_integer_part() {
    assert_eq!(parse_scaled(b"42", 2), Some(4200));
    assert_eq!(parse_scaled(b"0", 3), Some(0));
}

#[test]
fn parses_fractional_decimal() {
    assert_eq!(parse_scaled(b"100.04", 2), Some(10004));
    assert_eq!(parse_scaled(b"100.06", 2), Some(10006));
    assert_eq!(parse_scaled(b"1.5", 3), Some(1500));
    assert_eq!(parse_scaled(b"0.1", 1), Some(1));
}

#[test]
fn rejects_excess_fraction_digits() {
    assert_eq!(parse_scaled(b"1.005", 2), None);
    assert_eq!(parse_scaled(b"0.12345", 4), None);
}

#[test]
fn rejects_malformed_fields() {
    assert_eq!(parse_scaled(b"", 2), None);
    assert_eq!(parse_scaled(b".", 2), None);
    assert_eq!(parse_scaled(b".5", 2), None);
    assert_eq!(parse_scaled(b"100.", 2), None);
    assert_eq!(parse_scaled(b"1a", 2), None);
    assert_eq!(parse_scaled(b"1.2.3", 2), None);
    assert_eq!(parse_scaled(b"-1", 2), None);
    assert_eq!(parse_scaled(b"+1", 2), None);
    assert_eq!(parse_scaled(b"1e3", 2), None);
    assert_eq!(parse_scaled(b"1 ", 2), None);
}

#[test]
fn boundary_of_u64_range() {
    assert_eq!(parse_scaled(b"18446744073709551615", 0), Some(u64::MAX));
    assert_eq!(parse_scaled(b"18446744073709551616", 0), None);
    // Scaling can push an otherwise fine value out of range.
    assert_eq!(parse_scaled(b"18446744073709551615", 1), None);
}
