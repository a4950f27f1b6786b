use replenish::num::{parse_decimal, parse_or_default, Dec};

fn dec(neg: bool, mantissa: u64, scale: u32) -> Dec {
    Dec { neg, mantissa, scale }
}

#[test]
fn comma_cell_parses_as_decimal_fraction() {
    // The locale-normalized valuation cell "1,5" is one and a half,
    // neither one nor fifteen.
    let d = parse_decimal("1,5", true).unwrap();
    assert_eq!(d, dec(false, 15, 1));
    assert_ne!(d, dec(false, 1, 0));
    assert_ne!(d, dec(false, 15, 0));
}

#[test]
fn comma_cell_is_unparsable_without_normalization() {
    assert_eq!(parse_decimal("1,5", false), None);
}

#[test]
fn plain_integers_and_fractions() {
    assert_eq!(parse_decimal("0", false), Some(dec(false, 0, 0)));
    assert_eq!(parse_decimal("42", false), Some(dec(false, 42, 0)));
    assert_eq!(parse_decimal("12.75", false), Some(dec(false, 1275, 2)));
    assert_eq!(parse_decimal("-3", false), Some(dec(true, 3, 0)));
    assert_eq!(parse_decimal("-0.5", false), Some(dec(true, 5, 1)));
    assert_eq!(parse_decimal(".5", false), Some(dec(false, 5, 1)));
    assert_eq!(parse_decimal("7.", false), Some(dec(false, 7, 0)));
    assert_eq!(parse_decimal("+1.5", false), Some(dec(false, 15, 1)));
    assert_eq!(parse_decimal("+0", false), Some(dec(false, 0, 0)));
}

#[test]
fn malformed_cells_are_unparsable() {
    assert_eq!(parse_decimal("", false), None);
    assert_eq!(parse_decimal("-", false), None);
    assert_eq!(parse_decimal(".", false), None);
    assert_eq!(parse_decimal("abc", false), None);
    assert_eq!(parse_decimal("1.2.3", false), None);
    assert_eq!(parse_decimal("1 5", false), None);
    assert_eq!(parse_decimal("--1", false), None);
    assert_eq!(parse_decimal("+", false), None);
    assert_eq!(parse_decimal("+-1", false), None);
    assert_eq!(parse_decimal("1e3", false), None);
    assert_eq!(parse_decimal("12a", false), None);
}

#[test]
fn more_than_eighteen_digits_is_unparsable() {
    assert_eq!(parse_decimal("1234567890123456789", false), None);
    assert_eq!(
        parse_decimal("123456789012345678", false),
        Some(dec(false, 123456789012345678, 0))
    );
}

#[test]
fn unparsable_defaults_to_zero() {
    assert_eq!(parse_or_default("n/a", false), dec(false, 0, 0));
    assert_eq!(parse_or_default("2.5", false), dec(false, 25, 1));
}

#[test]
fn positivity() {
    assert!(dec(false, 15, 1).positive());
    assert!(!dec(false, 0, 0).positive());
    assert!(!dec(true, 3, 0).positive());
    assert!(!parse_or_default("junk", false).positive());
}
