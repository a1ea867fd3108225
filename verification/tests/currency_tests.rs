use csv_importer::currency::Currency;

#[test]
fn parenthesized_amount_decodes_negative() {
    // ACCOUNT=A1, ID=3, Amount="$(12.50)" decodes to whole -12, fraction 50
    let c = Currency::parse("$(12.50)").unwrap();
    assert_eq!(c.whole(), -12);
    assert_eq!(c.fraction(), 50);
    assert_eq!(c.render(), "-12.50");
}

#[test]
fn parse_then_render_is_canonical() {
    let c = Currency::parse("$1,234.56").unwrap();
    assert_eq!(c.whole(), 1234);
    assert_eq!(c.fraction(), 56);
    assert_eq!(c.render(), "1234.56");
}

#[test]
fn grouping_characters_inside_parens_still_negative() {
    let c = Currency::parse("($1,000.00)").unwrap();
    assert_eq!(c.whole(), -1000);
    assert_eq!(c.fraction(), 0);
    assert_eq!(c.render(), "-1000.00");
}

#[test]
fn empty_marker_decodes_to_zero() {
    let c = Currency::parse("$-").unwrap();
    assert_eq!(c.whole(), 0);
    assert_eq!(c.fraction(), 0);
    let c2 = Currency::parse(" $ - ").unwrap();
    assert_eq!(c2.render(), "0.00");
}

#[test]
fn text_without_decimal_point_fails() {
    let e = Currency::parse("12").unwrap_err();
    assert_eq!(e.source_text(), "12");
    assert_eq!(e.message(), "Could not parse 12 into a currency.");
    assert!(Currency::parse("").is_err());
    assert!(Currency::parse("twelve").is_err());
}

#[test]
fn long_fraction_keeps_last_two_digits() {
    let c = Currency::parse("1.234").unwrap();
    assert_eq!(c.whole(), 1);
    assert_eq!(c.fraction(), 34);
}

#[test]
fn single_fraction_digit_is_hundredths() {
    let c = Currency::parse("0.5").unwrap();
    assert_eq!(c.whole(), 0);
    assert_eq!(c.fraction(), 5);
    assert_eq!(c.render(), "0.05");
}

#[test]
fn whole_magnitude_overflow_is_rejected() {
    let e = Currency::parse("99999999999.00").unwrap_err();
    assert_eq!(e.source_text(), "99999999999.00");
    // the largest representable magnitude still parses
    let c = Currency::parse("2147483647.99").unwrap();
    assert_eq!(c.whole(), 2147483647);
}

#[test]
fn render_pads_fraction_to_two_digits() {
    assert_eq!(Currency::zero().render(), "0.00");
    assert_eq!(Currency::new(-5, 7).render(), "-5.07");
    assert_eq!(Currency::new(3, 0).render(), "3.00");
}

#[test]
fn negative_zero_whole_stays_zero() {
    // a parenthesized zero magnitude has no sign to carry
    let c = Currency::parse("(0.25)").unwrap();
    assert_eq!(c.whole(), 0);
    assert_eq!(c.fraction(), 25);
}
