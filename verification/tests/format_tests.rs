use lowcharts::format::{F64Formatter, HorizontalScale};

#[test]
fn test_horizontal_scale() {
    assert_eq!(
        HorizontalScale::new(123).to_text(),
        format!("Each ∎ represents a count of 123\n")
    );
}

#[test]
fn test_horizontal_scale_with_zero_scale() {
    let scale = HorizontalScale::new(0);
    assert_eq!(scale.get_scale(), 1);
    assert_eq!(
        scale.to_text(),
        format!("Each ∎ represents a count of 1\n")
    );
}

#[test]
fn test_horizontal_scale_bar() {
    let scale = HorizontalScale::new(10);
    assert_eq!(scale.get_bar(80), format!("{:∎<width$}", "", width = 8));
}

#[test]
fn test_horizontal_scale_count() {
    let scale = HorizontalScale::new(10);
    assert_eq!(scale.get_count(80, 5), format!("   80"));
}

#[test]
fn fixed_formatter_fields() {
    let fmt = F64Formatter::new(3);
    assert_eq!(fmt.decimals(), 3);
    assert_eq!(fmt.divisor(), 0);
    assert_eq!(fmt.suffix(), "");
}

// The adaptive choices behind the human formats: a 0.0..100000.0 range has
// magnitude 5, giving two decimals and the kilo suffix (so 234.1234 shows as
// "0.23 K"); a 0.0..2.0 range has magnitude 0, giving three decimals and no
// suffix (so 1.12 shows as "1.120").
#[test]
fn adaptive_magnitude_choices() {
    let fmt = F64Formatter::new_with_magnitude(Some(5));
    assert_eq!(fmt.decimals(), 2);
    assert_eq!(fmt.divisor(), 1);
    assert_eq!(fmt.suffix(), " K");

    let fmt = F64Formatter::new_with_magnitude(Some(0));
    assert_eq!(fmt.decimals(), 3);
    assert_eq!(fmt.divisor(), 0);
    assert_eq!(fmt.suffix(), "");

    // Zero span defaults to three decimals, no scaling.
    let fmt = F64Formatter::new_with_magnitude(None);
    assert_eq!(fmt.decimals(), 3);
    assert_eq!(fmt.divisor(), 0);
    assert_eq!(fmt.suffix(), "");

    // Sub-unit spans grow decimals, capped at eleven.
    let fmt = F64Formatter::new_with_magnitude(Some(-4));
    assert_eq!(fmt.decimals(), 7);
    let fmt = F64Formatter::new_with_magnitude(Some(-20));
    assert_eq!(fmt.decimals(), 11);

    // Huge spans cap the divisor at the peta row of the suffix table.
    let fmt = F64Formatter::new_with_magnitude(Some(100));
    assert_eq!(fmt.divisor(), 5);
    assert_eq!(fmt.suffix(), " P");
}
