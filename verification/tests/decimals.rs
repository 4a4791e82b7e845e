use perf_monitor::sample::Sample;

#[test]
fn parse_whole_and_fraction() {
    assert_eq!(Sample::parse("0"), Some(Sample::from_micros(0)));
    assert_eq!(Sample::parse("12"), Some(Sample::from_micros(12_000_000)));
    assert_eq!(Sample::parse("12.5"), Some(Sample::from_micros(12_500_000)));
    assert_eq!(Sample::parse("0.000001"), Some(Sample::from_micros(1)));
    assert_eq!(Sample::parse("007.250"), Some(Sample::from_micros(7_250_000)));
    assert_eq!(Sample::parse("5."), Some(Sample::from_micros(5_000_000)));
    assert_eq!(Sample::parse(".5"), Some(Sample::from_micros(500_000)));
}

#[test]
fn parse_cuts_digits_past_the_sixth() {
    assert_eq!(Sample::parse("1.2345678"), Some(Sample::from_micros(1_234_567)));
    assert_eq!(Sample::parse("0.0000009"), Some(Sample::from_micros(0)));
}

#[test]
fn parse_refuses_what_is_no_decimal_numeral() {
    for text in ["", ".", "-1", "+1", "1e3", "1.2.3", "1,5", " 1", "1 ", "abc", "NaN", "inf", "1.5%"] {
        assert_eq!(Sample::parse(text), None, "{text:?}");
        assert_eq!(Sample::parse_or_zero(text), Sample::from_micros(0), "{text:?}");
    }
}

#[test]
fn parse_refuses_what_does_not_fit() {
    assert_eq!(Sample::parse("18446744073709.551615"), Some(Sample::from_micros(u64::MAX)));
    assert_eq!(Sample::parse("18446744073709.551616"), None);
    assert_eq!(Sample::parse("18446744073710"), None);
    assert_eq!(Sample::parse("99999999999999999999999999999999"), None);
    assert_eq!(Sample::parse("00000000000000000000000000000001"), Some(Sample::from_micros(1_000_000)));
}

#[test]
fn text_is_the_shortest_numeral() {
    assert_eq!(Sample::from_micros(0).to_text(), "0");
    assert_eq!(Sample::from_micros(10_000_000).to_text(), "10");
    assert_eq!(Sample::from_micros(12_300_000).to_text(), "12.3");
    assert_eq!(Sample::from_micros(1).to_text(), "0.000001");
    assert_eq!(Sample::from_micros(1_050_000).to_text(), "1.05");
    assert_eq!(Sample::from_micros(u64::MAX).to_text(), "18446744073709.551615");
}

#[test]
fn text_parses_back_to_the_sample() {
    for value in [0u64, 1, 9, 10, 999_999, 1_000_000, 1_000_001, 37_500_000, 123_456_789_012, u64::MAX] {
        let sample = Sample::from_micros(value);
        assert_eq!(Sample::parse(&sample.to_text()), Some(sample));
    }
}
