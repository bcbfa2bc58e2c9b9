use latency_sim::Decimal;

fn dec(text: &str) -> Decimal {
    Decimal::parse(text).expect("a decimal number")
}

#[test]
fn milliseconds_are_written_in_full() {
    assert_eq!(dec("100").to_ms_string(), "100ms");
    assert_eq!(dec("100.0").to_ms_string(), "100ms");
    assert_eq!(dec("0.5").to_ms_string(), "0.5ms");
    assert_eq!(dec("12.340").to_ms_string(), "12.34ms");
    assert_eq!(dec("0").to_ms_string(), "0ms");
    assert_eq!(dec("-3.25").to_ms_string(), "-3.25ms");
    assert_eq!(dec("0.30000000000000004").to_ms_string(), "0.30000000000000004ms");
    assert_eq!(
        dec("123456789012345678901234567890.5").to_ms_string(),
        "123456789012345678901234567890.5ms"
    );
    assert_eq!(Decimal::from_int(-42).to_ms_string(), "-42ms");
}

#[test]
fn percentages_have_two_places() {
    assert_eq!(dec("25").to_pct_string(), "25.00%");
    assert_eq!(dec("0").to_pct_string(), "0.00%");
    assert_eq!(dec("0.5").to_pct_string(), "0.50%");
    assert_eq!(dec("99.99").to_pct_string(), "99.99%");
    assert_eq!(dec("12.345678").to_pct_string(), "12.35%");
    assert_eq!(dec("12.344999").to_pct_string(), "12.34%");
    assert_eq!(dec("100").to_pct_string(), "100.00%");
    assert_eq!(dec("1234567.1").to_pct_string(), "1234567.10%");
}

#[test]
fn percentages_round_half_to_even() {
    assert_eq!(dec("0.125").to_pct_string(), "0.12%");
    assert_eq!(dec("0.135").to_pct_string(), "0.14%");
    assert_eq!(dec("0.145").to_pct_string(), "0.14%");
    assert_eq!(dec("0.1450001").to_pct_string(), "0.15%");
    assert_eq!(dec("0.005").to_pct_string(), "0.00%");
    assert_eq!(dec("0.015").to_pct_string(), "0.02%");
    assert_eq!(dec("0.0051").to_pct_string(), "0.01%");
    assert_eq!(dec("0.0049").to_pct_string(), "0.00%");
    assert_eq!(dec("2.675").to_pct_string(), "2.68%");
    assert_eq!(dec("2.665").to_pct_string(), "2.66%");
}

#[test]
fn percentages_carry_into_the_whole_part() {
    assert_eq!(dec("0.995").to_pct_string(), "1.00%");
    assert_eq!(dec("0.996").to_pct_string(), "1.00%");
    assert_eq!(dec("9.999").to_pct_string(), "10.00%");
    assert_eq!(dec("99.995").to_pct_string(), "100.00%");
    assert_eq!(dec("99.985").to_pct_string(), "99.98%");
    assert_eq!(dec("999999.999").to_pct_string(), "1000000.00%");
    assert_eq!(dec("0.199").to_pct_string(), "0.20%");
    assert_eq!(dec("0.099").to_pct_string(), "0.10%");
}

#[test]
fn negative_numbers_keep_the_sign() {
    assert_eq!(dec("-0").to_text(), "-0");
    assert_eq!(dec("-0.0").to_ms_string(), "-0ms");
    assert_eq!(dec("-0.001").to_pct_string(), "-0.00%");
    assert_eq!(dec("-1.005").to_pct_string(), "-1.00%");
    assert_eq!(dec("-1.015").to_pct_string(), "-1.02%");
    assert!(dec("-1").is_negative());
    assert!(dec("-0").is_negative());
    assert!(!dec("+1").is_negative());
    assert!(!dec("1").is_negative());
    assert_ne!(dec("-0"), dec("0"));
}

#[test]
fn numbers_are_read_in_canonical_form() {
    assert_eq!(dec("100.0"), dec("100"));
    assert_eq!(dec("007"), dec("7"));
    assert_eq!(dec("000"), dec("0"));
    assert_eq!(dec("0.500"), dec(".5"));
    assert_eq!(dec("5."), dec("5"));
    assert_eq!(dec("+5"), dec("5"));
    assert_eq!(dec("00.00"), dec("0"));
    assert_eq!(dec("25.00"), Decimal::from_int(25));
    assert_eq!(dec("-25"), Decimal::from_int(-25));
    assert_eq!(dec("2147483647"), Decimal::from_int(i32::MAX));
    assert_eq!(dec("-2147483648"), Decimal::from_int(i32::MIN));
    assert_eq!(Decimal::default(), Decimal::from_int(0));
    assert_ne!(dec("1.5"), dec("1.05"));
    assert_eq!(dec("1.50").to_text(), "1.5");
    assert_eq!(dec("0010.0100").to_text(), "10.01");
    assert_eq!(dec(".25").to_text(), "0.25");
}

#[test]
fn what_is_no_number_is_refused() {
    for text in [
        "", ".", "-", "+", "-.", "1.2.3", "1..2", "..", "1e3", "1E3", "abc", "1a", "a1", " 1",
        "1 ", "--1", "+-1", "1-", "1,5", "inf", "NaN", "0x10", "1_000", "\u{663}",
    ] {
        assert_eq!(Decimal::parse(text), None, "{:?}", text);
    }
}

#[test]
fn written_numbers_read_back() {
    for text in ["0", "-0", "1", "10", "0.1", "-12.5", "100.001", "99999999999999999999.9"] {
        let d = dec(text);
        assert_eq!(d.to_text(), text);
        assert_eq!(Decimal::parse(&d.to_text()), Some(d.clone()));
    }
    let chars: Vec<char> = "3.140".chars().collect();
    assert_eq!(Decimal::from_chars(&chars), Some(dec("3.14")));
}

#[test]
fn written_percentages_read_back_rounded() {
    for (text, rounded) in [
        ("12.345", "12.34"),
        ("12.355", "12.36"),
        ("99.999", "100"),
        ("0.004", "0"),
        ("25", "25"),
        ("7.1", "7.1"),
    ] {
        let written = dec(text).to_pct_string();
        let number = written.strip_suffix('%').expect("a percent sign");
        assert_eq!(Decimal::parse(number), Some(dec(rounded)));
    }
}
