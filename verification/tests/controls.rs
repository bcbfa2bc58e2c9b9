use latency_sim::{
    Control, Controls, Decimal, Delay, Distribution, Limit, NetEm, Operation, ParseError,
};

fn dec(text: &str) -> Decimal {
    Decimal::parse(text).expect("a decimal number")
}

fn strings(words: &[&str]) -> Vec<String> {
    words.iter().map(|w| w.to_string()).collect()
}

fn delay(time: &str, jitter: Option<&str>, correlation: Option<&str>) -> Delay {
    Delay {
        time: dec(time),
        jitter: jitter.map(dec),
        correlation: correlation.map(dec),
        distribution: None,
    }
}

#[test]
fn limit_writes_two_arguments() {
    assert_eq!(Limit::new(5).to_args(), strings(&["limit", "5"]));
    assert_eq!(Limit::new(0).to_args(), strings(&["limit", "0"]));
    assert_eq!(Limit::new(-12).to_args(), strings(&["limit", "-12"]));
    assert_eq!(Limit::new(i32::MAX).to_args(), strings(&["limit", "2147483647"]));
    assert_eq!(Limit::new(i32::MIN).to_args(), strings(&["limit", "-2147483648"]));
    assert_eq!(Limit::new(1000).packets(), 1000);
}

#[test]
fn limit_round_trip() {
    for n in [i32::MIN, -2147483647, -1000, -10, -1, 0, 1, 9, 10, 99, 100, 1000, 65536, i32::MAX] {
        let joined = Limit::new(n).to_args().join(" ");
        assert_eq!(Limit::parse(&joined), Ok(Limit::new(n)));
        let report = format!("qdisc netem {}", joined);
        assert_eq!(Limit::parse(&report), Ok(Limit::new(n)));
        assert_eq!(Controls::parse(&report).limit, Some(Limit::new(n)));
    }
}

#[test]
fn limit_is_searched_for_in_the_text() {
    assert_eq!(Limit::parse("limit 7"), Ok(Limit::new(7)));
    assert_eq!(Limit::parse("qdisc netem 8001: root refcnt 2 limit 1000 delay 100ms"), Ok(Limit::new(1000)));
    assert_eq!(Limit::parse("limit   -5"), Ok(Limit::new(-5)));
    assert_eq!(Limit::parse("limit\t\n 42 and more"), Ok(Limit::new(42)));
    assert_eq!(Limit::parse("limit\u{a0}3"), Ok(Limit::new(3)));
    assert_eq!(Limit::parse("nolimit 5"), Ok(Limit::new(5)));
    assert_eq!(Limit::parse("limit 12abc"), Ok(Limit::new(12)));
    assert_eq!(Limit::parse("limit 007"), Ok(Limit::new(7)));
    assert_eq!(Limit::parse("limit -0"), Ok(Limit::new(0)));
}

#[test]
fn limit_takes_the_first_clause() {
    assert_eq!(Limit::parse("limit 1 limit 2"), Ok(Limit::new(1)));
    assert_eq!(Limit::parse("limit x limit 3"), Ok(Limit::new(3)));
    assert_eq!(Limit::parse("limit limit 4"), Ok(Limit::new(4)));
    assert_eq!(Limit::parse("limit - limit 6"), Ok(Limit::new(6)));
}

#[test]
fn limit_misses() {
    assert_eq!(Limit::parse(""), Err(ParseError::NoLimit));
    assert_eq!(Limit::parse("limit"), Err(ParseError::NoLimit));
    assert_eq!(Limit::parse("limit "), Err(ParseError::NoLimit));
    assert_eq!(Limit::parse("limit5"), Err(ParseError::NoLimit));
    assert_eq!(Limit::parse("limit -"), Err(ParseError::NoLimit));
    assert_eq!(Limit::parse("limit +5"), Err(ParseError::NoLimit));
    assert_eq!(Limit::parse("limit - 5"), Err(ParseError::NoLimit));
    assert_eq!(Limit::parse("Limit 5"), Err(ParseError::NoLimit));
    assert_eq!(Limit::parse("limi 5"), Err(ParseError::NoLimit));
    assert_eq!(Limit::parse("delay 10ms"), Err(ParseError::NoLimit));
}

#[test]
fn limit_out_of_range() {
    assert_eq!(Limit::parse("limit 2147483647"), Ok(Limit::new(i32::MAX)));
    assert_eq!(Limit::parse("limit 2147483648"), Err(ParseError::LimitOutOfRange));
    assert_eq!(Limit::parse("limit -2147483648"), Ok(Limit::new(i32::MIN)));
    assert_eq!(Limit::parse("limit -2147483649"), Err(ParseError::LimitOutOfRange));
    assert_eq!(Limit::parse("limit 99999999999999999999999999"), Err(ParseError::LimitOutOfRange));
    assert_eq!(Limit::parse("limit 99999999999 limit 1"), Err(ParseError::LimitOutOfRange));
    assert_eq!(Limit::parse("limit 00000000000000000000000012"), Ok(Limit::new(12)));
}

#[test]
fn distribution_names() {
    assert_eq!(String::from(Distribution::Uniform), "uniform");
    assert_eq!(String::from(Distribution::Normal), "normal");
    assert_eq!(String::from(Distribution::Pareto), "pareto");
    assert_eq!(String::from(Distribution::ParetoNormal), "paretonormal");
    assert_eq!(Distribution::Pareto.as_str(), "pareto");
}

#[test]
fn distribution_bijection() {
    for d in [
        Distribution::Uniform,
        Distribution::Normal,
        Distribution::Pareto,
        Distribution::ParetoNormal,
    ] {
        let name: String = d.into();
        assert_eq!(Distribution::parse(&name), Ok(d));
        assert_eq!(name.parse::<Distribution>(), Ok(d));
    }
    assert_eq!(Distribution::parse("invalid"), Err(ParseError::NoDistribution));
    assert_eq!("invalid".parse::<Distribution>(), Err(ParseError::NoDistribution));
}

#[test]
fn distribution_is_matched_letter_for_letter() {
    assert_eq!(Distribution::parse(""), Err(ParseError::NoDistribution));
    assert_eq!(Distribution::parse("Normal"), Err(ParseError::NoDistribution));
    assert_eq!(Distribution::parse("NORMAL"), Err(ParseError::NoDistribution));
    assert_eq!(Distribution::parse(" normal"), Err(ParseError::NoDistribution));
    assert_eq!(Distribution::parse("normal "), Err(ParseError::NoDistribution));
    assert_eq!(Distribution::parse("paretonorma"), Err(ParseError::NoDistribution));
    assert_eq!(Distribution::parse("pareto normal"), Err(ParseError::NoDistribution));
}

#[test]
fn delay_round_trip_without_distribution() {
    let d = delay("100.0", Some("10.0"), Some("25.0"));
    assert_eq!(d.to_args(), strings(&["delay", "100ms", "10ms", "25.00%"]));
    let back = Delay::parse("delay 100ms  10ms 25.00%").unwrap();
    assert_eq!(back.time, Decimal::from_int(100));
    assert_eq!(back.jitter, Some(Decimal::from_int(10)));
    assert_eq!(back.correlation, Some(Decimal::from_int(25)));
    assert_eq!(back.distribution, None);
    assert_eq!(back, d);
}

#[test]
fn delay_arguments_joined_by_single_spaces_read_back_as_the_time() {
    let d = delay("100.0", Some("10.0"), Some("25.0"));
    let joined = d.to_args().join(" ");
    assert_eq!(joined, "delay 100ms 10ms 25.00%");
    assert_eq!(Delay::parse(&joined), Ok(delay("100", None, None)));
}

#[test]
fn correlation_suppressed_without_jitter() {
    let d = delay("50.0", None, Some("99.0"));
    assert_eq!(d.to_args(), strings(&["delay", "50ms"]));
}

#[test]
fn delay_clauses_are_independent() {
    let mut d = delay("1.5", None, None);
    d.distribution = Some(Distribution::Normal);
    assert_eq!(d.to_args(), strings(&["delay", "1.5ms", "distribution", "normal"]));
    d.jitter = Some(dec("0.25"));
    assert_eq!(d.to_args(), strings(&["delay", "1.5ms", "0.25ms", "distribution", "normal"]));
    d.correlation = Some(dec("12.345"));
    d.distribution = Some(Distribution::ParetoNormal);
    assert_eq!(
        d.to_args(),
        strings(&["delay", "1.5ms", "0.25ms", "12.34%", "distribution", "paretonormal"])
    );
    d.distribution = None;
    assert_eq!(d.to_args(), strings(&["delay", "1.5ms", "0.25ms", "12.34%"]));
    d.jitter = None;
    d.distribution = Some(Distribution::Uniform);
    assert_eq!(d.to_args(), strings(&["delay", "1.5ms", "distribution", "uniform"]));
}

#[test]
fn default_delay_is_zero() {
    let d = Delay::default();
    assert_eq!(d, delay("0", None, None));
    assert_eq!(d.to_args(), strings(&["delay", "0ms"]));
    assert_eq!(Controls::default(), Controls { limit: None, delay: None });
}

#[test]
fn delay_is_searched_for_in_the_text() {
    assert_eq!(Delay::parse("delay 10ms"), Ok(delay("10", None, None)));
    assert_eq!(Delay::parse("delay   2.5ms"), Ok(delay("2.5", None, None)));
    assert_eq!(
        Delay::parse("qdisc netem 8001: root refcnt 2 limit 1000 delay 100.0ms  10.0ms 25%"),
        Ok(delay("100", Some("10"), Some("25")))
    );
    assert_eq!(Delay::parse("xdelay\t.5ms  5.ms"), Ok(delay("0.5", Some("5"), None)));
    assert_eq!(Delay::parse("delay 1ms  2ms 3% distribution normal"), Ok(delay("1", Some("2"), Some("3"))));
    assert_eq!(Delay::parse("delay 1ms distribution normal"), Ok(delay("1", None, None)));
    assert_eq!(Delay::parse("delay 1msdelay 2ms"), Ok(delay("1", None, None)));
    assert_eq!(Delay::parse("delay x delay 2ms"), Ok(delay("2", None, None)));
}

#[test]
fn delay_jitter_needs_two_spaces() {
    assert_eq!(Delay::parse("delay 1ms 2ms"), Ok(delay("1", None, None)));
    assert_eq!(Delay::parse("delay 1ms   2ms"), Ok(delay("1", None, None)));
    assert_eq!(Delay::parse("delay 1ms\t\t2ms"), Ok(delay("1", None, None)));
    assert_eq!(Delay::parse("delay 1ms  2ms"), Ok(delay("1", Some("2"), None)));
    assert_eq!(Delay::parse("delay 1ms  2"), Ok(delay("1", None, None)));
    assert_eq!(Delay::parse("delay 1ms  ms"), Ok(delay("1", None, None)));
}

#[test]
fn delay_correlation_needs_a_jitter_and_one_space() {
    assert_eq!(Delay::parse("delay 1ms 3%"), Ok(delay("1", None, None)));
    assert_eq!(Delay::parse("delay 1ms  3%"), Ok(delay("1", None, None)));
    assert_eq!(Delay::parse("delay 1ms  2ms 3%"), Ok(delay("1", Some("2"), Some("3"))));
    assert_eq!(Delay::parse("delay 1ms  2ms  3%"), Ok(delay("1", Some("2"), None)));
    assert_eq!(Delay::parse("delay 1ms  2ms3%"), Ok(delay("1", Some("2"), None)));
    assert_eq!(Delay::parse("delay 1ms  2ms 3"), Ok(delay("1", Some("2"), None)));
    assert_eq!(Delay::parse("delay 1ms  2ms 3 %"), Ok(delay("1", Some("2"), None)));
}

#[test]
fn delay_drops_numbers_that_cannot_be_read() {
    let mut expected = delay("10", None, Some("5"));
    assert_eq!(Delay::parse("delay 10ms  1.2.3ms 5%"), Ok(expected));
    expected = delay("10", Some("4"), None);
    assert_eq!(Delay::parse("delay 10ms  4ms ..%"), Ok(expected));
    expected = delay("10", None, None);
    assert_eq!(Delay::parse("delay 10ms  .ms .%"), Ok(expected));
}

#[test]
fn delay_misses() {
    assert_eq!(Delay::parse(""), Err(ParseError::NoDelay));
    assert_eq!(Delay::parse("delay"), Err(ParseError::NoDelay));
    assert_eq!(Delay::parse("delay 10"), Err(ParseError::NoDelay));
    assert_eq!(Delay::parse("delay 10 ms"), Err(ParseError::NoDelay));
    assert_eq!(Delay::parse("delay10ms"), Err(ParseError::NoDelay));
    assert_eq!(Delay::parse("delay -10ms"), Err(ParseError::NoDelay));
    assert_eq!(Delay::parse("delay 10us"), Err(ParseError::NoDelay));
    assert_eq!(Delay::parse("Delay 10ms"), Err(ParseError::NoDelay));
    assert_eq!(Delay::parse("limit 10"), Err(ParseError::NoDelay));
}

#[test]
fn delay_time_must_be_a_number() {
    assert_eq!(Delay::parse("delay 1.2.3ms"), Err(ParseError::InvalidDelayTime));
    assert_eq!(Delay::parse("delay .ms"), Err(ParseError::InvalidDelayTime));
    assert_eq!(Delay::parse("delay ..ms delay 5ms"), Err(ParseError::InvalidDelayTime));
}

#[test]
fn controls_ordering() {
    let c = Controls { limit: Some(Limit::new(5)), delay: Some(delay("10.0", None, None)) };
    assert_eq!(c.to_args(), strings(&["limit", "5", "delay", "10ms"]));
}

#[test]
fn controls_write_what_is_present() {
    let none = Controls { limit: None, delay: None };
    assert_eq!(none.to_args(), Vec::<String>::new());
    let limit = Controls { limit: Some(Limit::new(-3)), delay: None };
    assert_eq!(limit.to_args(), strings(&["limit", "-3"]));
    let only_delay = Controls { limit: None, delay: Some(delay("7", Some("1"), Some("0.5"))) };
    assert_eq!(only_delay.to_args(), strings(&["delay", "7ms", "1ms", "0.50%"]));
}

#[test]
fn controls_gating() {
    assert_eq!(Controls::parse("some unrelated text"), Controls { limit: None, delay: None });
    assert_eq!(
        Controls::parse("limit 5 delay 10ms"),
        Controls { limit: None, delay: None }
    );
    assert_eq!(
        Controls::parse(" qdisc netem limit 5 delay 10ms"),
        Controls { limit: None, delay: None }
    );
    assert_eq!(
        Controls::parse("qdisc nete limit 5"),
        Controls { limit: None, delay: None }
    );
    assert_eq!(Controls::parse(""), Controls { limit: None, delay: None });
}

#[test]
fn controls_read_each_clause_on_its_own() {
    assert_eq!(
        Controls::parse("qdisc netem 8001: root refcnt 2 limit 1000 delay 100ms  10ms 25%"),
        Controls { limit: Some(Limit::new(1000)), delay: Some(delay("100", Some("10"), Some("25"))) }
    );
    assert_eq!(
        Controls::parse("qdisc netem limit 5"),
        Controls { limit: Some(Limit::new(5)), delay: None }
    );
    assert_eq!(
        Controls::parse("qdisc netem delay 5ms"),
        Controls { limit: None, delay: Some(delay("5", None, None)) }
    );
    assert_eq!(Controls::parse("qdisc netem"), Controls { limit: None, delay: None });
    assert_eq!(
        Controls::parse("qdisc netem limit 99999999999 delay 1.1.1ms"),
        Controls { limit: None, delay: None }
    );
    assert_eq!(
        Controls::parse("qdisc netem delay 3ms limit 4"),
        Controls { limit: Some(Limit::new(4)), delay: Some(delay("3", None, None)) }
    );
}

#[test]
fn controls_clauses_of_any_text() {
    assert_eq!(
        Controls::parse_clauses("limit 5 delay 10ms"),
        Controls { limit: Some(Limit::new(5)), delay: Some(delay("10", None, None)) }
    );
    assert_eq!(
        Controls::parse_clauses("some unrelated text"),
        Controls { limit: None, delay: None }
    );
}

#[test]
fn controls_round_trip_behind_the_report_head() {
    let c = Controls { limit: Some(Limit::new(-7)), delay: Some(delay("12.5", Some("3"), Some("1"))) };
    let report = format!("qdisc netem {}", c.to_args().join(" "));
    assert_eq!(report, "qdisc netem limit -7 delay 12.5ms 3ms 1.00%");
    assert_eq!(
        Controls::parse(&report),
        Controls { limit: Some(Limit::new(-7)), delay: Some(delay("12.5", None, None)) }
    );
}

#[test]
fn assembler_end_to_end() {
    let set = Operation::Apply {
        interface: "eth0".to_string(),
        controls: Controls { limit: Some(Limit::new(0)), delay: None },
    };
    assert_eq!(
        set.to_args(),
        strings(&["qdisc", "replace", "dev", "eth0", "root", "netem", "limit", "0"])
    );
    let reset = Operation::Reset { interface: "eth0".to_string() };
    assert_eq!(reset.to_args(), strings(&["qdisc", "del", "dev", "eth0", "root", "netem"]));
}

#[test]
fn netem_always_replaces() {
    let bare = NetEm { interface: "lo".to_string(), controls: Controls::default() };
    assert_eq!(bare.to_args(), strings(&["qdisc", "replace", "dev", "lo", "root", "netem"]));
    let mut d = delay("100", Some("10"), Some("25"));
    d.distribution = Some(Distribution::Pareto);
    let full = NetEm {
        interface: "wlan0".to_string(),
        controls: Controls { limit: Some(Limit::new(1000)), delay: Some(d) },
    };
    assert_eq!(
        full.to_args(),
        strings(&[
            "qdisc", "replace", "dev", "wlan0", "root", "netem", "limit", "1000", "delay",
            "100ms", "10ms", "25.00%", "distribution", "pareto",
        ])
    );
    assert_eq!(full.clone(), full);
}

#[test]
fn interface_is_passed_through_unchanged() {
    let odd = Operation::Reset { interface: "my if\u{e9}".to_string() };
    assert_eq!(odd.to_args()[3], "my if\u{e9}");
    let empty = Operation::Apply { interface: String::new(), controls: Controls::default() };
    assert_eq!(empty.to_args(), strings(&["qdisc", "replace", "dev", "", "root", "netem"]));
}
