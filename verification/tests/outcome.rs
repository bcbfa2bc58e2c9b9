use latency_sim::config::{parse_int, IntError, Variables};
use latency_sim::{
    Completion, Controls, Decimal, Delay, Distribution, EnvError, Error, Limit, NetemConfig,
    Output,
};

fn exited(code: i32, stderr: &[u8]) -> Output {
    Output::from_completion(Completion::Exited { code, stderr: stderr.to_vec() })
}

fn error(description: &str) -> Output {
    Output::Error { description: description.to_string() }
}

#[test]
fn execution_mapping() {
    assert_eq!(exited(0, b""), Output::Success);
    match exited(2, b"bad") {
        Output::Error { description } => {
            assert!(description.contains("2"));
            assert!(description.contains("bad"));
        },
        Output::Success => panic!("a failure was expected"),
    }
    assert_eq!(Output::from_completion(Completion::Killed), error("Process killed by signal"));
}

#[test]
fn exit_code_zero_is_success_whatever_was_written() {
    assert_eq!(exited(0, b"warning: something"), Output::Success);
    assert_eq!(exited(0, &[0xff, 0xfe]), Output::Success);
}

#[test]
fn exit_description_holds_code_and_text() {
    assert_eq!(exited(2, b"bad"), error("Exit with status code: 2, stderr: bad"));
    assert_eq!(exited(1, b""), error("Exit with status code: 1, stderr: "));
    assert_eq!(exited(-1, b"x\n"), error("Exit with status code: -1, stderr: x\n"));
    assert_eq!(exited(255, "caf\u{e9}".as_bytes()), error("Exit with status code: 255, stderr: caf\u{e9}"));
    assert_eq!(
        exited(i32::MIN, "\u{1f600}".as_bytes()),
        error("Exit with status code: -2147483648, stderr: \u{1f600}")
    );
}

#[test]
fn exit_description_leaves_out_what_is_no_text() {
    assert_eq!(exited(2, &[0xff]), error("Exit with status code: 2"));
    assert_eq!(exited(3, &[b'a', 0xc3]), error("Exit with status code: 3"));
    assert_eq!(exited(4, &[0xed, 0xa0, 0x80]), error("Exit with status code: 4"));
    assert_eq!(exited(5, &[0xc0, 0x80]), error("Exit with status code: 5"));
}

#[test]
fn launch_failure_is_described() {
    assert_eq!(
        Output::from_completion(Completion::NotStarted {
            reason: "No such file or directory (os error 2)".to_string()
        }),
        error("Command Error: No such file or directory (os error 2)")
    );
    assert_eq!(
        Output::from_completion(Completion::NotStarted { reason: String::new() }),
        error("Command Error: ")
    );
}

#[test]
fn err_wraps_the_description() {
    assert_eq!(Output::err("why".to_string()), error("why"));
    assert_eq!(Output::err(String::new()), error(""));
}

fn set(value: &str) -> Result<String, EnvError> {
    Ok(value.to_string())
}

fn variables() -> Variables {
    Variables {
        node_name: set("node-1"),
        latency: set("100"),
        limit: Err(EnvError::NotPresent),
        interface: set("eth0"),
        jitter: Err(EnvError::NotPresent),
        correlation: Err(EnvError::NotPresent),
        distribution: Err(EnvError::NotPresent),
    }
}

fn parse_error(reason: &str) -> Error {
    Error::LatencyConfigParseError(reason.to_string())
}

#[test]
fn latency_variable_is_the_node_name_in_upper_case() {
    assert_eq!(NetemConfig::latency_variable("node-1"), "NODE-1");
    assert_eq!(NetemConfig::latency_variable("Worker_a"), "WORKER_A");
    assert_eq!(NetemConfig::latency_variable("stra\u{df}e"), "STRASSE");
    assert_eq!(NetemConfig::latency_variable(""), "");
}

#[test]
fn config_with_the_required_variables() {
    let config = NetemConfig::build(&variables()).unwrap();
    assert_eq!(
        config,
        NetemConfig {
            limit: None,
            interface: "eth0".to_string(),
            network_latency: Decimal::from_int(100),
            jitter: None,
            correlation: None,
            distribution: None,
        }
    );
}

#[test]
fn config_with_every_variable() {
    let mut vars = variables();
    vars.latency = set("12.5");
    vars.limit = set("-1000");
    vars.jitter = set("0.25");
    vars.correlation = set("33");
    vars.distribution = set("paretonormal");
    let config = NetemConfig::build(&vars).unwrap();
    assert_eq!(config.limit, Some(-1000));
    assert_eq!(config.interface, "eth0");
    assert_eq!(config.network_latency, Decimal::parse("12.5").unwrap());
    assert_eq!(config.jitter, Decimal::parse("0.25"));
    assert_eq!(config.correlation, Some(Decimal::from_int(33)));
    assert_eq!(config.distribution, Some(Distribution::ParetoNormal));
}

#[test]
fn config_needs_node_name_latency_and_interface() {
    let mut vars = variables();
    vars.node_name = Err(EnvError::NotPresent);
    assert_eq!(NetemConfig::build(&vars), Err(Error::LatencyConfigEnvError(EnvError::NotPresent)));
    vars = variables();
    vars.latency = Err(EnvError::NotUnicode);
    assert_eq!(NetemConfig::build(&vars), Err(Error::LatencyConfigEnvError(EnvError::NotUnicode)));
    vars = variables();
    vars.interface = Err(EnvError::NotPresent);
    assert_eq!(NetemConfig::build(&vars), Err(Error::LatencyConfigEnvError(EnvError::NotPresent)));
}

#[test]
fn config_takes_optional_variables_that_cannot_be_had_as_unset() {
    let mut vars = variables();
    vars.limit = Err(EnvError::NotUnicode);
    vars.jitter = Err(EnvError::NotUnicode);
    vars.correlation = Err(EnvError::NotUnicode);
    vars.distribution = Err(EnvError::NotUnicode);
    let config = NetemConfig::build(&vars).unwrap();
    assert_eq!(config.limit, None);
    assert_eq!(config.jitter, None);
    assert_eq!(config.correlation, None);
    assert_eq!(config.distribution, None);
}

#[test]
fn config_refuses_values_that_cannot_be_read() {
    let mut vars = variables();
    vars.latency = set("fast");
    assert_eq!(NetemConfig::build(&vars), Err(parse_error("invalid float literal")));
    vars.latency = set("");
    assert_eq!(NetemConfig::build(&vars), Err(parse_error("cannot parse float from empty string")));
    vars = variables();
    vars.limit = set("1.5");
    assert_eq!(NetemConfig::build(&vars), Err(parse_error("invalid digit found in string")));
    vars.limit = set("");
    assert_eq!(NetemConfig::build(&vars), Err(parse_error("cannot parse integer from empty string")));
    vars.limit = set("2147483648");
    assert_eq!(NetemConfig::build(&vars), Err(parse_error("number too large to fit in target type")));
    vars.limit = set("-2147483649");
    assert_eq!(NetemConfig::build(&vars), Err(parse_error("number too small to fit in target type")));
    vars = variables();
    vars.jitter = set("1..2");
    assert_eq!(NetemConfig::build(&vars), Err(parse_error("invalid float literal")));
    vars = variables();
    vars.correlation = set("");
    assert_eq!(NetemConfig::build(&vars), Err(parse_error("cannot parse float from empty string")));
    vars = variables();
    vars.distribution = set("gaussian");
    assert_eq!(NetemConfig::build(&vars), Err(parse_error("invalid distribution value")));
}

#[test]
fn config_reports_the_first_fault() {
    let mut vars = variables();
    vars.node_name = Err(EnvError::NotUnicode);
    vars.latency = set("x");
    vars.interface = Err(EnvError::NotPresent);
    assert_eq!(NetemConfig::build(&vars), Err(Error::LatencyConfigEnvError(EnvError::NotUnicode)));
    vars.node_name = set("n");
    assert_eq!(NetemConfig::build(&vars), Err(parse_error("invalid float literal")));
    vars.latency = set("1");
    vars.limit = set("x");
    assert_eq!(NetemConfig::build(&vars), Err(parse_error("invalid digit found in string")));
    vars.limit = set("1");
    vars.jitter = set("x");
    assert_eq!(NetemConfig::build(&vars), Err(Error::LatencyConfigEnvError(EnvError::NotPresent)));
    vars.interface = set("eth0");
    vars.distribution = set("x");
    assert_eq!(NetemConfig::build(&vars), Err(parse_error("invalid float literal")));
    vars.jitter = set("1");
    assert_eq!(NetemConfig::build(&vars), Err(parse_error("invalid distribution value")));
}

#[test]
fn config_gives_limit_and_delay_but_no_distribution() {
    let mut vars = variables();
    vars.limit = set("10");
    vars.jitter = set("2");
    vars.correlation = set("50");
    vars.distribution = set("normal");
    let netem = NetemConfig::build(&vars).unwrap().to_netem();
    assert_eq!(netem.interface, "eth0");
    assert_eq!(
        netem.controls,
        Controls {
            limit: Some(Limit::new(10)),
            delay: Some(Delay {
                time: Decimal::from_int(100),
                jitter: Some(Decimal::from_int(2)),
                correlation: Some(Decimal::from_int(50)),
                distribution: None,
            }),
        }
    );
    let bare = NetemConfig::build(&variables()).unwrap().to_netem();
    assert_eq!(bare.controls.limit, None);
    assert_eq!(bare.controls.delay, Some(Delay::default()).map(|mut d| {
        d.time = Decimal::from_int(100);
        d
    }));
}

#[test]
fn whole_numbers_are_read() {
    assert_eq!(parse_int("0"), Ok(0));
    assert_eq!(parse_int("+7"), Ok(7));
    assert_eq!(parse_int("-7"), Ok(-7));
    assert_eq!(parse_int("0012"), Ok(12));
    assert_eq!(parse_int("-0"), Ok(0));
    assert_eq!(parse_int("2147483647"), Ok(i32::MAX));
    assert_eq!(parse_int("-2147483648"), Ok(i32::MIN));
    assert_eq!(parse_int(""), Err(IntError::Empty));
    assert_eq!(parse_int("-"), Err(IntError::InvalidDigit));
    assert_eq!(parse_int("+"), Err(IntError::InvalidDigit));
    assert_eq!(parse_int(" 1"), Err(IntError::InvalidDigit));
    assert_eq!(parse_int("1 "), Err(IntError::InvalidDigit));
    assert_eq!(parse_int("1.0"), Err(IntError::InvalidDigit));
    assert_eq!(parse_int("--1"), Err(IntError::InvalidDigit));
    assert_eq!(parse_int("2147483648"), Err(IntError::TooLarge));
    assert_eq!(parse_int("99999999999999999999"), Err(IntError::TooLarge));
    assert_eq!(parse_int("-2147483649"), Err(IntError::TooSmall));
    assert_eq!(IntError::TooSmall.message(), "number too small to fit in target type");
}

#[test]
fn errors_say_what_happened() {
    assert_eq!(
        parse_error("invalid float literal").message(),
        "latency config parsing error: invalid float literal"
    );
    assert_eq!(
        Error::LatencyConfigEnvError(EnvError::NotPresent).message(),
        "latency config env error: environment variable not found"
    );
    assert_eq!(
        Error::from(EnvError::NotUnicode).message(),
        "latency config env error: environment variable was not valid unicode"
    );
    assert_eq!(EnvError::NotPresent.message(), "environment variable not found");
}
