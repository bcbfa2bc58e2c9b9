//! The configuration that the environment gives.

use vstd::prelude::*;
use vstd::string::StringExecFns;
use crate::decimal::{numeral_of_text, Decimal, Numeral};
use crate::netem::{
    option_view, Controls, ControlsView, Delay, DelayView, Distribution, Limit, NetEm,
};
use crate::parse::{read_capped, signed_value};
use crate::text::{chars_of, run_end, scan_run, CharClass};
use crate::{EnvError, Error, ErrorView};

verus! {

/// Why a text is no whole number that a limit can take.
#[derive(Clone, Copy, Debug, PartialEq, Eq, Structural)]
pub enum IntError {
    /// The text is empty.
    Empty,
    /// The text holds something else than digits behind an optional sign, or
    /// no digit at all.
    InvalidDigit,
    /// The number is above the largest that fits.
    TooLarge,
    /// The number is below the smallest that fits.
    TooSmall,
}

impl IntError {
    /// What the error says.
    pub open spec fn text(self) -> Seq<char> {
        match self {
            IntError::Empty => "cannot parse integer from empty string"@,
            IntError::InvalidDigit => "invalid digit found in string"@,
            IntError::TooLarge => "number too large to fit in target type"@,
            IntError::TooSmall => "number too small to fit in target type"@,
        }
    }

    /// What the error says.
    pub fn message(self) -> (s: &'static str)
        ensures
            s@ == self.text(),
    {
        match self {
            IntError::Empty => "cannot parse integer from empty string",
            IntError::InvalidDigit => "invalid digit found in string",
            IntError::TooLarge => "number too large to fit in target type",
            IntError::TooSmall => "number too small to fit in target type",
        }
    }
}

impl From<IntError> for Error {
    /// The parsing error that says what `value` says.
    fn from(value: IntError) -> (e: Error)
        ensures
            e@ == ErrorView::LatencyConfigParseError(value.text()),
    {
        Error::LatencyConfigParseError(String::from_str(value.message()))
    }
}

impl vstd::std_specs::convert::FromSpecImpl<IntError> for Error {
    /// A string is known by its characters alone, which `from` states itself.
    open spec fn obeys_from_spec() -> bool {
        false
    }

    open spec fn from_spec(value: IntError) -> Error {
        choose|e: Error| e@ == ErrorView::LatencyConfigParseError(value.text())
    }
}

/// The whole number that `t` writes: digits behind an optional sign, plus or
/// minus, that denote a number of 32 bits.
pub open spec fn int_of_text(t: Seq<char>) -> Result<int, IntError> {
    let start: int = if t.len() > 0 && (t[0] == '-' || t[0] == '+') {
        1
    } else {
        0
    };
    if t.len() == 0 {
        Err(IntError::Empty)
    } else if start == t.len() || run_end(t, start, CharClass::Digit) != t.len() {
        Err(IntError::InvalidDigit)
    } else {
        let n = signed_value(if t[0] == '+' { t.skip(1) } else { t });
        if n > i32::MAX {
            Err(IntError::TooLarge)
        } else if n < i32::MIN {
            Err(IntError::TooSmall)
        } else {
            Ok(n)
        }
    }
}

/// What is said of a text that is no decimal number.
pub open spec fn decimal_error_text(t: Seq<char>) -> Seq<char> {
    if t.len() == 0 {
        "cannot parse float from empty string"@
    } else {
        "invalid float literal"@
    }
}

/// Reads a whole number of 32 bits.
pub fn parse_int(text: &str) -> (r: Result<i32, IntError>)
    ensures
        match int_of_text(text@) {
            Ok(n) => r == Ok::<i32, IntError>(n as i32),
            Err(e) => r == Err::<i32, IntError>(e),
        },
{
    let t = chars_of(text);
    if t.len() == 0 {
        return Err(IntError::Empty);
    }
    let negative = t[0] == '-';
    let start: usize = if negative || t[0] == '+' { 1 } else { 0 };
    let end: usize = scan_run(&t, start, CharClass::Digit);
    if start == t.len() || end != t.len() {
        return Err(IntError::InvalidDigit);
    }
    let magnitude = read_capped(&t, start, end, 0x8000_0000);
    proof {
        let body = if t@[0] == '+' { t@.skip(1) } else { t@ };
        if negative {
            assert(body.skip(1) =~= t@.subrange(start as int, end as int));
        } else {
            assert(body =~= t@.subrange(start as int, end as int));
        }
    }
    match magnitude {
        Some(m) => {
            if negative {
                Ok((-(m as i64)) as i32)
            } else if m <= 0x7fff_ffff {
                Ok(m as i32)
            } else {
                Err(IntError::TooLarge)
            }
        },
        None => {
            if negative {
                Err(IntError::TooSmall)
            } else {
                Err(IntError::TooLarge)
            }
        },
    }
}

/// What a variable of the environment holds, or why it could not be had.
pub type Variable = Result<String, EnvError>;

/// What the environment holds of the variables that the configuration reads.
#[derive(Debug, PartialEq, Eq)]
pub struct Variables {
    /// `NODE_NAME`: the name of the node, which names the variable of the latency.
    pub node_name: Variable,
    /// The variable that `latency_variable` names for the node: the latency in
    /// milliseconds.
    pub latency: Variable,
    /// `LIMIT`: the number of packets.
    pub limit: Variable,
    /// `INTERFACE`: the network interface.
    pub interface: Variable,
    /// `JITTER`: the jitter in milliseconds.
    pub jitter: Variable,
    /// `CORRELATION`: the correlation in per cent.
    pub correlation: Variable,
    /// `DISTRIBUTION`: the name of the distribution.
    pub distribution: Variable,
}

/// What a variable holds.
pub open spec fn variable_view(v: Variable) -> Result<Seq<char>, EnvError> {
    match v {
        Ok(s) => Ok(s@),
        Err(e) => Err(e),
    }
}

/// What the variables hold.
pub struct VariablesView {
    pub node_name: Result<Seq<char>, EnvError>,
    pub latency: Result<Seq<char>, EnvError>,
    pub limit: Result<Seq<char>, EnvError>,
    pub interface: Result<Seq<char>, EnvError>,
    pub jitter: Result<Seq<char>, EnvError>,
    pub correlation: Result<Seq<char>, EnvError>,
    pub distribution: Result<Seq<char>, EnvError>,
}

impl View for Variables {
    type V = VariablesView;

    open spec fn view(&self) -> VariablesView {
        VariablesView {
            node_name: variable_view(self.node_name),
            latency: variable_view(self.latency),
            limit: variable_view(self.limit),
            interface: variable_view(self.interface),
            jitter: variable_view(self.jitter),
            correlation: variable_view(self.correlation),
            distribution: variable_view(self.distribution),
        }
    }
}

/// The configuration of the emulation.
#[derive(Debug, PartialEq, Eq)]
pub struct NetemConfig {
    pub limit: Option<i32>,
    pub interface: String,
    pub network_latency: Decimal,
    pub jitter: Option<Decimal>,
    pub correlation: Option<Decimal>,
    pub distribution: Option<Distribution>,
}

/// What a configuration holds.
pub struct ConfigView {
    pub limit: Option<int>,
    pub interface: Seq<char>,
    pub network_latency: Numeral,
    pub jitter: Option<Numeral>,
    pub correlation: Option<Numeral>,
    pub distribution: Option<Distribution>,
}

impl View for NetemConfig {
    type V = ConfigView;

    open spec fn view(&self) -> ConfigView {
        ConfigView {
            limit: match self.limit {
                Some(n) => Some(n as int),
                None => None,
            },
            interface: self.interface@,
            network_latency: self.network_latency@,
            jitter: option_view(self.jitter),
            correlation: option_view(self.correlation),
            distribution: self.distribution,
        }
    }
}

/// The error of a number that cannot be read from `t`.
pub open spec fn decimal_error(t: Seq<char>) -> ErrorView {
    ErrorView::LatencyConfigParseError(decimal_error_text(t))
}

/// The first thing that is wrong with the variables, if anything is: they are
/// looked at in the order node name, latency, limit, interface, jitter,
/// correlation, distribution. The node name, the latency and the interface
/// must be there; of the others only a value that cannot be read is wrong.
pub open spec fn first_fault(v: VariablesView) -> Option<ErrorView> {
    if v.node_name is Err {
        Some(ErrorView::LatencyConfigEnvError(v.node_name->Err_0))
    } else if v.latency is Err {
        Some(ErrorView::LatencyConfigEnvError(v.latency->Err_0))
    } else if numeral_of_text(v.latency->Ok_0) is None {
        Some(decimal_error(v.latency->Ok_0))
    } else if v.limit is Ok && int_of_text(v.limit->Ok_0) is Err {
        Some(ErrorView::LatencyConfigParseError(int_of_text(v.limit->Ok_0)->Err_0.text()))
    } else if v.interface is Err {
        Some(ErrorView::LatencyConfigEnvError(v.interface->Err_0))
    } else if v.jitter is Ok && numeral_of_text(v.jitter->Ok_0) is None {
        Some(decimal_error(v.jitter->Ok_0))
    } else if v.correlation is Ok && numeral_of_text(v.correlation->Ok_0) is None {
        Some(decimal_error(v.correlation->Ok_0))
    } else if v.distribution is Ok && Distribution::named(v.distribution->Ok_0) is None {
        Some(ErrorView::LatencyConfigParseError("invalid distribution value"@))
    } else {
        None
    }
}

/// The number that an optional variable holds.
pub open spec fn optional_numeral(v: Result<Seq<char>, EnvError>) -> Option<Numeral> {
    match v {
        Ok(t) => numeral_of_text(t),
        Err(_) => None,
    }
}

/// The configuration that variables without a fault give.
pub open spec fn config_of(v: VariablesView) -> ConfigView {
    ConfigView {
        limit: match v.limit {
            Ok(t) => Some(int_of_text(t)->Ok_0),
            Err(_) => None,
        },
        interface: v.interface->Ok_0,
        network_latency: numeral_of_text(v.latency->Ok_0)->Some_0,
        jitter: optional_numeral(v.jitter),
        correlation: optional_numeral(v.correlation),
        distribution: match v.distribution {
            Ok(t) => Distribution::named(t),
            Err(_) => None,
        },
    }
}

/// The text `t` in upper case, as the standard library's `str::to_uppercase`
/// gives it.
pub uninterp spec fn upper_case(t: Seq<char>) -> Seq<char>;

/// Calls `str::to_uppercase` of the standard library, which maps every
/// character of the text to its upper case and depends on nothing else.
#[verifier::external_body]
fn to_upper_case(s: &str) -> (r: String)
    ensures
        r@ == upper_case(s@),
{
    s.to_uppercase()
}

/// Reads a number from a variable that must hold one.
fn read_decimal(text: &String) -> (r: Result<Decimal, Error>)
    ensures
        match numeral_of_text(text@) {
            Some(n) => r is Ok && r->Ok_0@ == n,
            None => r is Err && r->Err_0@ == decimal_error(text@),
        },
{
    match Decimal::parse(text.as_str()) {
        Some(d) => Ok(d),
        None => {
            if text.as_str().is_empty() {
                Err(Error::LatencyConfigParseError(String::from_str(
                    "cannot parse float from empty string",
                )))
            } else {
                Err(Error::LatencyConfigParseError(String::from_str("invalid float literal")))
            }
        },
    }
}

/// Reads a number from a variable that need not be there.
fn read_optional_decimal(v: &Variable) -> (r: Result<Option<Decimal>, Error>)
    ensures
        match variable_view(*v) {
            Ok(t) => match numeral_of_text(t) {
                Some(n) => r is Ok && option_view(r->Ok_0) == Some(n),
                None => r is Err && r->Err_0@ == decimal_error(t),
            },
            Err(_) => r is Ok && r->Ok_0 is None,
        },
{
    match v {
        Ok(text) => match read_decimal(text) {
            Ok(d) => Ok(Some(d)),
            Err(e) => Err(e),
        },
        Err(_) => Ok(None),
    }
}

impl NetemConfig {
    /// The name of the variable that holds the latency of the node
    /// `node_name`: the name of the node in upper case.
    pub fn latency_variable(node_name: &str) -> (name: String)
        ensures
            name@ == upper_case(node_name@),
    {
        to_upper_case(node_name)
    }

    /// Builds the configuration from what the environment holds, or says
    /// what is wrong with the first variable that cannot be used.
    pub fn build(vars: &Variables) -> (r: Result<NetemConfig, Error>)
        ensures
            match first_fault(vars@) {
                Some(e) => r is Err && r->Err_0@ == e,
                None => r is Ok && r->Ok_0@ == config_of(vars@),
            },
    {
        if let Err(e) = &vars.node_name {
            return Err(Error::from(*e));
        }
        let network_latency = match &vars.latency {
            Ok(text) => match read_decimal(text) {
                Ok(d) => d,
                Err(e) => {
                    return Err(e);
                },
            },
            Err(e) => {
                return Err(Error::from(*e));
            },
        };
        let limit = match &vars.limit {
            Ok(text) => match parse_int(text.as_str()) {
                Ok(n) => Some(n),
                Err(e) => {
                    return Err(Error::from(e));
                },
            },
            Err(_) => None,
        };
        let interface = match &vars.interface {
            Ok(name) => name.clone(),
            Err(e) => {
                return Err(Error::from(*e));
            },
        };
        let jitter = match read_optional_decimal(&vars.jitter) {
            Ok(j) => j,
            Err(e) => {
                return Err(e);
            },
        };
        let correlation = match read_optional_decimal(&vars.correlation) {
            Ok(c) => c,
            Err(e) => {
                return Err(e);
            },
        };
        let distribution = match &vars.distribution {
            Ok(name) => match Distribution::parse(name.as_str()) {
                Ok(d) => Some(d),
                Err(_) => {
                    return Err(Error::LatencyConfigParseError(String::from_str(
                        "invalid distribution value",
                    )));
                },
            },
            Err(_) => None,
        };
        Ok(NetemConfig { limit, interface, network_latency, jitter, correlation, distribution })
    }

    /// The controls that the configuration asks for: its limit, and a delay of
    /// its latency with its jitter and correlation. The distribution is not
    /// handed on.
    pub fn to_netem(&self) -> (netem: NetEm)
        ensures
            netem.interface@ == self@.interface,
            netem.controls@ == (ControlsView {
                limit: self@.limit,
                delay: Some(
                    DelayView {
                        time: self@.network_latency,
                        jitter: self@.jitter,
                        correlation: self@.correlation,
                        distribution: None,
                    },
                ),
            }),
    {
        let limit = match self.limit {
            Some(n) => Some(Limit::new(n)),
            None => None,
        };
        let delay = Delay {
            time: self.network_latency.clone(),
            jitter: match &self.jitter {
                Some(j) => Some(j.clone()),
                None => None,
            },
            correlation: match &self.correlation {
                Some(c) => Some(c.clone()),
                None => None,
            },
            distribution: None,
        };
        NetEm { interface: self.interface.clone(), controls: Controls { limit, delay: Some(delay) } }
    }
}

} // verus!
