//! The netem controls and the argument lists that they stand for.

use vstd::prelude::*;
use vstd::string::StringExecFns;
use crate::decimal::{Decimal, Millisecond, Numeral, Percentage};
use crate::digits::{int_string, int_text};
use crate::text::views;

verus! {

/// A control: something that stands for a run of arguments of `tc`.
pub trait Control {
    /// The arguments that the control stands for.
    spec fn args(&self) -> Seq<Seq<char>>;

    /// Writes the control out as arguments.
    fn to_args(&self) -> (v: Vec<String>)
        ensures
            views(v@) == self.args(),
    ;
}

/// The limit clause: `limit PACKETS`.
#[derive(Clone, Copy, Debug, PartialEq, Eq)]
pub struct Limit {
    packets: i32,
}

impl View for Limit {
    type V = int;

    closed spec fn view(&self) -> int {
        self.packets as int
    }
}

/// The arguments of a limit of `packets` packets.
pub open spec fn limit_args(packets: int) -> Seq<Seq<char>> {
    seq!["limit"@, int_text(packets)]
}

impl Limit {
    /// A limit of `packets` packets. Any number is taken, a negative one too.
    pub fn new(packets: i32) -> (limit: Self)
        ensures
            limit@ == packets,
    {
        Self { packets }
    }

    /// The number of packets.
    pub fn packets(&self) -> (n: i32)
        ensures
            n == self@,
    {
        self.packets
    }
}

impl Control for Limit {
    open spec fn args(&self) -> Seq<Seq<char>> {
        limit_args(self@)
    }

    fn to_args(&self) -> (v: Vec<String>) {
        let mut v: Vec<String> = Vec::new();
        v.push(String::from_str("limit"));
        v.push(int_string(self.packets));
        assert(views(v@) =~= limit_args(self@));
        v
    }
}

/// Why a text could not be read.
#[derive(Clone, Copy, Debug, PartialEq, Eq, Structural)]
pub enum ParseError {
    /// The text holds no limit clause.
    NoLimit,
    /// The first limit clause of the text holds a number that no limit can take.
    LimitOutOfRange,
    /// The text holds no delay clause.
    NoDelay,
    /// The time of the first delay clause of the text is no number.
    InvalidDelayTime,
    /// The text is not the name of a distribution.
    NoDistribution,
}

/// The distribution of the delay.
#[derive(Clone, Copy, Debug, PartialEq, Eq, Structural)]
pub enum Distribution {
    Uniform,
    Normal,
    Pareto,
    ParetoNormal,
}

impl Distribution {
    /// The name of the distribution, in lower case.
    pub open spec fn name(self) -> Seq<char> {
        match self {
            Distribution::Uniform => "uniform"@,
            Distribution::Normal => "normal"@,
            Distribution::Pareto => "pareto"@,
            Distribution::ParetoNormal => "paretonormal"@,
        }
    }

    /// The distribution that `t` names, letter for letter.
    pub open spec fn named(t: Seq<char>) -> Option<Distribution> {
        if t == "uniform"@ {
            Some(Distribution::Uniform)
        } else if t == "normal"@ {
            Some(Distribution::Normal)
        } else if t == "pareto"@ {
            Some(Distribution::Pareto)
        } else if t == "paretonormal"@ {
            Some(Distribution::ParetoNormal)
        } else {
            None
        }
    }

    /// The name of the distribution, in lower case.
    pub fn as_str(self) -> (s: &'static str)
        ensures
            s@ == self.name(),
    {
        match self {
            Distribution::Uniform => "uniform",
            Distribution::Normal => "normal",
            Distribution::Pareto => "pareto",
            Distribution::ParetoNormal => "paretonormal",
        }
    }
}

impl Distribution {
    /// Reads the name of a distribution. The name is taken letter for letter:
    /// no space is dropped and no capital accepted.
    pub fn parse(s: &str) -> (r: Result<Distribution, ParseError>)
        ensures
            r == match Distribution::named(s@) {
                Some(d) => Ok::<Distribution, ParseError>(d),
                None => Err(ParseError::NoDistribution),
            },
    {
        let owned = String::from_str(s);
        if owned == String::from_str("uniform") {
            Ok(Distribution::Uniform)
        } else if owned == String::from_str("normal") {
            Ok(Distribution::Normal)
        } else if owned == String::from_str("pareto") {
            Ok(Distribution::Pareto)
        } else if owned == String::from_str("paretonormal") {
            Ok(Distribution::ParetoNormal)
        } else {
            Err(ParseError::NoDistribution)
        }
    }
}

impl std::str::FromStr for Distribution {
    type Err = ParseError;

    fn from_str(s: &str) -> (r: Result<Distribution, ParseError>)
        ensures
            r == match Distribution::named(s@) {
                Some(d) => Ok::<Distribution, ParseError>(d),
                None => Err(ParseError::NoDistribution),
            },
    {
        Distribution::parse(s)
    }
}

/// Every distribution is read back from its own name, and the four names differ.
pub proof fn lemma_distribution_names(d: Distribution)
    ensures
        Distribution::named(d.name()) == Some(d),
        forall|e: Distribution| e.name() == d.name() ==> e == d,
{
    reveal_strlit("uniform");
    reveal_strlit("normal");
    reveal_strlit("pareto");
    reveal_strlit("paretonormal");
    assert("uniform"@.len() == 7 && "normal"@.len() == 6 && "pareto"@.len() == 6
        && "paretonormal"@.len() == 12);
    assert("normal"@[0] == 'n' && "pareto"@[0] == 'p');
}

/// A text names a distribution only where it is the name of one.
pub proof fn lemma_distribution_unnamed(t: Seq<char>)
    ensures
        Distribution::named(t) is Some <==> exists|d: Distribution| t == #[trigger] d.name(),
        Distribution::named(t) is Some ==> Distribution::named(t).unwrap().name() == t,
{
    if Distribution::named(t) is Some {
        assert(t == Distribution::named(t).unwrap().name());
    }
    if exists|d: Distribution| t == #[trigger] d.name() {
        let d = choose|d: Distribution| t == #[trigger] d.name();
        lemma_distribution_names(d);
    }
}

/// The text `invalid` names no distribution.
pub proof fn lemma_invalid_is_no_distribution()
    ensures
        Distribution::named("invalid"@) is None,
{
    reveal_strlit("uniform");
    reveal_strlit("normal");
    reveal_strlit("pareto");
    reveal_strlit("paretonormal");
    reveal_strlit("invalid");
    assert("invalid"@[0] == 'i');
    assert("uniform"@[0] == 'u' && "normal"@[0] == 'n' && "pareto"@[0] == 'p'
        && "paretonormal"@[0] == 'p');
}

impl From<Distribution> for String {
    /// The name of the distribution, in lower case.
    fn from(distribution: Distribution) -> (s: String)
        ensures
            s@ == distribution.name(),
    {
        String::from_str(distribution.as_str())
    }
}

impl vstd::std_specs::convert::FromSpecImpl<Distribution> for String {
    /// A string is known by its characters alone, which `from` states itself.
    open spec fn obeys_from_spec() -> bool {
        false
    }

    open spec fn from_spec(distribution: Distribution) -> String {
        choose|s: String| s@ == distribution.name()
    }
}

/// What a delay holds.
pub struct DelayView {
    pub time: Numeral,
    pub jitter: Option<Numeral>,
    pub correlation: Option<Numeral>,
    pub distribution: Option<Distribution>,
}

/// What a set of controls holds.
pub struct ControlsView {
    pub limit: Option<int>,
    pub delay: Option<DelayView>,
}

/// The arguments of the jitter and of the correlation that goes with it. A
/// correlation without a jitter is left out.
pub open spec fn jitter_args(jitter: Option<Numeral>, correlation: Option<Numeral>) -> Seq<
    Seq<char>,
> {
    match jitter {
        Some(j) => match correlation {
            Some(c) => seq![j.text() + "ms"@, c.text_fixed2() + "%"@],
            None => seq![j.text() + "ms"@],
        },
        None => Seq::empty(),
    }
}

/// The arguments of the distribution.
pub open spec fn distribution_args(distribution: Option<Distribution>) -> Seq<Seq<char>> {
    match distribution {
        Some(d) => seq!["distribution"@, d.name()],
        None => Seq::empty(),
    }
}

/// The arguments of a delay: the word `delay` and the time, then the jitter
/// with its correlation, then the distribution.
pub open spec fn delay_args(d: DelayView) -> Seq<Seq<char>> {
    seq!["delay"@, d.time.text() + "ms"@] + jitter_args(d.jitter, d.correlation)
        + distribution_args(d.distribution)
}

/// The arguments of a set of controls: those of the limit, then those of the delay.
pub open spec fn controls_args(c: ControlsView) -> Seq<Seq<char>> {
    (match c.limit {
        Some(n) => limit_args(n),
        None => Seq::empty(),
    }) + (match c.delay {
        Some(d) => delay_args(d),
        None => Seq::empty(),
    })
}

/// The arguments that name the discipline of `interface`, for the action `verb`.
pub open spec fn qdisc_args(verb: Seq<char>, interface: Seq<char>) -> Seq<Seq<char>> {
    seq!["qdisc"@, verb, "dev"@, interface, "root"@, "netem"@]
}

/// The delay clause:
/// `delay TIME [ JITTER [ CORRELATION ] ] [ distribution NAME ]`.
#[derive(Debug, PartialEq, Eq)]
pub struct Delay {
    pub time: Millisecond,
    pub jitter: Option<Millisecond>,
    pub correlation: Option<Percentage>,
    pub distribution: Option<Distribution>,
}

/// What an optional number holds.
pub open spec fn option_view(d: Option<Decimal>) -> Option<Numeral> {
    match d {
        Some(x) => Some(x@),
        None => None,
    }
}

/// A copy of an optional number.
fn clone_option(d: &Option<Decimal>) -> (r: Option<Decimal>)
    ensures
        option_view(r) == option_view(*d),
{
    match d {
        Some(x) => Some(x.clone()),
        None => None,
    }
}

impl View for Delay {
    type V = DelayView;

    open spec fn view(&self) -> DelayView {
        DelayView {
            time: self.time@,
            jitter: option_view(self.jitter),
            correlation: option_view(self.correlation),
            distribution: self.distribution,
        }
    }
}

impl Clone for Delay {
    fn clone(&self) -> (d: Delay)
        ensures
            d@ == self@,
    {
        Delay {
            time: self.time.clone(),
            jitter: clone_option(&self.jitter),
            correlation: clone_option(&self.correlation),
            distribution: self.distribution,
        }
    }
}

impl Default for Delay {
    /// A delay of no time, with nothing else set.
    fn default() -> (d: Delay)
        ensures
            d@ == (DelayView {
                time: Numeral::of_int(0),
                jitter: None,
                correlation: None,
                distribution: None,
            }),
    {
        Delay { time: Decimal::from_int(0), jitter: None, correlation: None, distribution: None }
    }
}

impl Control for Delay {
    open spec fn args(&self) -> Seq<Seq<char>> {
        delay_args(self@)
    }

    fn to_args(&self) -> (v: Vec<String>) {
        let mut v: Vec<String> = Vec::new();
        v.push(String::from_str("delay"));
        v.push(self.time.to_ms_string());
        if let Some(jitter) = &self.jitter {
            v.push(jitter.to_ms_string());
            if let Some(correlation) = &self.correlation {
                v.push(correlation.to_pct_string());
            }
        }
        if let Some(distribution) = self.distribution {
            v.push(String::from_str("distribution"));
            v.push(String::from(distribution));
        }
        assert(views(v@) =~= delay_args(self@));
        v
    }
}

/// The controls of one discipline: a limit, a delay, both or neither.
#[derive(Debug, PartialEq, Eq)]
pub struct Controls {
    pub limit: Option<Limit>,
    pub delay: Option<Delay>,
}

impl View for Controls {
    type V = ControlsView;

    open spec fn view(&self) -> ControlsView {
        ControlsView {
            limit: match self.limit {
                Some(l) => Some(l@),
                None => None,
            },
            delay: match self.delay {
                Some(d) => Some(d@),
                None => None,
            },
        }
    }
}

impl Clone for Controls {
    fn clone(&self) -> (c: Controls)
        ensures
            c@ == self@,
    {
        Controls {
            limit: self.limit,
            delay: match &self.delay {
                Some(d) => Some(d.clone()),
                None => None,
            },
        }
    }
}

impl Default for Controls {
    /// No control at all.
    fn default() -> (c: Controls)
        ensures
            c@ == (ControlsView { limit: None, delay: None }),
    {
        Controls { limit: None, delay: None }
    }
}

/// Moves the strings of `more` to the end of `v`.
fn extend(v: &mut Vec<String>, more: Vec<String>)
    ensures
        views(final(v)@) == views(old(v)@) + views(more@),
{
    let ghost added = more@;
    let mut more = more;
    v.append(&mut more);
    assert(views(v@) =~= views(old(v)@) + views(added));
}

impl Control for Controls {
    open spec fn args(&self) -> Seq<Seq<char>> {
        controls_args(self@)
    }

    fn to_args(&self) -> (v: Vec<String>) {
        let mut v: Vec<String> = Vec::new();
        if let Some(limit) = &self.limit {
            extend(&mut v, limit.to_args());
        }
        if let Some(delay) = &self.delay {
            extend(&mut v, delay.to_args());
        }
        assert(views(v@) =~= controls_args(self@));
        v
    }
}

/// The controls to put on an interface. Written out, they replace whatever the
/// interface had; with no control set, the bare discipline is left.
#[derive(Debug, PartialEq, Eq)]
pub struct NetEm {
    pub interface: String,
    pub controls: Controls,
}

impl Clone for NetEm {
    fn clone(&self) -> (n: NetEm)
        ensures
            n.interface@ == self.interface@,
            n.controls@ == self.controls@,
    {
        NetEm { interface: self.interface.clone(), controls: self.controls.clone() }
    }
}

/// The six strings that name the discipline of `interface`, for the action `verb`.
fn qdisc(verb: &str, interface: &String) -> (v: Vec<String>)
    ensures
        views(v@) == qdisc_args(verb@, interface@),
{
    let mut v: Vec<String> = Vec::new();
    v.push(String::from_str("qdisc"));
    v.push(String::from_str(verb));
    v.push(String::from_str("dev"));
    v.push(interface.clone());
    v.push(String::from_str("root"));
    v.push(String::from_str("netem"));
    assert(views(v@) =~= qdisc_args(verb@, interface@));
    v
}

impl Control for NetEm {
    open spec fn args(&self) -> Seq<Seq<char>> {
        qdisc_args("replace"@, self.interface@) + controls_args(self.controls@)
    }

    fn to_args(&self) -> (v: Vec<String>) {
        let mut v = qdisc("replace", &self.interface);
        extend(&mut v, self.controls.to_args());
        v
    }
}

/// What to do to the discipline of an interface.
#[derive(Debug, PartialEq, Eq)]
pub enum Operation {
    /// Put these controls on the interface, in place of what it had.
    Apply { interface: String, controls: Controls },
    /// Take the discipline off the interface.
    Reset { interface: String },
}

impl Control for Operation {
    open spec fn args(&self) -> Seq<Seq<char>> {
        match self {
            Operation::Apply { interface, controls } => qdisc_args("replace"@, interface@)
                + controls_args(controls@),
            Operation::Reset { interface } => qdisc_args("del"@, interface@),
        }
    }

    fn to_args(&self) -> (v: Vec<String>) {
        match self {
            Operation::Apply { interface, controls } => {
                let mut v = qdisc("replace", interface);
                extend(&mut v, controls.to_args());
                v
            },
            Operation::Reset { interface } => qdisc("del", interface),
        }
    }
}

} // verus!
