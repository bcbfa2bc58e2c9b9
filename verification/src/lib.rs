//! Codec for Linux network-emulation (netem) queueing discipline parameters.

use vstd::prelude::*;
use vstd::string::StringExecFns;

pub mod config;
pub mod decimal;
pub mod digits;
pub mod laws;
pub mod netem;
pub mod output;
pub mod parse;
pub mod text;

pub use crate::config::{NetemConfig, Variables};
pub use crate::decimal::{Decimal, Millisecond, Percentage};
pub use crate::netem::{Control, Controls, Delay, Distribution, Limit, NetEm, Operation, ParseError};
pub use crate::output::{Completion, Output};

verus! {

/// Why a variable of the environment could not be had.
#[derive(Clone, Copy, Debug, PartialEq, Eq, Structural)]
pub enum EnvError {
    /// The variable is not set.
    NotPresent,
    /// The variable is set to something that is no Unicode text.
    NotUnicode,
}

impl EnvError {
    /// What the error says.
    pub open spec fn text(self) -> Seq<char> {
        match self {
            EnvError::NotPresent => "environment variable not found"@,
            EnvError::NotUnicode => "environment variable was not valid unicode"@,
        }
    }

    /// What the error says.
    pub fn message(self) -> (s: &'static str)
        ensures
            s@ == self.text(),
    {
        match self {
            EnvError::NotPresent => "environment variable not found",
            EnvError::NotUnicode => "environment variable was not valid unicode",
        }
    }
}

/// Why no configuration could be built.
#[derive(Debug, PartialEq, Eq)]
pub enum Error {
    /// A variable holds a value that cannot be read; the string says why.
    LatencyConfigParseError(String),
    /// A variable that is needed could not be had.
    LatencyConfigEnvError(EnvError),
}

/// What an error holds.
pub enum ErrorView {
    LatencyConfigParseError(Seq<char>),
    LatencyConfigEnvError(EnvError),
}

impl ErrorView {
    /// What the error says.
    pub open spec fn text(self) -> Seq<char> {
        match self {
            ErrorView::LatencyConfigParseError(reason) => "latency config parsing error: "@
                + reason,
            ErrorView::LatencyConfigEnvError(e) => "latency config env error: "@ + e.text(),
        }
    }
}

impl View for Error {
    type V = ErrorView;

    open spec fn view(&self) -> ErrorView {
        match self {
            Error::LatencyConfigParseError(reason) => ErrorView::LatencyConfigParseError(reason@),
            Error::LatencyConfigEnvError(e) => ErrorView::LatencyConfigEnvError(*e),
        }
    }
}

impl Error {
    /// What the error says.
    pub fn message(&self) -> (s: String)
        ensures
            s@ == self@.text(),
    {
        match self {
            Error::LatencyConfigParseError(reason) => {
                let mut s = String::from_str("latency config parsing error: ");
                s.append(reason.as_str());
                s
            },
            Error::LatencyConfigEnvError(e) => {
                let mut s = String::from_str("latency config env error: ");
                s.append(e.message());
                s
            },
        }
    }
}

impl From<EnvError> for Error {
    fn from(value: EnvError) -> (e: Error)
        ensures
            e == Error::LatencyConfigEnvError(value),
    {
        Error::LatencyConfigEnvError(value)
    }
}

impl vstd::std_specs::convert::FromSpecImpl<EnvError> for Error {
    open spec fn obeys_from_spec() -> bool {
        true
    }

    open spec fn from_spec(value: EnvError) -> Error {
        Error::LatencyConfigEnvError(value)
    }
}

} // verus!
