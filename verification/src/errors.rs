//! The errors that the resolver and the configuration report.
use crate::text::{join2, join3, owned};
use vstd::prelude::*;

verus! {

/// Why a share link could not be resolved: a stable code, a message for
/// people, and the HTTP status that stands for it.
#[derive(Debug, Clone, PartialEq, Eq)]
pub struct ResolveError {
    pub code: String,
    pub error: String,
    pub status: u16,
}

/// What a [`ResolveError`] holds.
pub struct ErrorModel {
    pub code: Seq<char>,
    pub error: Seq<char>,
    pub status: u16,
}

impl View for ResolveError {
    type V = ErrorModel;

    open spec fn view(&self) -> ErrorModel {
        ErrorModel { code: self.code@, error: self.error@, status: self.status }
    }
}

pub open spec fn bad_request(code: Seq<char>, error: Seq<char>) -> ErrorModel {
    ErrorModel { code, error, status: 400 }
}

pub open spec fn upstream(code: Seq<char>, error: Seq<char>) -> ErrorModel {
    ErrorModel { code, error, status: 502 }
}

/// `result` succeeds or fails as `model` does, with the same content.
pub open spec fn agrees<T: View>(
    result: Result<T, ResolveError>,
    model: Result<T::V, ErrorModel>,
) -> bool {
    match result {
        Ok(value) => model == Ok::<T::V, ErrorModel>(value@),
        Err(error) => model == Err::<T::V, ErrorModel>(error@),
    }
}

impl ResolveError {
    pub fn new(code: &str, error: &str, status: u16) -> (made: ResolveError)
        ensures
            made@ == (ErrorModel { code: code@, error: error@, status }),
    {
        ResolveError { code: owned(code), error: owned(error), status }
    }

    /// The caller's input is at fault.
    pub fn bad_request(code: &str, error: &str) -> (made: ResolveError)
        ensures
            made@ == bad_request(code@, error@),
    {
        ResolveError::new(code, error, 400)
    }

    /// The platform answered with something unusable.
    pub fn upstream(code: &str, error: &str) -> (made: ResolveError)
        ensures
            made@ == upstream(code@, error@),
    {
        ResolveError::new(code, error, 502)
    }

    /// The message for people.
    pub fn message(&self) -> (text: String)
        ensures
            text@ == self@.error,
    {
        self.error.clone()
    }
}

/// A configuration variable with an unusable value.
#[derive(Debug)]
pub struct ConfigError {
    pub variable: String,
    pub message: String,
}

/// What a [`ConfigError`] holds.
pub struct ConfigErrorModel {
    pub variable: Seq<char>,
    pub message: Seq<char>,
}

impl View for ConfigError {
    type V = ConfigErrorModel;

    open spec fn view(&self) -> ConfigErrorModel {
        ConfigErrorModel { variable: self.variable@, message: self.message@ }
    }
}

impl ConfigError {
    /// An error that another part reported, by its text.
    pub fn new(variable: &str, error: &str) -> (made: ConfigError)
        ensures
            made@ == (ConfigErrorModel { variable: variable@, message: error@ }),
    {
        ConfigError::message(variable, error)
    }

    pub fn message(variable: &str, message: &str) -> (made: ConfigError)
        ensures
            made@ == (ConfigErrorModel { variable: variable@, message: message@ }),
    {
        ConfigError { variable: owned(variable), message: owned(message) }
    }

    /// The error as one line.
    pub fn to_text(&self) -> (text: String)
        ensures
            text@ == "invalid "@ + self@.variable + ": "@ + self@.message,
    {
        let head = join3("invalid ", self.variable.as_str(), ": ");
        join2(head.as_str(), self.message.as_str())
    }
}

} // verus!
