//! Errors of loading and validating the configuration.
use vstd::prelude::*;

use crate::backend::{backend_error_text, BackendError};
use crate::text::{concat2, concat3};

verus! {

/// Errors produced while loading or accessing the CLI config.
#[derive(Debug, PartialEq, Eq)]
pub enum ConfigError {
    /// The configured JSON file could not be found or read.
    FileNotFound(String),
    /// The JSON config could not be parsed; holds the parser's message.
    ParseError(String),
    /// The parsed config failed semantic validation.
    Validation(String),
    /// A backend operation failed while normalizing config.
    Backend(BackendError),
}

/// The message of a [`ConfigError`].
pub open spec fn config_error_text(e: ConfigError) -> Seq<char> {
    match e {
        ConfigError::FileNotFound(p) => "Config file "@ + p@ + " does not exist"@,
        ConfigError::ParseError(m) => "Failed to parse config: "@ + m@,
        ConfigError::Validation(m) => m@,
        ConfigError::Backend(b) => backend_error_text(b),
    }
}

impl ConfigError {
    /// The error message.
    pub fn message(&self) -> (s: String)
        ensures
            s@ == config_error_text(*self),
    {
        match self {
            ConfigError::FileNotFound(p) => concat3("Config file ", p.as_str(), " does not exist"),
            ConfigError::ParseError(m) => concat2("Failed to parse config: ", m.as_str()),
            ConfigError::Validation(m) => m.clone(),
            ConfigError::Backend(b) => b.message(),
        }
    }
}

/// Whether `r` reports `problem`: `Ok` when there is none, and otherwise a
/// validation error with exactly that message.
pub open spec fn reports(r: Result<(), ConfigError>, problem: Option<Seq<char>>) -> bool {
    match problem {
        None => r is Ok,
        Some(m) => r matches Err(ConfigError::Validation(x)) && x@ == m,
    }
}

} // verus!
