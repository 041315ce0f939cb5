//! The errors the tool reports, and the exit code each kind leads to.

use vstd::prelude::*;

verus! {

/// A problem with the configuration file or its values.
#[derive(Debug, Clone, PartialEq, Eq)]
pub struct ConfigError {
    message: String,
}

impl ConfigError {
    /// An error with this message.
    pub fn new(message: String) -> (error: ConfigError)
        ensures
            error.message() == message@,
    {
        ConfigError { message }
    }

    /// The text of the error.
    pub closed spec fn message(&self) -> Seq<char> {
        self.message@
    }

    /// The text of the error.
    pub fn text(&self) -> (text: &str)
        ensures
            text@ == self.message(),
    {
        self.message.as_str()
    }
}

/// A command used in a way it does not support.
#[derive(Debug, Clone, PartialEq, Eq)]
pub struct UsageError {
    message: String,
}

impl UsageError {
    /// An error with this message.
    pub fn new(message: String) -> (error: UsageError)
        ensures
            error.message() == message@,
    {
        UsageError { message }
    }

    /// The text of the error.
    pub closed spec fn message(&self) -> Seq<char> {
        self.message@
    }

    /// The text of the error.
    pub fn text(&self) -> (text: &str)
        ensures
            text@ == self.message(),
    {
        self.message.as_str()
    }
}

/// What an error that ends a run is.
#[derive(Debug, Clone, Copy, PartialEq, Eq, Structural)]
pub enum ErrorKind {
    Config,
    Usage,
    Other,
}

/// The process exit code for an error: 2 for configuration and usage errors, 3 for any other.
pub fn exit_code(kind: ErrorKind) -> (code: i32)
    ensures
        code == (if kind == ErrorKind::Other { 3i32 } else { 2i32 }),
{
    match kind {
        ErrorKind::Config | ErrorKind::Usage => 2,
        ErrorKind::Other => 3,
    }
}

/// The exit code of a run that reported `findings` findings: with the CI gate on, 1 when
/// any was reported; else 0.
pub fn gate_exit_code(ci: bool, findings: usize) -> (code: u8)
    ensures
        code == (if ci && findings > 0 { 1u8 } else { 0u8 }),
{
    if ci && findings > 0 {
        1
    } else {
        0
    }
}

} // verus!
