//! The error taxonomy of the conversion pipeline.
//!
//! Every failure of a conversion is one of these variants; the payload is the
//! human-readable cause that is surfaced verbatim to the caller.

use vstd::prelude::*;

verus! {

/// A typed failure of the pipeline.
#[derive(Debug, PartialEq, Eq)]
pub enum ConvertError {
    /// Probing a source file failed: unreadable file, no audio stream, or an
    /// unparsable duration value.
    Probe(String),
    /// No candidate location of the external tool could be spawned; carries
    /// the cause reported for the last candidate tried.
    ToolNotFound(String),
    /// The external tool exited with a failure status; carries its captured
    /// diagnostic output.
    ToolExecution(String),
    /// Reading or writing a transient artifact failed.
    Io(String),
    /// The request itself is unusable: an empty input list or a malformed
    /// cover-art payload.
    Validation(String),
}

impl ConvertError {
    /// The human-readable cause carried by the error.
    pub open spec fn spec_message(&self) -> Seq<char> {
        match self {
            ConvertError::Probe(s) => s@,
            ConvertError::ToolNotFound(s) => s@,
            ConvertError::ToolExecution(s) => s@,
            ConvertError::Io(s) => s@,
            ConvertError::Validation(s) => s@,
        }
    }

    /// Returns the carried cause string.
    pub fn message(&self) -> (r: String)
        ensures
            r@ == self.spec_message(),
    {
        match self {
            ConvertError::Probe(s) => s.clone(),
            ConvertError::ToolNotFound(s) => s.clone(),
            ConvertError::ToolExecution(s) => s.clone(),
            ConvertError::Io(s) => s.clone(),
            ConvertError::Validation(s) => s.clone(),
        }
    }
}

} // verus!
