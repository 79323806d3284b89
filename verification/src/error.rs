//! Error types of the library.
use vstd::prelude::*;

verus! {

/// Why text could not be typed.
#[derive(Debug)]
pub enum OutputError {
    /// The `dotool` binary could not be found.
    DotoolNotFound,
    /// Typing failed, with a description.
    InjectionFailed(String),
}

/// Why speech recognition could not start or finish.
#[derive(Debug)]
pub enum TranscribeError {
    /// The recognizer could not be set up (bad configuration).
    InitFailed(String),
    /// Recognition failed while running.
    InferenceFailed(String),
}

impl TranscribeError {
    /// The description carried by the error.
    pub open spec fn spec_message(&self) -> Seq<char> {
        match self {
            TranscribeError::InitFailed(m) => m@,
            TranscribeError::InferenceFailed(m) => m@,
        }
    }

    /// The error is a recognition failure reported as `Doubao: ` and `msg`.
    pub open spec fn is_failure(&self, msg: Seq<char>) -> bool {
        match self {
            TranscribeError::InferenceFailed(m) => m@ == "Doubao: "@ + msg,
            TranscribeError::InitFailed(_) => false,
        }
    }

    /// The error is a set-up failure described by `msg`.
    pub open spec fn is_init_failure(&self, msg: Seq<char>) -> bool {
        match self {
            TranscribeError::InitFailed(m) => m@ == msg,
            TranscribeError::InferenceFailed(_) => false,
        }
    }

    /// The description carried by the error.
    pub fn message(&self) -> (m: String)
        ensures
            m@ == self.spec_message(),
    {
        match self {
            TranscribeError::InitFailed(m) => m.clone(),
            TranscribeError::InferenceFailed(m) => m.clone(),
        }
    }
}

impl OutputError {
    /// The error is an injection failure described by `msg`.
    pub open spec fn is_injection(&self, msg: Seq<char>) -> bool {
        match self {
            OutputError::InjectionFailed(m) => m@ == msg,
            OutputError::DotoolNotFound => false,
        }
    }

    /// The description carried by the error, if any.
    pub fn detail(&self) -> (m: Option<String>)
        ensures
            match self {
                OutputError::DotoolNotFound => m is None,
                OutputError::InjectionFailed(d) => m == Some(*d),
            },
    {
        match self {
            OutputError::DotoolNotFound => None,
            OutputError::InjectionFailed(d) => Some(d.clone()),
        }
    }
}

} // verus!
