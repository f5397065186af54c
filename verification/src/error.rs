//! The crate's error type.
use crate::path::SandboxPath;
use vstd::prelude::*;

verus! {

/// What made a confinement stage fail.
#[derive(Debug, PartialEq, Eq)]
pub enum ErrorSource {
    /// The message of the underlying error.
    Message(String),
    /// A policy path that the platform's policy language cannot express.
    InvalidPath {
        /// What is wrong with the path.
        message: &'static str,
        /// The offending path.
        path: SandboxPath,
    },
}

/// Errors returned when configuring or spawning a sandbox.
#[derive(Debug, PartialEq, Eq)]
#[non_exhaustive]
pub enum Error {
    /// The child process could not be spawned (e.g. binary not found).
    Spawn(String),
    /// A platform confinement stage failed. `stage` is a short machine label
    /// such as `"landlock"`, `"seccomp"`, or `"rlimit"`.
    Confinement {
        /// The stage that failed.
        stage: &'static str,
        /// Why it failed.
        source: ErrorSource,
    },
    /// A requested feature is not available on this platform or kernel.
    Unsupported(String),
}

impl Error {
    /// Convenience constructor for [`Error::Confinement`].
    pub fn confinement(stage: &'static str, source: ErrorSource) -> (error: Error)
        ensures
            error == (Error::Confinement { stage, source }),
    {
        Error::Confinement { stage, source }
    }
}

/// Whether `error` is a confinement failure of `stage` with the message `text`.
pub open spec fn is_confinement(error: Error, stage: Seq<char>, text: Seq<char>) -> bool {
    error matches Error::Confinement { stage: s, source: ErrorSource::Message(m) } && s@ == stage
        && m@ == text
}

/// Whether `error` reports the missing feature described by `text`.
pub open spec fn is_unsupported(error: Error, text: Seq<char>) -> bool {
    error matches Error::Unsupported(m) && m@ == text
}

} // verus!
