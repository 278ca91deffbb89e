//! The error kinds of the library.

use vstd::prelude::*;
use vstd::string::*;

verus! {

/// What can go wrong while profiles are found, chosen, installed and launched.
#[derive(Debug, Clone, PartialEq, Eq)]
pub enum Error {
    /// A failure described only by its message.
    GenericError(String),
    /// No discovered profile matches the token.
    ProfileNotFound(String),
    /// Several discovered profiles match the token; their paths follow it.
    AmbiguousProfile(String, Vec<String>),
    /// A profile could not be copied into the active slot.
    InstallError(String),
    /// The game process could not be started.
    LaunchError(String),
    /// The game process started and ended with a non-zero exit code.
    ProcessFailed(i32),
    /// The contents of the active slot could not be put back.
    RestoreError(String),
}

impl Error {
    /// The text the error carries: its message, token or reason; empty for
    /// `ProcessFailed`, which carries a number.
    pub open spec fn detail(self) -> Seq<char> {
        match self {
            Error::GenericError(m) => m@,
            Error::ProfileNotFound(t) => t@,
            Error::AmbiguousProfile(t, _) => t@,
            Error::InstallError(r) => r@,
            Error::LaunchError(r) => r@,
            Error::ProcessFailed(_) => Seq::empty(),
            Error::RestoreError(r) => r@,
        }
    }

    /// The fixed words that introduce each kind of error in its message.
    pub open spec fn label(self) -> Seq<char> {
        match self {
            Error::GenericError(_) => ""@,
            Error::ProfileNotFound(_) => "profile not found: "@,
            Error::AmbiguousProfile(_, _) => "ambiguous profile: "@,
            Error::InstallError(_) => "install failed: "@,
            Error::LaunchError(_) => "launch failed: "@,
            Error::ProcessFailed(_) => "process exited with a failure"@,
            Error::RestoreError(_) => "restore failed: "@,
        }
    }

    /// The message shown for the error: its label followed by its detail.
    pub open spec fn message_text(self) -> Seq<char> {
        self.label() + self.detail()
    }

    /// True for the two kinds that end a run before anything is installed.
    pub open spec fn is_fatal_spec(self) -> bool {
        self is ProfileNotFound || self is AmbiguousProfile
    }

    /// The message of the error. A `GenericError` shows its message as it is.
    pub fn message(&self) -> (out: String)
        ensures
            out@ == self.message_text(),
    {
        match self {
            Error::GenericError(m) => {
                let out = String::from_str("").concat(m.as_str());
                assert(out@ =~= self.message_text());
                out
            },
            Error::ProfileNotFound(t) => String::from_str("profile not found: ").concat(t.as_str()),
            Error::AmbiguousProfile(t, _) => String::from_str("ambiguous profile: ").concat(
                t.as_str(),
            ),
            Error::InstallError(r) => String::from_str("install failed: ").concat(r.as_str()),
            Error::LaunchError(r) => String::from_str("launch failed: ").concat(r.as_str()),
            Error::ProcessFailed(_) => {
                let out = String::from_str("process exited with a failure");
                assert(out@ =~= self.message_text());
                out
            },
            Error::RestoreError(r) => String::from_str("restore failed: ").concat(r.as_str()),
        }
    }

    /// Whether the error ends the run before any profile is installed: an
    /// unknown or ambiguous token does, a failure during the run does not.
    pub fn is_fatal(&self) -> (fatal: bool)
        ensures
            fatal == self.is_fatal_spec(),
    {
        match self {
            Error::ProfileNotFound(_) => true,
            Error::AmbiguousProfile(_, _) => true,
            _ => false,
        }
    }
}

} // verus!
