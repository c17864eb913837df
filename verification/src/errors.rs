//! Typed errors surfaced by every layer of the engine, each carrying enough
//! context (path, URL, expected and actual values) to diagnose a failure.

use vstd::prelude::*;

verus! {

use vstd::string::StringExecFns;

/// The error kinds of the engine.
///
/// Each operation's contract states exactly which variant it returns and on
/// which inputs, so a caller can tell a transport fault from a corrupted
/// archive or a violated precondition.
#[derive(Debug)]
pub enum Error {
    /// Transport failure or timeout while talking to the remote source.
    NetworkError { detail: String },
    /// The remote answered with a non-success status.
    ProtocolError { detail: String },
    /// A payload could not be decoded into the expected structure.
    DecodeError { detail: String },
    /// A size or digest check failed on downloaded or cached content.
    IntegrityError { detail: String },
    /// An unrecognized format tag or a missing source selection.
    ConfigurationError { detail: String },
    /// An I/O failure during extraction, copying, or persistence.
    FilesystemError { detail: String },
    /// The target game was running while an install, uninstall, or update
    /// was requested.
    GameRunningError,
    /// An unknown localization id was referenced.
    NotFoundError { detail: String },
}

impl Error {
    /// A human-readable description of the failure.
    pub fn message(&self) -> (r: String)
        ensures
            r@ == self.message_view(),
    {
        let mut r = String::new();
        match self {
            Error::NetworkError { detail } => {
                r.append("network error: ");
                r.append(detail.as_str());
            },
            Error::ProtocolError { detail } => {
                r.append("protocol error: ");
                r.append(detail.as_str());
            },
            Error::DecodeError { detail } => {
                r.append("decode error: ");
                r.append(detail.as_str());
            },
            Error::IntegrityError { detail } => {
                r.append("integrity error: ");
                r.append(detail.as_str());
            },
            Error::ConfigurationError { detail } => {
                r.append("configuration error: ");
                r.append(detail.as_str());
            },
            Error::FilesystemError { detail } => {
                r.append("filesystem error: ");
                r.append(detail.as_str());
            },
            Error::GameRunningError => {
                r.append("the game is currently running");
            },
            Error::NotFoundError { detail } => {
                r.append("not found: ");
                r.append(detail.as_str());
            },
        }
        r
    }

    /// What `message` returns, as a sequence of characters.
    pub open spec fn message_view(&self) -> Seq<char> {
        match self {
            Error::NetworkError { detail } => "network error: "@ + detail@,
            Error::ProtocolError { detail } => "protocol error: "@ + detail@,
            Error::DecodeError { detail } => "decode error: "@ + detail@,
            Error::IntegrityError { detail } => "integrity error: "@ + detail@,
            Error::ConfigurationError { detail } => "configuration error: "@ + detail@,
            Error::FilesystemError { detail } => "filesystem error: "@ + detail@,
            Error::GameRunningError => "the game is currently running"@,
            Error::NotFoundError { detail } => "not found: "@ + detail@,
        }
    }
}

} // verus!
