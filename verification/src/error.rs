//! Typed errors for `tonggeret`.
//!
//! Every backend failure is carried as text, so the set of errors does not
//! depend on which backends are in use.

use vstd::prelude::*;

verus! {

/// All errors producible by `tonggeret`.
#[derive(Debug)]
#[non_exhaustive]
pub enum Error {
    /// Initialisation was asked for more than once in this process.
    AlreadyInitialized,
    /// A fallible API was used before initialisation.
    NotInitialized,
    /// Invalid user configuration.
    InvalidConfig(String),
    /// Storage failure: open, insert, scan, compaction or export.
    Storage(String),
    /// Prometheus registry or encoding failure.
    Prometheus(String),
    /// I/O failure, such as creating a directory.
    Io(String),
    /// The internal pipeline is closed.
    ChannelClosed,
}

impl Error {
    /// The text that describes the error.
    pub open spec fn text(self) -> Seq<char> {
        match self {
            Error::AlreadyInitialized => "tonggeret already initialized"@,
            Error::NotInitialized => "tonggeret not initialized; call tonggeret::init() first"@,
            Error::InvalidConfig(detail) => "invalid config: "@ + detail@,
            Error::Storage(detail) => "storage error: "@ + detail@,
            Error::Prometheus(detail) => "prometheus error: "@ + detail@,
            Error::Io(detail) => "io error: "@ + detail@,
            Error::ChannelClosed => "metrics pipeline closed"@,
        }
    }

    /// Describes the error in one line.
    pub fn message(&self) -> (r: String)
        ensures
            r@ == self.text(),
    {
        match self {
            Error::AlreadyInitialized => "tonggeret already initialized".to_owned(),
            Error::NotInitialized => {
                "tonggeret not initialized; call tonggeret::init() first".to_owned()
            },
            Error::InvalidConfig(detail) => joined("invalid config: ", detail),
            Error::Storage(detail) => joined("storage error: ", detail),
            Error::Prometheus(detail) => joined("prometheus error: ", detail),
            Error::Io(detail) => joined("io error: ", detail),
            Error::ChannelClosed => "metrics pipeline closed".to_owned(),
        }
    }
}

fn joined(a: &str, b: &String) -> (r: String)
    ensures
        r@ == a@ + b@,
{
    let mut out = a.to_owned();
    out.append(b.as_str());
    out
}

/// An error that carries a text is described with the whole of it, after what
/// failed.
pub proof fn law_errors_keep_their_detail(detail: String)
    ensures
        Error::InvalidConfig(detail).text() == "invalid config: "@ + detail@,
        Error::Storage(detail).text() == "storage error: "@ + detail@,
        Error::Prometheus(detail).text() == "prometheus error: "@ + detail@,
        Error::Io(detail).text() == "io error: "@ + detail@,
{
}

} // verus!
