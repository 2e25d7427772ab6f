//! The single error type of the library.

use vstd::prelude::*;
use vstd::string::*;
use crate::text::owned;

verus! {

/// What can go wrong in a request: transport failures, a deadline, a
/// violation of the protocol's contracts, or a misuse of the client.
#[derive(Debug, Clone, PartialEq, Eq)]
pub enum MelsecError {
    /// Connect, resolve, read or write failed; the text is the cause.
    Io(String),
    /// The operation's deadline elapsed.
    Timeout,
    /// A contract of the protocol was violated; the text says which.
    Protocol(String),
    /// A single-set registry was set a second time.
    AlreadyRegistered,
    /// The client was used without an endpoint.
    NoTarget,
}

impl MelsecError {
    /// The text that a display of this error shows.
    pub open spec fn spec_message(self) -> Seq<char> {
        match self {
            MelsecError::Io(m) => "IO error: "@ + m@,
            MelsecError::Timeout => "timeout"@,
            MelsecError::Protocol(m) => "protocol error: "@ + m@,
            MelsecError::AlreadyRegistered => "already registered"@,
            MelsecError::NoTarget => "no connection target set on client"@,
        }
    }

    /// Renders the error as one line of text.
    pub fn message(&self) -> (r: String)
        ensures
            r@ == self.spec_message(),
    {
        match self {
            MelsecError::Io(m) => owned("IO error: ").concat(m.as_str()),
            MelsecError::Timeout => owned("timeout"),
            MelsecError::Protocol(m) => owned("protocol error: ").concat(m.as_str()),
            MelsecError::AlreadyRegistered => owned("already registered"),
            MelsecError::NoTarget => owned("no connection target set on client"),
        }
    }

    /// A protocol error with the given text.
    pub fn protocol(msg: &str) -> (r: MelsecError)
        ensures
            r matches MelsecError::Protocol(m) && m@ == msg@,
    {
        MelsecError::Protocol(owned(msg))
    }
}

} // verus!
