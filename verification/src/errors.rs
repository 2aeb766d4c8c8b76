//! The error type shared by the transport legs.

use vstd::prelude::*;

verus! {

/// A failure of a transport leg.
#[derive(Debug)]
pub enum CoreError {
    /// A peer or the network broke the framing rules; the text says how.
    NetworkError(String),
    /// The peer closed the connection.
    ConnectionClosed,
    /// An operation ran past its deadline.
    Timeout,
    /// The operating system could not supply random bytes.
    RngError,
    /// A handshake failed; the text says how.
    InternalError(String),
}

impl CoreError {
    /// Whether this is a network error with exactly the text `text`.
    pub open spec fn says(self, text: Seq<char>) -> bool {
        self matches CoreError::NetworkError(m) && m@ == text
    }
}

/// A network error with the text `text`.
pub fn network_error(text: &str) -> (e: CoreError)
    ensures
        e.says(text@),
{
    CoreError::NetworkError(text.to_owned())
}

} // verus!
