//! Handshake errors.

use crate::errors::CoreError;
use crate::text::{decimal, push_decimal};
use vstd::prelude::*;

verus! {

/// Why a handshake failed.
#[derive(Debug, Clone)]
pub enum HandshakeError {
    UnsupportedVersion,
    KemFailed(String),
    ServerIdentityMismatch,
    RngError(String),
    SerializationError(String),
    ClockBackwards,
    InternalError(String),
    /// The peers were built for different protocol variants.
    ProtocolVariantMismatch { expected: Vec<u8>, received: Vec<u8> },
}

/// Numbers in brackets, separated by commas.
pub open spec fn list_text(v: Seq<u8>) -> Seq<char> {
    seq!['['] + items_text(v) + seq![']']
}

/// Numbers separated by commas.
pub open spec fn items_text(v: Seq<u8>) -> Seq<char>
    decreases v.len(),
{
    if v.len() == 0 {
        Seq::empty()
    } else if v.len() == 1 {
        decimal(v[0] as nat)
    } else {
        items_text(v.drop_last()) + seq![',', ' '] + decimal(v.last() as nat)
    }
}

fn push_list(s: &mut String, v: &Vec<u8>)
    ensures
        final(s)@ == old(s)@ + list_text(v@),
{
    s.append("[");
    proof {
        reveal_strlit("[");
        reveal_strlit("]");
        reveal_strlit(", ");
        assert("["@ =~= seq!['[']);
        assert("]"@ =~= seq![']']);
        assert(", "@ =~= seq![',', ' ']);
        assert(v@.take(0) =~= Seq::empty());
    }
    let ghost before = s@;
    let mut i: usize = 0;
    while i < v.len()
        invariant
            i <= v@.len(),
            s@ == before + items_text(v@.take(i as int)),
            ", "@ == seq![',', ' '],
        decreases v@.len() - i,
    {
        let ghost now = s@;
        if i > 0 {
            s.append(", ");
        }
        push_decimal(s, v[i] as u64);
        proof {
            let next = v@.take(i + 1);
            assert(next.drop_last() =~= v@.take(i as int));
            assert(next.last() == v@[i as int]);
            if i > 0 {
                assert(s@ =~= before + items_text(next));
            } else {
                assert(v@.take(0) =~= Seq::empty());
                assert(next[0] == v@[0]);
                assert(s@ =~= before + items_text(next));
            }
        }
        i += 1;
    }
    assert(v@.take(i as int) =~= v@);
    s.append("]");
    assert(s@ =~= old(s)@ + list_text(v@));
}

impl HandshakeError {
    /// The text of the error.
    pub open spec fn spec_text(self) -> Seq<char> {
        match self {
            HandshakeError::UnsupportedVersion => "Unsupported version"@,
            HandshakeError::KemFailed(m) => "KEM failed: "@ + m@,
            HandshakeError::ServerIdentityMismatch => "Server identity mismatch"@,
            HandshakeError::RngError(m) => "RNG error: "@ + m@,
            HandshakeError::SerializationError(m) => "serialization error during handshake: "@ + m@,
            HandshakeError::ClockBackwards => "system clock is before UNIX_EPOCH"@,
            HandshakeError::InternalError(m) => "internal handshake error: "@ + m@,
            HandshakeError::ProtocolVariantMismatch { expected, received } => {
                "protocol variant mismatch (expected "@ + list_text(expected@) + ", received "@
                    + list_text(received@) + ")"@
            },
        }
    }

    /// The text of the error.
    pub fn to_text(&self) -> (s: String)
        ensures
            s@ == self.spec_text(),
    {
        match self {
            HandshakeError::UnsupportedVersion => "Unsupported version".to_owned(),
            HandshakeError::KemFailed(m) => {
                let mut s: String = "KEM failed: ".to_owned();
                s.append(m.as_str());
                s
            },
            HandshakeError::ServerIdentityMismatch => "Server identity mismatch".to_owned(),
            HandshakeError::RngError(m) => {
                let mut s: String = "RNG error: ".to_owned();
                s.append(m.as_str());
                s
            },
            HandshakeError::SerializationError(m) => {
                let mut s: String = "serialization error during handshake: ".to_owned();
                s.append(m.as_str());
                s
            },
            HandshakeError::ClockBackwards => "system clock is before UNIX_EPOCH".to_owned(),
            HandshakeError::InternalError(m) => {
                let mut s: String = "internal handshake error: ".to_owned();
                s.append(m.as_str());
                s
            },
            HandshakeError::ProtocolVariantMismatch { expected, received } => {
                let mut s: String = "protocol variant mismatch (expected ".to_owned();
                push_list(&mut s, expected);
                s.append(", received ");
                push_list(&mut s, received);
                s.append(")");
                s
            },
        }
    }

    /// The error as a transport error.
    pub fn into_core_error(self) -> (e: CoreError)
        ensures
            e matches CoreError::InternalError(m) && m@ == self.spec_text(),
    {
        CoreError::InternalError(self.to_text())
    }
}

} // verus!
