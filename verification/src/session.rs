//! Established sessions.

use crate::types::{SchedulerMode, SessionId};
use vstd::prelude::*;

verus! {

/// Which end of the handshake a session is; it decides the direction of the traffic keys.
#[derive(Debug, Clone, Copy, PartialEq, Eq, Structural)]
pub enum SessionRole {
    Client,
    Server,
    /// Both ends hold the same keys.
    Member,
}

/// An established session.
#[derive(Debug, Clone, Copy)]
pub struct Session {
    pub id: SessionId,
    pub scheduler_mode: SchedulerMode,
    /// The secret that the traffic keys come from.
    pub traffic_secret: [u8; 32],
    pub role: SessionRole,
    /// The secret that a later connection resumes with.
    pub resumption_secret: Option<[u8; 32]>,
}

impl Session {
    /// A session that a handshake agreed on.
    pub fn from_derived(
        id: SessionId,
        scheduler_mode: SchedulerMode,
        traffic_secret: [u8; 32],
        is_server: bool,
    ) -> (s: Self)
        ensures
            s == (Session {
                id,
                scheduler_mode,
                traffic_secret,
                role: if is_server {
                    SessionRole::Server
                } else {
                    SessionRole::Client
                },
                resumption_secret: None,
            }),
    {
        Session {
            id,
            scheduler_mode,
            traffic_secret,
            role: if is_server {
                SessionRole::Server
            } else {
                SessionRole::Client
            },
            resumption_secret: None,
        }
    }

    /// A session whose ends hold the same keys.
    pub fn from_mls_derived(
        id: SessionId,
        traffic_secret: [u8; 32],
        resumption_secret: Option<[u8; 32]>,
        scheduler_mode: SchedulerMode,
    ) -> (s: Self)
        ensures
            s == (Session {
                id,
                scheduler_mode,
                traffic_secret,
                role: SessionRole::Member,
                resumption_secret,
            }),
    {
        Session { id, scheduler_mode, traffic_secret, role: SessionRole::Member, resumption_secret }
    }

    /// Set the secret that a later connection resumes with.
    pub fn set_resumption_secret(&mut self, secret: [u8; 32])
        ensures
            *final(self) == (Session { resumption_secret: Some(secret), ..*old(self) }),
    {
        self.resumption_secret = Some(secret);
    }

    /// What a later connection needs to resume: the session's identifier and secret.
    pub fn resumption_hint(&self) -> (h: Option<([u8; 32], [u8; 32])>)
        ensures
            h == (match self.resumption_secret {
                Some(secret) => Some((self.id.0, secret)),
                None => None,
            }),
    {
        match self.resumption_secret {
            Some(secret) => Some((self.id.0, secret)),
            None => None,
        }
    }

    /// Whether a later connection can resume this session.
    pub fn can_resume(&self) -> (b: bool)
        ensures
            b == (self.resumption_secret is Some),
    {
        self.resumption_secret.is_some()
    }
}

} // verus!
