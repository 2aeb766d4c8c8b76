//! Sessions of group members.
//!
//! The secrets are exported from the group by the caller, under the labels of `labels`.

use crate::hash::{sha256, sha256_of};
use crate::session::{Session, SessionRole};
use crate::types::{SchedulerMode, SessionId};
use crate::wire::{append, to_array};
use vstd::prelude::*;

pub mod labels;

verus! {

/// Bytes to export under each label.
pub const SECRET_LEN: usize = 32;

/// Why a group gives no session.
#[derive(Debug, Clone)]
pub enum MlsBridgeError {
    ExportFailed(String),
    InvalidKeyLength,
    GroupNotReady,
}

impl MlsBridgeError {
    /// The text of the error.
    pub open spec fn spec_text(self) -> Seq<char> {
        match self {
            MlsBridgeError::ExportFailed(m) => "Failed to export MLS secret: "@ + m@,
            MlsBridgeError::InvalidKeyLength => "Invalid key length"@,
            MlsBridgeError::GroupNotReady => "Group not ready"@,
        }
    }

    /// The text of the error.
    pub fn to_text(&self) -> (s: String)
        ensures
            s@ == self.spec_text(),
    {
        match self {
            MlsBridgeError::ExportFailed(m) => {
                let mut s: String = "Failed to export MLS secret: ".to_owned();
                s.append(m.as_str());
                s
            },
            MlsBridgeError::InvalidKeyLength => "Invalid key length".to_owned(),
            MlsBridgeError::GroupNotReady => "Group not ready".to_owned(),
        }
    }
}

/// The label `phantom-session-id`.
pub open spec fn group_label() -> Seq<u8> {
    seq![
        0x70u8, 0x68, 0x61, 0x6e, 0x74, 0x6f, 0x6d, 0x2d, 0x73, 0x65, 0x73, 0x73, 0x69, 0x6f, 0x6e,
        0x2d, 0x69, 0x64,
    ]
}

/// The session identifier of a group.
pub open spec fn group_session_id(group_id: Seq<u8>) -> Seq<u8> {
    sha256_of(group_label() + group_id)
}

/// Derive the session identifier of a group.
pub fn derive_session_id_from_group(group_id: &[u8]) -> (id: SessionId)
    ensures
        id.0@ == group_session_id(group_id@),
{
    let mut data: Vec<u8> = vec![
        0x70u8, 0x68, 0x61, 0x6e, 0x74, 0x6f, 0x6d, 0x2d, 0x73, 0x65, 0x73, 0x73, 0x69, 0x6f, 0x6e,
        0x2d, 0x69, 0x64,
    ];
    assert(data@ =~= group_label());
    append(&mut data, group_id);
    SessionId::from_bytes(sha256(data.as_slice()))
}

/// Builds the sessions of group members.
#[derive(Debug, Clone, Copy)]
pub struct MlsSessionBuilder {
    mode: SchedulerMode,
}

impl MlsSessionBuilder {
    /// How the sessions pick among their paths.
    pub closed spec fn spec_mode(self) -> SchedulerMode {
        self.mode
    }

    /// A builder of low-latency sessions.
    pub fn new() -> (b: Self)
        ensures
            b.spec_mode() == SchedulerMode::LowLatency,
    {
        MlsSessionBuilder { mode: SchedulerMode::LowLatency }
    }

    /// The same builder for sessions of this mode.
    pub fn scheduler_mode(self, mode: SchedulerMode) -> (b: Self)
        ensures
            b.spec_mode() == mode,
    {
        MlsSessionBuilder { mode }
    }

    /// Build the session of a group from its exported secrets, or from why an export failed.
    pub fn build_from_group(
        &self,
        group_id: &[u8],
        session_key: Result<Vec<u8>, String>,
        resumption_secret: Result<Vec<u8>, String>,
    ) -> (r: Result<Session, MlsBridgeError>)
        ensures
            if session_key is Err {
                r matches Err(MlsBridgeError::ExportFailed(m)) && m@ == session_key->Err_0@
            } else if resumption_secret is Err {
                r matches Err(MlsBridgeError::ExportFailed(m)) && m@ == resumption_secret->Err_0@
            } else if session_key->Ok_0@.len() != SECRET_LEN || resumption_secret->Ok_0@.len()
                != SECRET_LEN {
                r == Err::<Session, MlsBridgeError>(MlsBridgeError::InvalidKeyLength)
            } else {
                &&& r matches Ok(s) && s.id.0@ == group_session_id(group_id@) && s.traffic_secret@
                    == session_key->Ok_0@ && s.role == SessionRole::Member && s.scheduler_mode
                    == self.spec_mode() && (s.resumption_secret matches Some(secret) && secret@
                    == resumption_secret->Ok_0@)
            },
    {
        let key: Vec<u8> = match session_key {
            Ok(k) => k,
            Err(why) => {
                return Err(MlsBridgeError::ExportFailed(why));
            },
        };
        let resumption: Vec<u8> = match resumption_secret {
            Ok(k) => k,
            Err(why) => {
                return Err(MlsBridgeError::ExportFailed(why));
            },
        };
        let session_id: SessionId = derive_session_id_from_group(group_id);
        if key.len() != SECRET_LEN || resumption.len() != SECRET_LEN {
            return Err(MlsBridgeError::InvalidKeyLength);
        }
        Ok(
            Session::from_mls_derived(
                session_id,
                to_array::<32>(key.as_slice()),
                Some(to_array::<32>(resumption.as_slice())),
                self.mode,
            ),
        )
    }
}

/// The session of a group is named by the digest of the group's id under the label `phantom-session-id`,
/// so that every member derives the same.
pub proof fn law_group_names_its_session(group_id: Seq<u8>)
    ensures
        group_session_id(group_id) == sha256_of(
            "phantom-session-id"@.map_values(|c: char| c as u8) + group_id,
        ),
{
    reveal_strlit("phantom-session-id");
    assert(group_label() =~= "phantom-session-id"@.map_values(|c: char| c as u8));
}

} // verus!
