//! Labels of the secrets that are exported from a group.

use vstd::prelude::*;

verus! {

/// The secret that the traffic keys come from.
pub const SESSION_KEY: &'static str = "phantom-transport-session";

/// The secret that a later connection resumes with.
pub const RESUMPTION_SECRET: &'static str = "phantom-transport-resumption";

/// The handshake secret.
pub const HANDSHAKE_KEY: &'static str = "phantom-transport-handshake";

} // verus!
