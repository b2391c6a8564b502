//! The library's view of a user row: identity, display username, and
//! the normalized form used for collision checks.

use vstd::prelude::*;

use crate::username::{normalize_spec, normalize_username};

verus! {

/// One user, as the ceremony engine and the session service see it. The
/// surrounding application owns the persistent row; this type carries
/// exactly what the verified logic reads.
#[derive(Debug, Clone)]
pub struct UserRecord {
    /// The opaque unique identifier, as its 128-bit value.
    pub id: u128,
    /// The username as registered.
    pub username: String,
    /// The collision-guard form of the username.
    pub username_normalized: String,
}

impl UserRecord {
    /// The normalized field really is the normal form of the username.
    pub open spec fn wf(self) -> bool {
        self.username_normalized@ == normalize_spec(self.username@)
    }

    /// A user record for a fresh identity, with the normal form derived
    /// from the username.
    pub fn new(id: u128, username: String) -> (r: UserRecord)
        ensures
            r.id == id,
            r.username@ == username@,
            r.wf(),
    {
        let username_normalized = normalize_username(username.as_str());
        UserRecord { id, username, username_normalized }
    }
}

} // verus!
