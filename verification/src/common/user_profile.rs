//! The users.

use vstd::prelude::*;

verus! {

/// A user of the exchange.
#[derive(Debug, Clone, Copy, PartialEq, Eq, Structural)]
pub struct UserProfile {
    /// The id of the user.
    pub uid: i64,
}

} // verus!
