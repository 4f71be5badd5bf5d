//! How commands end.

use vstd::prelude::*;

verus! {

/// How a command ended.
#[derive(Debug, Clone, Copy, PartialEq, Eq, Structural)]
pub enum CommandResultCode {
    /// The command did what it was sent for.
    Success,
    /// The uid of a user to be added is taken.
    UserMgmtUserAlreadyExists,
}

} // verus!
