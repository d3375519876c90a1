use vstd::prelude::*;

verus! {

/// Why a directory or content operation failed.
#[derive(PartialEq, Eq, Structural, Debug, Clone, Copy)]
pub enum DirError {
    /// The user, channel or content looked up is absent.
    NotFound,
    /// The user is already registered, or already subscribed.
    AlreadyExists,
}

} // verus!
