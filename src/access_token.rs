use vstd::prelude::*;

verus! {

/// An access token of the push platform, with the second (Unix time) at
/// which it stops being valid.
pub struct AccessToken {
    pub access_token: String,
    pub expires: i64,
}

impl AccessToken {
    /// Whether the token must be fetched anew at Unix time `now`.
    pub fn is_expired(&self, now: i64) -> (r: bool)
        ensures
            r == (self.expires <= now),
    {
        self.expires <= now
    }
}

} // verus!
