//! Records persisted by the credential-issuance service: users and their
//! first-issuance tokens.
use vstd::prelude::*;

verus! {

/// A stored user: id, unique username, and the hash of the password (never
/// the password itself).
#[derive(Clone, Debug, PartialEq)]
pub struct User {
    pub id: String,
    pub username: String,
    pub hashed_password: String,
}

/// A stored access token: the token value, its owning user, and the moment
/// it stops being valid. First-issuance tokens are short-lived.
#[derive(Clone, Debug, PartialEq)]
pub struct Token {
    pub token: String,
    pub user_id: String,
    pub expire_until: u64,
}

impl Token {
    /// Whether the token is still valid at the given moment.
    pub fn is_valid_at(&self, now: u64) -> (r: bool)
        ensures
            r == (now < self.expire_until),
    {
        now < self.expire_until
    }
}

} // verus!
