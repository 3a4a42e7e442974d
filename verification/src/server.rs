//! The process-wide registry: created once at startup from a chosen
//! authenticator backend and handed to every connection handler; every
//! session reaches the same shared authenticator through it.
use vstd::prelude::*;

use crate::auth::Authenticator;

verus! {

/// The registry request that names the shared authenticator.
#[derive(Clone, Copy, Debug, PartialEq, Eq, Structural)]
pub struct GetAuthenticator;

/// The shared server state: the one authenticator behind every session.
#[derive(Debug)]
pub struct DalangServer<A: Authenticator> {
    /// The shared credential backend; sessions borrow it one message at a
    /// time.
    pub authenticator: A,
}

impl<A: Authenticator> DalangServer<A> {
    /// Builds the registry once, at startup, around the chosen backend.
    pub fn new(authenticator: A) -> (r: DalangServer<A>)
        ensures
            r.authenticator == authenticator,
    {
        DalangServer { authenticator }
    }
}

} // verus!
