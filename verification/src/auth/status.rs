//! The result of an authentication check.
use vstd::prelude::*;

verus! {

/// The state of a host's login.
#[derive(Debug, Clone, Copy, PartialEq, Eq, Structural)]
pub enum AuthState {
    Missing,
    Valid,
    Expired,
}

/// A host and the state of its login.
#[derive(Debug, Clone)]
pub struct AuthCheck {
    pub host: String,
    pub state: AuthState,
}

impl AuthCheck {
    /// No session was found for the host.
    pub fn missing(host: String) -> (res: Self)
        ensures
            res == (AuthCheck { host, state: AuthState::Missing }),
    {
        AuthCheck { host, state: AuthState::Missing }
    }

    /// The host's session is valid.
    pub fn valid(host: String) -> (res: Self)
        ensures
            res == (AuthCheck { host, state: AuthState::Valid }),
    {
        AuthCheck { host, state: AuthState::Valid }
    }

    /// The host's session expired and could not be refreshed.
    pub fn expired(host: String) -> (res: Self)
        ensures
            res == (AuthCheck { host, state: AuthState::Expired }),
    {
        AuthCheck { host, state: AuthState::Expired }
    }
}

} // verus!
