//! The error of a canceled login.
use vstd::prelude::*;
use crate::failure::Failure;

verus! {

/// Why a login failed.
#[derive(Debug, Clone, Copy, PartialEq, Eq, Structural)]
pub enum AuthError {
    LoginCanceled,
}

/// The message of a canceled login.
pub open spec fn canceled_text() -> Seq<char> {
    "Login canceled before a QueryPie session was established"@
}

impl AuthError {
    /// The message of this error.
    pub fn message(&self) -> (res: String)
        ensures
            res@ == canceled_text(),
    {
        "Login canceled before a QueryPie session was established".to_owned()
    }
}

/// Was the login canceled by the user.
pub fn is_login_canceled(err: &Failure) -> (res: bool)
    ensures
        res == (*err matches Failure::Auth(AuthError::LoginCanceled)),
{
    match err {
        Failure::Auth(AuthError::LoginCanceled) => true,
        _ => false,
    }
}

} // verus!
