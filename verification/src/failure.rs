//! The errors that commands report.
use vstd::prelude::*;
use crate::auth::error::{canceled_text, AuthError};
use crate::qpapi::grpcweb::{auth_expired_text, GrpcError};
use crate::text::{has_sub, lower};

verus! {

/// Why a command failed: a canceled login, a gRPC status from QueryPie,
/// a login that failed with this message, a status report that found a
/// host not logged in, or any other error, by its message.
#[derive(Debug, Clone)]
pub enum Failure {
    Auth(AuthError),
    Grpc(GrpcError),
    LoginFailed(String),
    StatusFailed,
    Message(String),
}

/// The text of a failure.
pub open spec fn failure_text(f: Failure) -> Seq<char> {
    match f {
        Failure::Auth(_) => canceled_text(),
        Failure::Grpc(e) => e.message@,
        Failure::LoginFailed(m) => m@,
        Failure::StatusFailed => "auth status failed"@,
        Failure::Message(m) => m@,
    }
}

impl Failure {
    /// The text of this failure.
    pub fn message(&self) -> (res: String)
        ensures
            res@ == failure_text(*self),
    {
        match self {
            Failure::Auth(e) => e.message(),
            Failure::Grpc(e) => e.message.clone(),
            Failure::LoginFailed(m) => m.clone(),
            Failure::StatusFailed => "auth status failed".to_owned(),
            Failure::Message(m) => m.clone(),
        }
    }
}

/// Is the failure a gRPC status saying that the access token is no longer
/// valid.
pub open spec fn auth_expired(f: Failure) -> bool {
    f matches Failure::Grpc(e) && auth_expired_text(lower(e.message@))
}

/// Is the failure a gRPC status saying that the database session no
/// longer exists.
pub open spec fn session_not_found(f: Failure) -> bool {
    f matches Failure::Grpc(e) && e.code@ == "10"@ && has_sub(e.message@, "SessionNotFound"@)
}

/// Did the access token expire.
pub fn is_auth_expired(err: &Failure) -> (res: bool)
    ensures
        res == auth_expired(*err),
{
    match err {
        Failure::Grpc(e) => e.is_auth_expired(),
        _ => false,
    }
}

/// Was the database session gone.
pub fn is_session_not_found(err: &Failure) -> (res: bool)
    ensures
        res == session_not_found(*err),
{
    match err {
        Failure::Grpc(e) => e.is_session_not_found(),
        _ => false,
    }
}

} // verus!
