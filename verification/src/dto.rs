//! The plain request/response shapes of the customer and sharing endpoints:
//! the values the boundary layer hands the services and hands back.
use vstd::prelude::*;

verus! {

/// Signup request: the credentials to register.
pub struct CustomerSignupV1ReqDTO {
    pub username: String,
    pub password: String,
}

/// Signup response carries no data: the identity travels as a cookie.
pub struct CustomerSignupV1RespDTO {}

/// Signin request: the credentials to check.
pub struct CustomerSigninV1ReqDTO {
    pub username: String,
    pub password: String,
}

/// Signin response carries no data: the identity travels as a cookie.
pub struct CustomerSigninV1RespDTO {}

/// Sharing-link resolution request: the optionally supplied password.
pub struct FileSharingGetByIdV1ReqDTO {
    pub password: Option<String>,
}

/// Sharing-link resolution response carries no data: the file bytes are
/// streamed by the boundary layer.
pub struct FileSharingGetByIdV1RespDTO {}

} // verus!
