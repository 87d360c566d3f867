//! Domain error taxonomy: each variant names the single condition that
//! produces it, as stated in the contracts of the services that return them.
use vstd::prelude::*;

verus! {

/// Errors of the customer service.
#[derive(Debug, Clone, Copy, PartialEq, Eq, Structural)]
pub enum CustomerError {
    /// Signup found the username already registered.
    CustomerAlreadyExist,
    /// Signin found no customer with the given username/password pair.
    CustomerInvalidCredential,
    /// A lookup by id or username found no customer.
    CustomerNotFound,
}

impl CustomerError {
    /// Human-readable description, as the boundary layer reports it.
    pub fn message(&self) -> (r: &'static str)
        ensures
            r@ == self.message_spec(),
    {
        match self {
            CustomerError::CustomerAlreadyExist => "the customer is already register",
            CustomerError::CustomerInvalidCredential => "invalid username/password combination ",
            CustomerError::CustomerNotFound => "customer not found",
        }
    }

    pub open spec fn message_spec(&self) -> Seq<char> {
        match self {
            CustomerError::CustomerAlreadyExist => "the customer is already register"@,
            CustomerError::CustomerInvalidCredential => "invalid username/password combination "@,
            CustomerError::CustomerNotFound => "customer not found"@,
        }
    }
}

/// Errors of the file service and the sharing-link engine.
#[derive(Debug, Clone, Copy, PartialEq, Eq, Structural)]
pub enum FileError {
    /// The requested file or sharing link has no backing record.
    FileNotFound,
    /// The file exists but its owner is not the requesting customer.
    FileNotBelongToCustomer,
    /// The sharing link's expiry lies before the current time.
    FileSharingLinkExpired,
    /// The sharing link is password-protected and the supplied password differs.
    FileSharingLinkPasswordIncorrect,
}

impl FileError {
    /// Human-readable description, as the boundary layer reports it.
    pub fn message(&self) -> (r: &'static str)
        ensures
            r@ == self.message_spec(),
    {
        match self {
            FileError::FileNotFound => "the requested file not exist",
            FileError::FileNotBelongToCustomer => "the requested file is not belong to customer",
            FileError::FileSharingLinkExpired => "file sharing link is expired",
            FileError::FileSharingLinkPasswordIncorrect => "file sharing link passowrd incorrect",
        }
    }

    pub open spec fn message_spec(&self) -> Seq<char> {
        match self {
            FileError::FileNotFound => "the requested file not exist"@,
            FileError::FileNotBelongToCustomer => "the requested file is not belong to customer"@,
            FileError::FileSharingLinkExpired => "file sharing link is expired"@,
            FileError::FileSharingLinkPasswordIncorrect => "file sharing link passowrd incorrect"@,
        }
    }
}

/// Errors of the identity codec.
#[derive(Debug, Clone, Copy, PartialEq, Eq, Structural)]
pub enum IdentityError {
    /// Signing the token failed, so no serialized form exists.
    EncodingError,
    /// The token string is malformed or its signature does not check out.
    InvalidTokenError,
}

} // verus!
