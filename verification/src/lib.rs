//! Credential-and-token lifecycle: account registration with uniqueness
//! enforcement, credential verification, signed-token issuance and
//! token verification with expiry enforcement.

pub mod auth;
pub mod boundary;
pub mod claims;
pub mod clock;
pub mod digits;
pub mod errors;
pub mod hmac;
pub mod session;
pub mod store;
pub mod token;
