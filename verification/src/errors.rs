//! Client-input error conditions of Basic Authentication decoding.

use vstd::prelude::*;

verus! {

/// Why decoding an Authorization header failed. Every variant is a
/// client-input error — a bad request — never an internal fault; a missing
/// Authorization header is not an error at all and is reported as absence.
#[derive(Debug)]
pub enum AuthError {
    /// An Authorization header is present but its value holds no space, so
    /// there are no credentials after the scheme token.
    MissingCredentials,
    /// The scheme token is not `Basic`; carries the token actually found.
    SchemeMismatch { scheme: String },
    /// The credentials are not valid standard base64.
    BadBase64,
    /// The base64-decoded bytes are not valid UTF-8 text.
    BadEncoding,
    /// The decoded text contains no `:`, so it cannot hold a password.
    MissingSeparator,
}

impl AuthError {
    /// The suggested client-facing status: every condition is a bad request.
    pub fn status(&self) -> (r: u16)
        ensures
            r == 400,
    {
        400
    }

    /// A human-readable diagnostic for the condition.
    pub fn message(&self) -> (r: String)
        ensures
            match self {
                AuthError::MissingCredentials => r@
                    == "Expected authorization header to contain credentials"@,
                AuthError::SchemeMismatch { scheme } => r@
                    == "Expected basic auth scheme found `"@ + scheme@ + "`"@,
                AuthError::BadBase64 => r@ == "Expected basic auth to be base64 encoded"@,
                AuthError::BadEncoding => r@ == "Expected basic auth to be valid utf-8"@,
                AuthError::MissingSeparator => r@ == "Expected basic auth to contain a password"@,
            },
    {
        match self {
            AuthError::MissingCredentials => String::from_str(
                "Expected authorization header to contain credentials",
            ),
            AuthError::SchemeMismatch { scheme } => {
                let mut out = String::from_str("Expected basic auth scheme found `");
                out.append(scheme.as_str());
                out.append("`");
                out
            },
            AuthError::BadBase64 => String::from_str("Expected basic auth to be base64 encoded"),
            AuthError::BadEncoding => String::from_str("Expected basic auth to be valid utf-8"),
            AuthError::MissingSeparator => String::from_str(
                "Expected basic auth to contain a password",
            ),
        }
    }
}

} // verus!
