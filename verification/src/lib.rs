//! HTTP Basic Authentication (RFC 7617).
//!
//! Encodes a username/password pair into the wire-format `Authorization`
//! header value `Basic <base64>`, and decodes such a header back into the
//! pair, surfacing a typed client error for every malformed input.

pub mod authorization;
pub mod basic_auth;
pub mod codec;
pub mod errors;
pub mod headers;
pub mod strutil;

pub use authorization::Authorization;
pub use basic_auth::BasicAuth;
pub use errors::AuthError;
pub use headers::Headers;
