//! The Authorization header value: a scheme token and a credentials string,
//! serialized as `<scheme> <credentials>`.

use vstd::prelude::*;
use crate::errors::AuthError;
use crate::headers::AUTHORIZATION;
use crate::headers::Headers;
use crate::headers::authorization_value;
use crate::strutil::split_at_first;

verus! {

/// A parsed Authorization header value: the scheme token and the credentials
/// string that follow it.
#[derive(Debug)]
pub struct Authorization {
    scheme: String,
    credentials: String,
}

impl View for Authorization {
    type V = (Seq<char>, Seq<char>);

    closed spec fn view(&self) -> (Seq<char>, Seq<char>) {
        (self.scheme@, self.credentials@)
    }
}

impl Authorization {
    /// Wrap a scheme token and a credentials string, verbatim.
    pub fn new(scheme: &str, credentials: &str) -> (r: Authorization)
        ensures
            r@ == (scheme@, credentials@),
    {
        Authorization { scheme: scheme.to_owned(), credentials: credentials.to_owned() }
    }

    /// The scheme token.
    pub fn scheme(&self) -> (r: &str)
        ensures
            r@ == self@.0,
    {
        self.scheme.as_str()
    }

    /// The credentials string.
    pub fn credentials(&self) -> (r: &str)
        ensures
            r@ == self@.1,
    {
        self.credentials.as_str()
    }

    /// Serialize to the header value `<scheme> <credentials>`.
    pub fn header_value(&self) -> (r: String)
        ensures
            r@ == self@.0 + seq![' '] + self@.1,
    {
        let mut out = self.scheme.clone();
        out.append(" ");
        out.append(self.credentials.as_str());
        proof {
            reveal_strlit(" ");
            assert(" "@ =~= seq![' ']);
            assert(out@ =~= self@.0 + seq![' '] + self@.1);
        }
        out
    }

    /// Parse the last Authorization header out of a collection. Absence is a
    /// valid outcome, not an error; a value with no space after the scheme
    /// token carries no credentials and is a client error.
    pub fn from_headers(headers: &Headers) -> (r: Result<Option<Authorization>, AuthError>)
        ensures
            ((r matches Ok(a) && a is None) <==> authorization_value(headers@) is None),
            authorization_value(headers@) matches Some(v) ==> {
                &&& (!v.contains(' ') <==> (r matches Err(e) && e is MissingCredentials))
                &&& v.contains(' ') ==> (r matches Ok(a) && a matches Some(auth) && v == auth@.0
                    + seq![' '] + auth@.1 && !auth@.0.contains(' '))
            },
    {
        let value = match headers.last_value(AUTHORIZATION) {
            None => {
                return Ok(None);
            },
            Some(v) => v,
        };
        match split_at_first(value.as_str(), ' ') {
            None => Err(AuthError::MissingCredentials),
            Some(parts) => {
                let auth = Authorization::new(parts.0, parts.1);
                proof {
                    assert(value@[parts.0@.len() as int] == ' ');
                    assert(value@.contains(' '));
                }
                Ok(Some(auth))
            },
        }
    }
}

} // verus!
