//! HTTP Basic Authentication credentials (RFC 7617): a username/password
//! pair, its wire-format `Basic <base64>` header value, and decoding of such
//! a value back into the pair.

use vstd::prelude::*;
use vstd::utf8::encode_utf8;
use vstd::utf8::valid_utf8;
use crate::authorization::Authorization;
use crate::codec::b64_decode;
use crate::codec::b64_encode;
use crate::codec::b64_of;
use crate::codec::string_from_utf8;
use crate::errors::AuthError;
use crate::headers::AUTHORIZATION;
use crate::headers::Headers;
use crate::headers::authorization_value;
use crate::headers::without_name;
use crate::strutil::eq_ignore_case;
use crate::strutil::lemma_split_unique;
use crate::strutil::split_at_first;
use crate::strutil::str_eq_ignore_case;

verus! {

/// The plaintext credentials string `<username>:<password>`.
pub open spec fn joined(username: Seq<char>, password: Seq<char>) -> Seq<char> {
    username + seq![':'] + password
}

/// The wire-format credentials of a pair: standard base64 of the UTF-8
/// bytes of `<username>:<password>`.
pub open spec fn credentials_of(username: Seq<char>, password: Seq<char>) -> Seq<char> {
    b64_of(encode_utf8(joined(username, password)))
}

/// The credentials string `c` base64-decodes to bytes that are the UTF-8
/// encoding of the text `t`.
pub open spec fn decodes_to_text(c: Seq<char>, t: Seq<char>) -> bool {
    c == b64_of(encode_utf8(t))
}

/// The credentials are not valid standard base64.
pub open spec fn fails_base64(c: Seq<char>) -> bool {
    forall|v: Seq<u8>| b64_of(v) != c
}

/// The credentials are base64 of bytes that are not valid UTF-8.
pub open spec fn fails_utf8(c: Seq<char>) -> bool {
    exists|v: Seq<u8>| #[trigger] b64_of(v) == c && !valid_utf8(v)
}

/// The credentials decode to a text with no colon, which cannot hold a
/// password.
pub open spec fn fails_missing_separator(c: Seq<char>) -> bool {
    exists|t: Seq<char>| #[trigger] decodes_to_text(c, t) && !t.contains(':')
}

/// The credentials decode to a text with a colon: decoding succeeds.
pub open spec fn decode_succeeds(c: Seq<char>) -> bool {
    exists|t: Seq<char>| #[trigger] decodes_to_text(c, t) && t.contains(':')
}

/// The Authorization header value this library produces for a pair.
pub open spec fn basic_header_value(username: Seq<char>, password: Seq<char>) -> Seq<char> {
    "Basic "@ + credentials_of(username, password)
}

/// The scheme token accepted on decode: `Basic` up to ASCII case.
pub open spec fn is_basic_scheme(s: Seq<char>) -> bool {
    eq_ignore_case(s, "Basic"@)
}

/// An Authorization value decomposes as scheme token `sch` followed by one
/// space and the credentials `cr`, the token itself holding no space.
pub open spec fn scheme_split(v: Seq<char>, sch: Seq<char>, cr: Seq<char>) -> bool {
    v == sch + seq![' '] + cr && !sch.contains(' ')
}

/// HTTP Basic authorization credentials.
#[derive(Debug)]
pub struct BasicAuth {
    username: String,
    password: String,
}

impl View for BasicAuth {
    type V = (Seq<char>, Seq<char>);

    closed spec fn view(&self) -> (Seq<char>, Seq<char>) {
        (self.username@, self.password@)
    }
}

/// The UTF-8 encoding of a text is at most four bytes per character.
pub proof fn lemma_encode_utf8_len(s: Seq<char>)
    ensures
        encode_utf8(s).len() <= 4 * s.len(),
    decreases s.len(),
{
    if s.len() > 0 {
        lemma_encode_utf8_len(s.drop_first());
    }
}

impl BasicAuth {
    /// Create a new instance of `BasicAuth`, storing both values verbatim.
    pub fn new(username: &str, password: &str) -> (r: BasicAuth)
        ensures
            r@ == (username@, password@),
    {
        BasicAuth { username: username.to_owned(), password: password.to_owned() }
    }

    /// Get the username.
    pub fn username(&self) -> (r: &str)
        ensures
            r@ == self@.0,
    {
        self.username.as_str()
    }

    /// Get the password.
    pub fn password(&self) -> (r: &str)
        ensures
            r@ == self@.1,
    {
        self.password.as_str()
    }

    /// Create a new instance from base64-encoded credentials. Succeeds
    /// exactly when the credentials are base64 of UTF-8 text with a colon;
    /// the split is at the first colon, so later colons stay in the
    /// password, and decoding inverts encoding for every username without a
    /// colon.
    pub fn from_credentials(credentials: &str) -> (r: Result<BasicAuth, AuthError>)
        ensures
            ((r matches Err(e) && e is BadBase64) <==> fails_base64(credentials@)),
            ((r matches Err(e) && e is BadEncoding) <==> fails_utf8(credentials@)),
            ((r matches Err(e) && e is MissingSeparator) <==> fails_missing_separator(
                credentials@,
            )),
            (r is Ok <==> decode_succeeds(credentials@)),
            r matches Err(e) ==> e is BadBase64 || e is BadEncoding || e is MissingSeparator,
            r matches Ok(a) ==> decodes_to_text(credentials@, joined(a@.0, a@.1))
                && !a@.0.contains(':'),
            forall|u: Seq<char>, p: Seq<char>|
                #![trigger joined(u, p)]
                (decodes_to_text(credentials@, joined(u, p)) && !u.contains(':')) ==> (
                r matches Ok(a) && a@.0 == u && a@.1 == p),
    {
        let decoded = match b64_decode(credentials) {
            Ok(v) => v,
            Err(_) => {
                return Err(AuthError::BadBase64);
            },
        };
        let ghost dbytes = decoded@;
        let text = match string_from_utf8(decoded) {
            Ok(t) => t,
            Err(_) => {
                proof {
                    assert forall|t: Seq<char>| !decodes_to_text(credentials@, t) by {
                        if decodes_to_text(credentials@, t) {
                            vstd::utf8::encode_utf8_valid_utf8(t);
                            assert(b64_of(encode_utf8(t)) == credentials@);
                            assert(encode_utf8(t) == dbytes);
                            assert(false);
                        }
                    }
                }
                return Err(AuthError::BadEncoding);
            },
        };
        proof {
            vstd::utf8::decode_utf8_encode_utf8(dbytes);
            assert(decodes_to_text(credentials@, text@));
            assert forall|t: Seq<char>| decodes_to_text(credentials@, t) implies t == text@ by {
                assert(b64_of(encode_utf8(t)) == credentials@);
                assert(encode_utf8(t) == dbytes);
                vstd::utf8::encode_utf8_decode_utf8(t);
            }
        }
        match split_at_first(text.as_str(), ':') {
            None => {
                proof {
                    assert(!text@.contains(':'));
                    assert forall|u: Seq<char>, p: Seq<char>|
                        #![trigger joined(u, p)]
                        !decodes_to_text(credentials@, joined(u, p)) by {
                        if decodes_to_text(credentials@, joined(u, p)) {
                            assert(joined(u, p) == text@);
                            assert((u + seq![':'])[u.len() as int] == ':');
                            assert(joined(u, p)[u.len() as int] == ':');
                            assert(text@.contains(':'));
                            assert(false);
                        }
                    }
                }
                Err(AuthError::MissingSeparator)
            },
            Some(parts) => {
                let auth = BasicAuth::new(parts.0, parts.1);
                proof {
                    assert(text@ == joined(parts.0@, parts.1@));
                    assert(text@[parts.0@.len() as int] == ':');
                    assert(text@.contains(':'));
                    assert forall|u: Seq<char>, p: Seq<char>|
                        #![trigger joined(u, p)]
                        (decodes_to_text(credentials@, joined(u, p)) && !u.contains(
                            ':',
                        )) implies (u == parts.0@ && p == parts.1@) by {
                        assert(joined(u, p) == text@);
                        lemma_split_unique(u, p, parts.0@, parts.1@, ':');
                    }
                }
                Ok(auth)
            },
        }
    }

    /// The name of the header this credential serializes under.
    pub fn header_name(&self) -> (r: &str)
        ensures
            r@ == "Authorization"@,
    {
        AUTHORIZATION
    }

    /// Serialize to the header value `Basic <base64 of username:password>`.
    /// The length bound is a machine limit: the base64 engine computes its
    /// output size in a `usize`.
    pub fn header_value(&self) -> (r: String)
        requires
            self@.0.len() + self@.1.len() + 1 <= usize::MAX as int / 16,
        ensures
            r@ == basic_header_value(self@.0, self@.1),
    {
        let mut creds = self.username.clone();
        creds.append(":");
        creds.append(self.password.as_str());
        proof {
            reveal_strlit(":");
            assert(":"@ =~= seq![':']);
            assert(creds@ =~= joined(self@.0, self@.1));
            lemma_encode_utf8_len(creds@);
        }
        let bytes = creds.as_str().as_bytes();
        let encoded = b64_encode(bytes);
        let auth = Authorization::new("Basic", encoded.as_str());
        let value = auth.header_value();
        proof {
            reveal_strlit("Basic");
            reveal_strlit("Basic ");
            assert("Basic "@ =~= "Basic"@ + seq![' ']);
            assert(value@ =~= basic_header_value(self@.0, self@.1));
        }
        value
    }

    /// Write the Authorization header into a collection, replacing any
    /// Authorization entries already there.
    pub fn apply_header(&self, headers: &mut Headers)
        requires
            self@.0.len() + self@.1.len() + 1 <= usize::MAX as int / 16,
        ensures
            final(headers)@ == without_name(old(headers)@, "Authorization"@).push(
                ("Authorization"@, basic_header_value(self@.0, self@.1)),
            ),
    {
        let value = self.header_value();
        headers.insert(AUTHORIZATION, value.as_str());
    }

    /// Create a new instance from headers. Absence of an Authorization
    /// header is a valid `None` outcome; a present header must carry the
    /// `Basic` scheme (up to ASCII case) and well-formed credentials, and
    /// each way it can be malformed is reported as its own client error.
    pub fn from_headers(headers: &Headers) -> (r: Result<Option<BasicAuth>, AuthError>)
        ensures
            ((r matches Ok(a) && a is None) <==> authorization_value(headers@) is None),
            authorization_value(headers@) matches Some(v) ==> {
                &&& (!v.contains(' ') <==> (r matches Err(e) && e is MissingCredentials))
                &&& forall|sch: Seq<char>, cr: Seq<char>|
                    #[trigger] scheme_split(v, sch, cr) ==> {
                        &&& (!is_basic_scheme(sch) <==> (r matches Err(e)
                            && e matches AuthError::SchemeMismatch { scheme } && scheme@ == sch))
                        &&& is_basic_scheme(sch) ==> {
                            &&& ((r matches Err(e) && e is BadBase64) <==> fails_base64(cr))
                            &&& ((r matches Err(e) && e is BadEncoding) <==> fails_utf8(cr))
                            &&& ((r matches Err(e) && e is MissingSeparator)
                                <==> fails_missing_separator(cr))
                            &&& ((r matches Ok(a) && a is Some) <==> decode_succeeds(cr))
                            &&& (r matches Ok(a) ==> (a matches Some(b) ==> decodes_to_text(
                                cr,
                                joined(b@.0, b@.1),
                            ) && !b@.0.contains(':')))
                            &&& forall|u: Seq<char>, p: Seq<char>|
                                #![trigger joined(u, p)]
                                (decodes_to_text(cr, joined(u, p)) && !u.contains(':')) ==> (
                                r matches Ok(a) && a matches Some(b) && b@.0 == u && b@.1 == p)
                        }
                    }
            },
    {
        let auth = match Authorization::from_headers(headers) {
            Err(e) => {
                proof {
                    let v = authorization_value(headers@)->Some_0;
                    assert forall|sch: Seq<char>, cr: Seq<char>|
                        !scheme_split(v, sch, cr) by {
                        if scheme_split(v, sch, cr) {
                            assert((sch + seq![' '])[sch.len() as int] == ' ');
                            assert(v[sch.len() as int] == ' ');
                            assert(v.contains(' '));
                            assert(false);
                        }
                    }
                }
                return Err(e);
            },
            Ok(None) => {
                return Ok(None);
            },
            Ok(Some(a)) => a,
        };
        let ghost v = authorization_value(headers@)->Some_0;
        proof {
            assert(scheme_split(v, auth@.0, auth@.1));
            assert forall|sch: Seq<char>, cr: Seq<char>|
                #[trigger] scheme_split(v, sch, cr) implies sch == auth@.0 && cr == auth@.1 by {
                lemma_split_unique(sch, cr, auth@.0, auth@.1, ' ');
            }
        }
        if !str_eq_ignore_case(auth.scheme(), "Basic") {
            return Err(AuthError::SchemeMismatch { scheme: auth.scheme().to_owned() });
        }
        match BasicAuth::from_credentials(auth.credentials()) {
            Ok(b) => Ok(Some(b)),
            Err(e) => Err(e),
        }
    }
}

/// Law: the header value this library produces decomposes as the `Basic`
/// scheme token followed by credentials that decode back to exactly the
/// joined `<username>:<password>` text. Together with the decode contracts,
/// this is the round trip: decoding an encoded pair yields the pair again,
/// for every username without a colon and every password.
pub proof fn lemma_basic_header_value_shape(u: Seq<char>, p: Seq<char>)
    ensures
        scheme_split(basic_header_value(u, p), "Basic"@, credentials_of(u, p)),
        is_basic_scheme("Basic"@),
        basic_header_value(u, p).contains(' '),
        decodes_to_text(credentials_of(u, p), joined(u, p)),
        joined(u, p).contains(':'),
{
    reveal_strlit("Basic");
    reveal_strlit("Basic ");
    assert("Basic "@ =~= "Basic"@ + seq![' ']);
    let hv = basic_header_value(u, p);
    assert(hv =~= "Basic"@ + seq![' '] + credentials_of(u, p));
    assert forall|i: int| 0 <= i < "Basic"@.len() implies "Basic"@[i] != ' ' by {
        if i == 0 {
            assert("Basic"@[0] == 'B');
        } else if i == 1 {
            assert("Basic"@[1] == 'a');
        } else if i == 2 {
            assert("Basic"@[2] == 's');
        } else if i == 3 {
            assert("Basic"@[3] == 'i');
        } else {
            assert("Basic"@[4] == 'c');
        }
    }
    assert(!"Basic"@.contains(' '));
    assert(hv[5] == ' ');
    assert(hv.contains(' '));
    assert((u + seq![':'])[u.len() as int] == ':');
    assert(joined(u, p)[u.len() as int] == ':');
    assert(joined(u, p).contains(':'));
}

} // verus!
