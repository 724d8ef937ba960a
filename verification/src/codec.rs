//! Boundary to the base64 codec and to UTF-8 validation, the two primitives
//! this library treats as given.

use vstd::prelude::*;
use base64::Engine;

verus! {

/// The standard-alphabet, padded base64 encoding of a byte sequence, as the
/// base64 crate's `STANDARD` engine produces it.
pub uninterp spec fn b64_of(bytes: Seq<u8>) -> Seq<char>;

/// The base64 crate's decode error, opaque to this library.
#[verifier::external_type_specification]
#[verifier::external_body]
pub struct ExDecodeError(base64::DecodeError);

/// std's error for a byte vector that is not valid UTF-8, opaque here.
#[verifier::external_type_specification]
#[verifier::external_body]
pub struct ExFromUtf8Error(std::string::FromUtf8Error);

/// Relies on base64's `Engine::encode` with the `STANDARD` engine: it returns
/// the standard-alphabet, padded encoding of the input bytes. The length
/// bound keeps the engine's output-size computation from overflowing.
#[verifier::external_body]
pub(crate) fn b64_encode(bytes: &[u8]) -> (r: String)
    requires
        bytes@.len() <= usize::MAX as int / 4,
    ensures
        r@ == b64_of(bytes@),
{
    base64::engine::general_purpose::STANDARD.encode(bytes)
}

/// Relies on base64's `Engine::decode` with the `STANDARD` engine: it demands
/// canonical padding and trailing bits, so it succeeds exactly on canonical
/// encodings, and then returns the unique preimage.
#[verifier::external_body]
pub(crate) fn b64_decode(s: &str) -> (r: Result<Vec<u8>, base64::DecodeError>)
    ensures
        match r {
            Ok(v) => s@ == b64_of(v@) && (forall|w: Seq<u8>| b64_of(w) == s@ ==> w == v@),
            Err(_) => forall|w: Seq<u8>| b64_of(w) != s@,
        },
{
    base64::engine::general_purpose::STANDARD.decode(s)
}

/// Relies on `String::from_utf8`: it succeeds exactly on valid UTF-8 and
/// returns the text that the bytes encode.
#[verifier::external_body]
pub(crate) fn string_from_utf8(bytes: Vec<u8>) -> (r: Result<
    String,
    std::string::FromUtf8Error,
>)
    ensures
        match r {
            Ok(t) => vstd::utf8::valid_utf8(bytes@) && t@ == vstd::utf8::decode_utf8(bytes@),
            Err(_) => !vstd::utf8::valid_utf8(bytes@),
        },
{
    String::from_utf8(bytes)
}

} // verus!
