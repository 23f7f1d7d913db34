//! Base64 with the standard alphabet and padding, for the gateway's
//! collaborators. Both directions are pure functions of their input,
//! named by `base64_encode` and `base64_decode`.

use vstd::prelude::*;
use vstd::utf8::encode_utf8;
use ::base64::prelude::BASE64_STANDARD;
use ::base64::Engine;

verus! {

/// The standard-alphabet, padded base64 rendering of a byte string: a
/// pure function of the bytes.
pub uninterp spec fn base64_encode(bytes: Seq<u8>) -> Seq<char>;

/// The standard-alphabet, padded base64 decoding of a byte string: the
/// decoded bytes, or nothing when the input is not of that shape.
pub uninterp spec fn base64_decode(data: Seq<u8>) -> Option<Seq<u8>>;

/// base64's decode error type, declared so it can cross this module's
/// signatures; nothing about its inside is assumed.
#[verifier::external_type_specification]
#[verifier::external_body]
pub struct ExDecodeError(::base64::DecodeError);

/// Relies on base64's standard engine: encoding is a pure function of
/// the bytes, four output characters per three input bytes rounded up,
/// and decoding the encoding's bytes restores the input (the engine
/// decodes exactly its own canonically padded output).
#[verifier::external_body]
fn b64_encode_call(i: &[u8]) -> (r: String)
    ensures
        r@ == base64_encode(i@),
        r@.len() == 4 * ((i@.len() + 2) / 3),
        base64_decode(encode_utf8(r@)) == Some(i@),
{
    BASE64_STANDARD.encode(i)
}

/// Relies on base64's standard engine: decoding is a pure function of
/// the input and fails exactly where the named decoding does.
#[verifier::external_body]
fn b64_decode_call(i: &[u8]) -> (r: Result<Vec<u8>, ::base64::DecodeError>)
    ensures
        r is Ok <==> base64_decode(i@) is Some,
        r matches Ok(v) ==> base64_decode(i@) == Some(v@),
{
    BASE64_STANDARD.decode(i)
}

/// Base64-encode bytes with the standard alphabet and padding; decoding
/// the result's bytes restores the input.
pub fn encode(i: &[u8]) -> (r: String)
    ensures
        r@ == base64_encode(i@),
        r@.len() == 4 * ((i@.len() + 2) / 3),
        base64_decode(encode_utf8(r@)) == Some(i@),
{
    b64_encode_call(i)
}

/// Decode standard-alphabet base64, erring on any other shape.
pub fn decode(i: &[u8]) -> (r: Result<Vec<u8>, ::base64::DecodeError>)
    ensures
        r is Ok <==> base64_decode(i@) is Some,
        r matches Ok(v) ==> base64_decode(i@) == Some(v@),
{
    b64_decode_call(i)
}

} // verus!
