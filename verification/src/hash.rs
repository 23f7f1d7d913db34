//! Password hashing for the registration collaborator, over the bcrypt
//! primitive. Hashing draws a fresh random salt, so only what holds of
//! every outcome is stated; verification is a pure function of the
//! password and the hash, named by `bcrypt_verify`.

use vstd::prelude::*;

verus! {

/// bcrypt's error type, declared so it can cross this module's
/// signatures; nothing about its inside is assumed.
#[verifier::external_type_specification]
#[verifier::external_body]
pub struct ExBcryptError(bcrypt::BcryptError);

/// What bcrypt verification returns for a password against a hash:
/// whether they match, or nothing when the hash string is malformed.
/// It depends on the two arguments alone.
pub uninterp spec fn bcrypt_verify(password: Seq<char>, hashed: Seq<char>) -> Option<bool>;

/// The work factor used for new hashes.
pub const HASH_COST: u32 = 10;

/// Relies on bcrypt::hash: the cost is in the allowed 4..=31 range, the
/// salt is drawn fresh, and whatever salt came out, a produced hash is
/// always 60 characters and verifies the password it was made from
/// (verification re-derives the hash from the salt and cost embedded in
/// the hash string, truncating the password exactly as hashing did).
#[verifier::external_body]
fn bcrypt_hash_call(s: &str, cost: u32) -> (r: Result<String, bcrypt::BcryptError>)
    requires
        4 <= cost <= 31,
    ensures
        r matches Ok(h) ==> h@.len() == 60 && bcrypt_verify(s@, h@) == Some(true),
{
    bcrypt::hash(s, cost)
}

/// Relies on bcrypt::verify: a pure function of password and hash,
/// erring exactly when the hash is malformed.
#[verifier::external_body]
fn bcrypt_verify_call(s: &str, h: &str) -> (r: Option<bool>)
    ensures
        r == bcrypt_verify(s@, h@),
{
    bcrypt::verify(s, h).ok()
}

/// Generate a bcrypt hash of a password: 60 characters on success, and
/// the produced hash verifies the password; failure can only come from
/// the salt source.
pub fn make(s: String) -> (r: Result<String, bcrypt::BcryptError>)
    ensures
        r matches Ok(h) ==> h@.len() == 60 && bcrypt_verify(s@, h@) == Some(true),
{
    bcrypt_hash_call(s.as_str(), HASH_COST)
}

/// Verify a password against a bcrypt hash: whether they match, or
/// nothing when the hash string is malformed.
pub fn check(s: String, h: &str) -> (r: Option<bool>)
    ensures
        r == bcrypt_verify(s@, h@),
{
    bcrypt_verify_call(s.as_str(), h)
}

} // verus!
