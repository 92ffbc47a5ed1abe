//! Password hashing with bcrypt.

use vstd::prelude::*;
use crate::errors::{AppError, ErrorKind};

verus! {

#[verifier::external_type_specification]
#[verifier::external_body]
pub struct ExBcryptError(bcrypt::BcryptError);

/// What `bcrypt::verify(password, hash)` gives: `Some(matches)`, or `None`
/// where it fails (a malformed hash).
pub uninterp spec fn bcrypt_verify_result(password: Seq<char>, hash: Seq<char>) -> Option<bool>;

/// `bcrypt::hash` with `bcrypt::DEFAULT_COST`: hashes the password under a fresh
/// random salt. The salt is random, so the hash itself is not promised; what the
/// source shows is that a hash it returns is 60 characters long and that
/// `bcrypt::verify` accepts the same password against it.
#[verifier::external_body]
pub(crate) fn hash_password(password: &str) -> (r: Result<String, bcrypt::BcryptError>)
    ensures
        r matches Ok(h) ==> h@.len() == 60 && bcrypt_verify_result(password@, h@) == Some(true),
{
    bcrypt::hash(password, bcrypt::DEFAULT_COST)
}

/// `bcrypt::verify`: whether the password matches the hash; an error for a
/// malformed hash. Its result is named by `bcrypt_verify_result`.
#[verifier::external_body]
pub(crate) fn verify_password(password: &str, hash: &str) -> (r: Result<bool, bcrypt::BcryptError>)
    ensures
        r matches Ok(b) ==> bcrypt_verify_result(password@, hash@) == Some(b),
        r is Err ==> bcrypt_verify_result(password@, hash@) is None,
{
    bcrypt::verify(password, hash)
}

/// `Display` of `bcrypt::BcryptError` (`to_string`): the error's message.
/// Nothing is promised of the text.
#[verifier::external_body]
fn bcrypt_error_text(e: &bcrypt::BcryptError) -> String {
    e.to_string()
}

/// The service error that reports a bcrypt failure.
pub(crate) fn hash_error(e: bcrypt::BcryptError) -> (r: AppError)
    ensures
        r.kind() == ErrorKind::Hash,
{
    AppError::Hash(bcrypt_error_text(&e))
}

} // verus!
