//! Hashing and checking of passwords.

use argon2::PasswordVerifier;
use password_hash::PasswordHasher;
use vstd::prelude::*;

use crate::ids;

verus! {

/// The Argon2 hash of a password with a salt, in PHC string form, or the text of
/// the error.
pub uninterp spec fn password_hash_of(password: Seq<char>, salt: Seq<u8>) -> Result<
    Seq<char>,
    Seq<char>,
>;

/// Whether a text is a password hash, in PHC string form, of the password.
pub uninterp spec fn password_accepted(password: Seq<char>, hash: Seq<char>) -> bool;

/// `argon2::Argon2::hash_password` with the default parameters, on a salt that
/// `password_hash::SaltString::encode_b64` makes of sixteen bytes. The hash it
/// gives is one that `verify_password` accepts for the same password.
#[verifier::external_body]
pub(crate) fn hash_with_salt(password: &str, salt: &Vec<u8>) -> (r: Result<String, String>)
    requires
        salt@.len() == 16,
    ensures
        result_view(r) == password_hash_of(password@, salt@),
        r matches Ok(h) ==> password_accepted(password@, h@),
{
    let salt = password_hash::SaltString::encode_b64(salt).map_err(|error| error.to_string())?;
    let hasher = argon2::Argon2::default();
    let hashed = hasher.hash_password(password.as_bytes(), &salt).map_err(
        |error| error.to_string(),
    )?;
    Ok(hashed.to_string())
}

/// `argon2::PasswordHash::new` reads a PHC string and
/// `argon2::Argon2::verify_password` checks a password against it; a text that
/// is no PHC string accepts no password.
#[verifier::external_body]
pub(crate) fn accepts(password: &str, hash: &str) -> (r: bool)
    ensures
        r == password_accepted(password@, hash@),
{
    argon2::PasswordHash::new(hash).is_ok_and(
        |parsed|
            argon2::Argon2::default().verify_password(password.as_bytes(), &parsed).is_ok(),
    )
}

/// What hashing came to.
pub open spec fn result_view(r: Result<String, String>) -> Result<Seq<char>, Seq<char>> {
    match r {
        Ok(hash) => Ok(hash@),
        Err(e) => Err(e@),
    }
}

/// A hash, where there is one.
pub open spec fn hash_if_any(r: Result<Seq<char>, Seq<char>>) -> Option<Seq<char>> {
    match r {
        Ok(hash) => Some(hash),
        Err(_) => None,
    }
}

/// The hash of a password with a random salt, if there is one.
pub fn hash_password(password: &str) -> (r: Option<String>)
    ensures
        exists|salt: Seq<u8>| #[trigger]
            ids::is_random_uuid(salt) && crate::text::opt_view(r) == hash_if_any(
                password_hash_of(password@, salt),
            ),
        r matches Some(h) ==> password_accepted(password@, h@),
{
    let salt = ids::random_uuid();
    match hash_with_salt(password, &salt) {
        Ok(hash) => Some(hash),
        Err(_) => None,
    }
}

} // verus!
