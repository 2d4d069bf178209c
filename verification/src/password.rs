//! Password hashing with Argon2 (default parameters, random salt) and
//! verification of a password against a stored PHC hash string.

use vstd::prelude::*;
use vstd::string::StringSliceAdditionalSpecFns;
use argon2::password_hash::{PasswordHash, PasswordHasher, PasswordVerifier, SaltString};
use argon2::Argon2;
use rand_core::OsRng;

verus! {

/// The error type of `password_hash` operations.
#[verifier::external_type_specification]
#[verifier::external_body]
pub struct ExPasswordHashError(argon2::password_hash::Error);

/// The PHC string that `Argon2::default().hash_password` produces for a
/// password (as bytes) and a B64 salt: a function of the two alone.
pub uninterp spec fn argon2_phc(password: Seq<u8>, salt: Seq<char>) -> Seq<char>;

/// Whether `Argon2::default().verify_password` accepts a password (as bytes)
/// against the PHC string `phc`, which must parse for that.
pub uninterp spec fn argon2_accepts(password: Seq<u8>, phc: Seq<char>) -> bool;

/// Whether a password matches a stored hash string, as `verify_password`
/// decides it.
pub open spec fn password_matches(password: Seq<char>, phc: Seq<char>) -> bool {
    argon2_accepts(vstd::utf8::encode_utf8(password), phc)
}

/// The character of a 6-bit value in the standard Base64 alphabet
/// (`A`-`Z`, `a`-`z`, `0`-`9`, `+`, `/`).
pub open spec fn b64_digit(v: int) -> char {
    if v < 26 {
        (65 + v) as char
    } else if v < 52 {
        (97 + v - 26) as char
    } else if v < 62 {
        (48 + v - 52) as char
    } else if v == 62 {
        '+'
    } else {
        '/'
    }
}

/// Standard Base64 without padding ("B64" of the PHC string format).
pub open spec fn b64_unpadded(b: Seq<u8>) -> Seq<char>
    decreases b.len(),
{
    if b.len() >= 3 {
        seq![
            b64_digit(b[0] as int / 4),
            b64_digit((b[0] as int % 4) * 16 + b[1] as int / 16),
            b64_digit((b[1] as int % 16) * 4 + b[2] as int / 64),
            b64_digit(b[2] as int % 64),
        ] + b64_unpadded(b.skip(3))
    } else if b.len() == 2 {
        seq![
            b64_digit(b[0] as int / 4),
            b64_digit((b[0] as int % 4) * 16 + b[1] as int / 16),
            b64_digit((b[1] as int % 16) * 4),
        ]
    } else if b.len() == 1 {
        seq![b64_digit(b[0] as int / 4), b64_digit((b[0] as int % 4) * 16)]
    } else {
        seq![]
    }
}

/// The B64 text of some 16 bytes: the form of the salts that
/// `SaltString::generate` produces.
pub open spec fn is_b64_of_16_bytes(s: Seq<char>) -> bool {
    exists|b: Seq<u8>| b.len() == 16 && s == #[trigger] b64_unpadded(b)
}

/// The longest password, in bytes, that Argon2 hashes.
pub const MAX_PASSWORD_BYTES: usize = 0xFFFF_FFFF;

/// Calls `SaltString::generate` with the operating system's random source and
/// returns the salt's B64 text: the B64 encoding of 16 random bytes. Which
/// bytes is not known in advance.
#[verifier::external_body]
fn random_salt() -> (r: String)
    ensures
        is_b64_of_16_bytes(r@),
{
    SaltString::generate(&mut OsRng).as_str().to_owned()
}

/// Calls `SaltString::from_b64` on `salt` and `Argon2::default().hash_password`
/// with it; on success returns the hash's PHC string. That string is named
/// `argon2_phc` of the arguments, and `verify_password` accepts the same
/// password against it: verification re-hashes with the salt and parameters
/// that the string records and compares the outputs. With a salt that is the
/// B64 text of 16 bytes (which `from_b64` accepts and which decodes to more
/// than the 8 bytes Argon2 needs), hashing fails only for a password longer
/// than `MAX_PWD_LEN` (0xFFFFFFFF bytes); the default parameters are valid.
#[verifier::external_body]
fn argon2_hash(password: &[u8], salt: &str) -> (r: Result<String, argon2::password_hash::Error>)
    ensures
        r matches Ok(h) ==> h@ == argon2_phc(password@, salt@) && argon2_accepts(password@, h@),
        is_b64_of_16_bytes(salt@) ==> (r is Ok <==> password@.len() <= MAX_PASSWORD_BYTES),
{
    let salt = SaltString::from_b64(salt)?;
    Ok(Argon2::default().hash_password(password, &salt)?.to_string())
}

/// Whether a text can be a PHC hash string at all: `PasswordHash::new`
/// refuses an empty text and one whose first `$`-separated field is not
/// empty, that is one that does not start with `$`.
pub open spec fn may_be_phc(s: Seq<char>) -> bool {
    s.len() > 0 && s[0] == '$'
}

/// Calls `PasswordHash::new` on `phc` and, when it parses,
/// `Argon2::default().verify_password`; returns whether both succeed, which
/// is named `argon2_accepts` of the arguments. A text that does not start
/// with `$` does not parse, so it is accepted for no password.
#[verifier::external_body]
fn argon2_verify(password: &[u8], phc: &str) -> (r: bool)
    ensures
        r == argon2_accepts(password@, phc@),
        !may_be_phc(phc@) ==> !r,
{
    match PasswordHash::new(phc) {
        Ok(h) => Argon2::default().verify_password(password, &h).is_ok(),
        Err(_) => false,
    }
}

/// Hashes a password with Argon2 and a fresh random salt; the hash string
/// that comes back verifies the same password. It fails only for a password
/// longer than 0xFFFFFFFF bytes.
pub fn hash_password(password: &str) -> (r: Result<String, argon2::password_hash::Error>)
    ensures
        r is Ok <==> password.spec_bytes().len() <= MAX_PASSWORD_BYTES,
        r matches Ok(h) ==> password_matches(password@, h@),
        r matches Ok(h) ==> exists|salt: Seq<char>| h@ == #[trigger] argon2_phc(password.spec_bytes(), salt),
{
    let salt = random_salt();
    let r = argon2_hash(password.as_bytes(), salt.as_str());
    if let Ok(h) = &r {
        assert(h@ == argon2_phc(password.spec_bytes(), salt@));
    }
    r
}

/// Whether `password` matches the stored hash string `parsed_hash`; a hash
/// string that does not parse matches nothing, and a text that does not
/// start with `$` (such as a password stored in clear) never parses.
pub fn verify_password(password: &str, parsed_hash: &str) -> (r: bool)
    ensures
        r == password_matches(password@, parsed_hash@),
        !may_be_phc(parsed_hash@) ==> !r,
{
    argon2_verify(password.as_bytes(), parsed_hash)
}

} // verus!
