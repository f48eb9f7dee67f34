//! Passwords of user accounts.

use vstd::prelude::*;
use crate::text::{optional_text, same_text};

verus! {

/// Why a request about an account's password is refused.
#[derive(Debug, Clone, Copy, PartialEq, Eq, Structural)]
pub enum AccountError {
    /// An account that is not registered through Google needs a password.
    PasswordRequired,
    /// The password given is not the account's password.
    IncorrectPassword,
}

impl AccountError {
    /// The number of the HTTP status under which the refusal is reported.
    pub open spec fn status(self) -> int {
        match self {
            AccountError::PasswordRequired => 400,
            AccountError::IncorrectPassword => 401,
        }
    }

    /// The HTTP status under which the refusal is reported.
    pub fn status_code(&self) -> (code: u16)
        ensures
            code == self.status(),
    {
        match self {
            AccountError::PasswordRequired => 400,
            AccountError::IncorrectPassword => 401,
        }
    }
}

/// The SHA-256 digest of the UTF-8 bytes of `input`, in hexadecimal digits.
pub uninterp spec fn sha256_hex(input: Seq<char>) -> Seq<char>;

/// `sha256::digest` on a string slice: the SHA-256 digest of its bytes,
/// written in hexadecimal digits.
#[verifier::external_body]
fn digest_text(input: &str) -> (digest: String)
    ensures
        digest@ == sha256_hex(input@),
{
    sha256::digest(input)
}

/// Whether an account registered through `registred_via` signs in through
/// Google, and so has no password of its own.
pub open spec fn is_google(registred_via: Seq<char>) -> bool {
    registred_via == "Google"@
}

/// What is stored for a password: its digest.
pub open spec fn stored_form(password: Option<Seq<char>>) -> Option<Seq<char>> {
    match password {
        Some(password) => Some(sha256_hex(password)),
        None => None,
    }
}

/// Whether an account registered through `registred_via` signs in through
/// Google.
pub fn signs_in_through_google(registred_via: &str) -> (google: bool)
    ensures
        google == is_google(registred_via@),
{
    same_text(registred_via, "Google")
}

/// Whether the stored digest `stored` is the digest `digest`.
pub fn digest_matches(stored: &str, digest: &str) -> (same: bool)
    ensures
        same == (stored@ == digest@),
{
    same_text(stored, digest)
}

/// The form in which the password of a new account is stored.
///
/// An account that is not registered through Google has to come with a
/// password.  The password is stored as its digest; where there is none,
/// none is stored.
pub fn registration_password(registred_via: &str, password: Option<String>) -> (r: Result<
    Option<String>,
    AccountError,
>)
    ensures
        if !is_google(registred_via@) && password is None {
            r == Err::<Option<String>, AccountError>(AccountError::PasswordRequired)
        } else {
            r matches Ok(stored) && optional_text(stored) == stored_form(optional_text(password))
        },
{
    match password {
        Some(password) => Ok(Some(digest_text(password.as_str()))),
        None => if signs_in_through_google(registred_via) {
            Ok(None)
        } else {
            Err(AccountError::PasswordRequired)
        },
    }
}

/// Checks `candidate` against the stored digest of an account's password.
pub fn check_password(stored: &str, candidate: &str) -> (r: Result<(), AccountError>)
    ensures
        r is Ok <==> stored@ == sha256_hex(candidate@),
        r matches Err(e) ==> e == AccountError::IncorrectPassword,
{
    let digest = digest_text(candidate);
    if digest_matches(stored, digest.as_str()) {
        Ok(())
    } else {
        Err(AccountError::IncorrectPassword)
    }
}

/// Changes the password of an account whose stored digest is `stored`:
/// where `old_password` is the account's password, returns the digest of
/// `new_password`, to be stored in its place.
pub fn change_password(stored: &str, old_password: &str, new_password: &str) -> (r: Result<
    String,
    AccountError,
>)
    ensures
        if stored@ == sha256_hex(old_password@) {
            r matches Ok(digest) && digest@ == sha256_hex(new_password@)
        } else {
            r == Err::<String, AccountError>(AccountError::IncorrectPassword)
        },
{
    match check_password(stored, old_password) {
        Ok(_) => Ok(digest_text(new_password)),
        Err(e) => Err(e),
    }
}

} // verus!
