//! Sign-in: a password checked against the stored Argon2 PHC hash.

use argon2::password_hash::{PasswordHash, PasswordVerifier};
use argon2::Argon2;
use vstd::prelude::*;
use vstd::utf8::encode_utf8;

use crate::reply::{reply_is, Reply, Status};

verus! {

/// The sign-in form.
#[derive(Debug)]
pub struct LoginInfo {
    pub username: String,
    pub password: String,
}

/// Whether a string parses as a PHC password hash (`PasswordHash::new`).
pub uninterp spec fn phc_parses(phc: Seq<char>) -> bool;

/// Whether `Argon2::default().verify_password` accepts a password against a
/// parsed PHC hash.
pub uninterp spec fn argon2_accepts(password: Seq<u8>, phc: Seq<char>) -> bool;

/// Parses `phc` with `PasswordHash::new` and, where it parses, checks
/// `password` against it with `Argon2::default().verify_password`. Its
/// contract claims that the parse succeeds as a function of `phc` alone, and
/// that the verdict is a function of the password and the hash string alone;
/// the PHC grammar and the Argon2 computation are left unstated.
#[verifier::external_body]
fn argon2_check(password: &[u8], phc: &str) -> (verdict: Option<bool>)
    ensures
        verdict is Some <==> phc_parses(phc@),
        verdict matches Some(ok) ==> ok == argon2_accepts(password@, phc@),
{
    match PasswordHash::new(phc) {
        Ok(parsed) => Some(Argon2::default().verify_password(password, &parsed).is_ok()),
        Err(_) => None,
    }
}

/// What a sign-in comes to.
#[derive(Debug)]
pub enum LoginOutcome {
    /// The user is signed in under `username` and answered with `reply`.
    SignIn { username: String, reply: Reply },
    /// The sign-in is refused with `reply`.
    Refused { reply: Reply },
}

/// The outcome of a sign-in for `info`, given the verdict of the password
/// check: `None` where the stored hash did not parse, a sign-in answered with
/// `200 Ok` where the password was accepted, and `403 No` otherwise.
pub fn decide_login(info: LoginInfo, verdict: Option<bool>) -> (r: Option<LoginOutcome>)
    ensures
        verdict is None <==> r is None,
        verdict == Some(true) ==> (r matches Some(LoginOutcome::SignIn { username, reply }) && username
            == info.username && reply_is(reply, Status::Success, "Ok"@)),
        verdict == Some(false) ==> (r matches Some(LoginOutcome::Refused { reply }) && reply_is(
            reply,
            Status::Forbidden,
            "No"@,
        )),
{
    match verdict {
        None => None,
        Some(true) => Some(LoginOutcome::SignIn { username: info.username, reply: Reply::ok("Ok") }),
        Some(false) => Some(LoginOutcome::Refused { reply: Reply::forbidden("No") }),
    }
}

/// Signs in with the form `info` against the stored PHC hash of the user:
/// `None` where the stored hash does not parse; a sign-in exactly where Argon2
/// accepts the password's UTF-8 bytes against the hash; `403 No` otherwise.
pub fn login_api(info: LoginInfo, stored_hash: &str) -> (r: Option<LoginOutcome>)
    ensures
        r is None <==> !phc_parses(stored_hash@),
        phc_parses(stored_hash@) && argon2_accepts(encode_utf8(info.password@), stored_hash@)
            ==> (r matches Some(LoginOutcome::SignIn { username, reply }) && username
            == info.username && reply_is(reply, Status::Success, "Ok"@)),
        phc_parses(stored_hash@) && !argon2_accepts(encode_utf8(info.password@), stored_hash@)
            ==> (r matches Some(LoginOutcome::Refused { reply }) && reply_is(
            reply,
            Status::Forbidden,
            "No"@,
        )),
{
    let verdict = argon2_check(info.password.as_str().as_bytes(), stored_hash);
    decide_login(info, verdict)
}

} // verus!
