//! The single local account: whether credentials exist, which are seeded at start-up,
//! whether a sign-in succeeds, and whether a session token is still good.

use vstd::prelude::*;
use vstd::string::*;
use argon2::password_hash::{PasswordHasher, PasswordVerifier};
use crate::api::{check_new_account, is_public_path, is_public_path_spec, new_account_spec};
use crate::text::str_equal;

verus! {

/// Whether the stored settings hold a non-empty password hash (the outer `None`: no
/// settings row; the inner: no hash stored).
pub open spec fn hash_is_set(stored_hash: Option<Option<String>>) -> bool {
    stored_hash matches Some(Some(h)) && h@.len() > 0
}

/// Whether an account exists.
pub fn password_hash_set(stored_hash: &Option<Option<String>>) -> (r: bool)
    ensures
        r == hash_is_set(*stored_hash),
{
    match stored_hash {
        Some(Some(h)) => h.as_str().unicode_len() > 0,
        _ => false,
    }
}

pub open spec fn seeds_credentials(
    stored_hash: Option<Option<String>>,
    username: Option<String>,
    password: Option<String>,
) -> bool {
    &&& !hash_is_set(stored_hash)
    &&& username matches Some(u) && u@.len() > 0
    &&& password matches Some(p) && p@.len() > 0
}

/// The credentials to seed at start-up: only while no account exists, and only when both a
/// user name and a password were configured and neither is empty.
pub fn bootstrap_credentials(
    stored_hash: &Option<Option<String>>,
    username: Option<String>,
    password: Option<String>,
) -> (r: Option<(String, String)>)
    ensures
        r is Some <==> seeds_credentials(*stored_hash, username, password),
        r matches Some((u, p)) ==> username == Some(u) && password == Some(p),
{
    if password_hash_set(stored_hash) {
        return None;
    }
    match (username, password) {
        (Some(u), Some(p)) => {
            if u.as_str().unicode_len() > 0 && p.as_str().unicode_len() > 0 {
                Some((u, p))
            } else {
                None
            }
        },
        _ => None,
    }
}

/// The outcome of a registration: refused once an account exists, else the checks on the
/// new user name and password.
pub open spec fn registration_spec(account_exists: bool, username: Seq<char>, password: Seq<char>) -> Result<
    Seq<char>,
    Seq<char>,
> {
    if account_exists {
        Err("account already exists"@)
    } else {
        new_account_spec(username, password)
    }
}

/// Checks a registration; on success, the trimmed user name to store.
pub fn check_registration(account_exists: bool, username: &str, password: &str) -> (r: Result<
    String,
    &'static str,
>)
    ensures
        match registration_spec(account_exists, username@, password@) {
            Ok(u) => r matches Ok(s) && s@ == u,
            Err(m) => r matches Err(e) && e@ == m,
        },
{
    if account_exists {
        return Err("account already exists");
    }
    check_new_account(username, password)
}

/// Whether argon2 accepts `password` against the PHC hash string `hash`.
pub uninterp spec fn argon2_accepts(password: Seq<char>, hash: Seq<char>) -> bool;

/// Parses `hash` with `password_hash::PasswordHash::new` and, when it parses, calls
/// `verify_password` of the default `Argon2` on the password's bytes. Claimed: the answer
/// depends on the password and the hash text alone (the salt and parameters are read from
/// the hash); which pairs are accepted is left to argon2.
#[verifier::external_body]
fn verify_password(password: &str, hash: &str) -> (ok: bool)
    ensures
        ok == argon2_accepts(password@, hash@),
{
    match argon2::password_hash::PasswordHash::new(hash) {
        Ok(h) => argon2::Argon2::default().verify_password(password.as_bytes(), &h).is_ok(),
        Err(_) => false,
    }
}

/// Hashes `password` with the default `Argon2` and a fresh salt drawn from the operating
/// system (`SaltString::generate` with `OsRng`), rendered as a PHC string. Claimed: a hash
/// that comes back verifies the same password, since verification recomputes it from the
/// salt and parameters the string carries. The salt is random, so nothing is claimed of the
/// text itself; a failure comes back as argon2's message.
#[verifier::external_body]
fn hash_password(password: &str) -> (r: Result<String, String>)
    ensures
        r matches Ok(h) ==> argon2_accepts(password@, h@),
{
    let salt = argon2::password_hash::SaltString::generate(&mut argon2::password_hash::rand_core::OsRng);
    match argon2::Argon2::default().hash_password(password.as_bytes(), &salt) {
        Ok(h) => Ok(h.to_string()),
        Err(e) => Err(e.to_string()),
    }
}

/// The user name and password hash to store for an account.
pub fn credentials_to_store(username: &str, password: &str) -> (r: Result<(String, String), String>)
    ensures
        r matches Ok((u, h)) ==> u@ == username@ && argon2_accepts(password@, h@),
{
    match hash_password(password) {
        Ok(h) => Ok((String::from_str(username), h)),
        Err(e) => Err(e),
    }
}

/// The outcome of a sign-in against the stored user name and password hash.
pub open spec fn login_spec(stored: Option<(Option<String>, Option<String>)>, username: Seq<char>, password: Seq<char>) -> Result<
    (),
    Seq<char>,
> {
    match stored {
        Some((Some(user), Some(hash))) => {
            if user@ != username {
                Err("invalid credentials"@)
            } else if !argon2_accepts(password, hash@) {
                Err("invalid credentials"@)
            } else {
                Ok(())
            }
        },
        _ => Err("auth not configured"@),
    }
}

/// Checks a sign-in: the stored user name must match exactly and the password must verify
/// against the stored hash.
pub fn check_credentials(
    stored: &Option<(Option<String>, Option<String>)>,
    username: &str,
    password: &str,
) -> (r: Result<(), &'static str>)
    ensures
        match login_spec(*stored, username@, password@) {
            Ok(_) => r is Ok,
            Err(m) => r matches Err(e) && e@ == m,
        },
{
    match stored {
        Some((Some(user), Some(hash))) => {
            if !str_equal(user.as_str(), username) {
                return Err("invalid credentials");
            }
            if !verify_password(password, hash.as_str()) {
                return Err("invalid credentials");
            }
            Ok(())
        },
        _ => Err("auth not configured"),
    }
}

/// Credentials stored for an account sign that account in: the stored user name with the
/// password whose hash was stored is accepted.
pub proof fn lemma_stored_credentials_sign_in(user: String, hash: String, username: Seq<char>, password: Seq<char>)
    requires
        user@ == username,
        argon2_accepts(password, hash@),
    ensures
        login_spec(Some((Some(user), Some(hash))), username, password) is Ok,
{
}

/// The instant an RFC 3339 timestamp denotes, as seconds and nanoseconds since the Unix
/// epoch (UTC), if it parses.
pub uninterp spec fn rfc3339_instant(s: Seq<char>) -> Option<(i64, u32)>;

/// Calls chrono's `DateTime::parse_from_rfc3339` and reads the instant back with
/// `timestamp` and `timestamp_subsec_nanos`. Claimed: the outcome depends on the text
/// alone; which texts parse is left to chrono.
#[verifier::external_body]
fn parse_rfc3339(s: &str) -> (r: Option<(i64, u32)>)
    ensures
        r == rfc3339_instant(s@),
{
    match chrono::DateTime::parse_from_rfc3339(s) {
        Ok(dt) => Some((dt.timestamp(), dt.timestamp_subsec_nanos())),
        Err(_) => None,
    }
}

/// Whether instant `a` lies strictly after instant `b` (seconds, then nanoseconds).
pub open spec fn instant_after(a: (i64, u32), b: (i64, u32)) -> bool {
    a.0 > b.0 || (a.0 == b.0 && a.1 > b.1)
}

/// Whether a session token is good at instant `now`.
pub open spec fn session_valid_spec(token: Seq<char>, stored: Option<(Option<String>, Option<String>)>, now: (i64, u32)) -> bool {
    &&& token.len() > 0
    &&& stored matches Some((Some(t), Some(expires)))
    &&& t@ == token
    &&& rfc3339_instant(expires@) matches Some(at)
    &&& instant_after(at, now)
}

/// Checks a session token against the stored one at instant `now` (seconds and
/// nanoseconds since the Unix epoch): it must be non-empty, equal the stored token, and the
/// stored expiry must parse and lie after `now`.
pub fn session_valid_at(token: &str, stored: &Option<(Option<String>, Option<String>)>, now: (i64, u32)) -> (r: bool)
    ensures
        r == session_valid_spec(token@, *stored, now),
{
    if token.unicode_len() == 0 {
        return false;
    }
    match stored {
        Some((Some(t), Some(expires))) => {
            if !str_equal(t.as_str(), token) {
                return false;
            }
            match parse_rfc3339(expires.as_str()) {
                Some(at) => at.0 > now.0 || (at.0 == now.0 && at.1 > now.1),
                None => false,
            }
        },
        _ => false,
    }
}

} // verus!

verus! {

/// What the access check does with a request.
#[derive(Clone, Copy, Debug)]
pub enum GateDecision {
    /// Hand the request on.
    Proceed,
    /// Answer with this HTTP status and error message.
    Refuse { status: u16, message: &'static str },
}

/// The decision for a request to `path`, given whether the account lookup succeeded and
/// found an account, and whether the request carries a valid session.
pub open spec fn gate_spec(path: Seq<char>, auth_enabled: Result<bool, ()>, session_ok: bool) -> (u16, Seq<char>) {
    if is_public_path_spec(path) {
        (200, Seq::empty())
    } else {
        match auth_enabled {
            Err(_) => (500, "internal error"@),
            Ok(false) => (401, "create an account first"@),
            Ok(true) => if session_ok {
                (200, Seq::empty())
            } else {
                (401, "authentication required"@)
            },
        }
    }
}

/// Access check for every request: public paths always pass; otherwise an account must
/// exist and the request's session must be valid.
pub fn gate_request(path: &str, auth_enabled: Result<bool, ()>, session_ok: bool) -> (d: GateDecision)
    ensures
        gate_spec(path@, auth_enabled, session_ok).0 == 200 <==> d is Proceed,
        d matches GateDecision::Refuse { status, message } ==> status == gate_spec(
            path@,
            auth_enabled,
            session_ok,
        ).0 && message@ == gate_spec(path@, auth_enabled, session_ok).1,
{
    if is_public_path(path) {
        return GateDecision::Proceed;
    }
    match auth_enabled {
        Err(_) => GateDecision::Refuse { status: 500, message: "internal error" },
        Ok(false) => GateDecision::Refuse { status: 401, message: "create an account first" },
        Ok(true) => if session_ok {
            GateDecision::Proceed
        } else {
            GateDecision::Refuse { status: 401, message: "authentication required" }
        },
    }
}

/// What the status endpoint reports: whether an account exists, whether one still has to
/// be created, and whether the caller is signed in.
pub fn auth_status(auth_enabled: bool, session_ok: bool) -> (r: (bool, bool, bool))
    ensures
        r == (auth_enabled, !auth_enabled, auth_enabled && session_ok),
{
    (auth_enabled, !auth_enabled, auth_enabled && session_ok)
}

} // verus!
