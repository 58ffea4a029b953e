//! Request handling decisions of the HTTP API: request bodies, their checks, the
//! session cookie, and the errors the API answers with.

use vstd::prelude::*;
use vstd::string::*;
use crate::text::{decimal_string, is_blank_spec, str_equal, trim, trim_spec};
use crate::types::{parse_payment_type_spec, PaymentFrequency, PaymentType};

verus! {

#[derive(Clone, Copy, Debug, PartialEq, Eq, Structural)]
pub enum ApiErrorKind {
    BadRequest,
    Unauthorized,
    NotFound,
    Internal,
}

/// An error answer: its kind (HTTP status class) and message.
#[derive(Clone, Debug)]
pub struct ApiError {
    pub kind: ApiErrorKind,
    pub message: String,
}

pub open spec fn is_error(e: ApiError, kind: ApiErrorKind, message: Seq<char>) -> bool {
    e.kind == kind && e.message@ == message
}

impl ApiError {
    pub fn bad_request(message: &str) -> (e: ApiError)
        ensures
            is_error(e, ApiErrorKind::BadRequest, message@),
    {
        ApiError { kind: ApiErrorKind::BadRequest, message: String::from_str(message) }
    }

    pub fn unauthorized(message: &str) -> (e: ApiError)
        ensures
            is_error(e, ApiErrorKind::Unauthorized, message@),
    {
        ApiError { kind: ApiErrorKind::Unauthorized, message: String::from_str(message) }
    }

    pub fn not_found(message: &str) -> (e: ApiError)
        ensures
            is_error(e, ApiErrorKind::NotFound, message@),
    {
        ApiError { kind: ApiErrorKind::NotFound, message: String::from_str(message) }
    }

    pub fn internal(message: &str) -> (e: ApiError)
        ensures
            is_error(e, ApiErrorKind::Internal, message@),
    {
        ApiError { kind: ApiErrorKind::Internal, message: String::from_str(message) }
    }
}

/// Name of the session cookie.
pub const SESSION_COOKIE: &'static str = "dept_tracker_session";

/// Lifetime of a session cookie in seconds (30 days).
pub const SESSION_MAX_AGE_SECONDS: u64 = 30 * 24 * 3600;

pub open spec fn session_cookie_text(token: Seq<char>) -> Seq<char> {
    "dept_tracker_session="@ + token + "; Path=/; HttpOnly; SameSite=Lax; Max-Age="@
        + crate::calendar::decimal_digits(SESSION_MAX_AGE_SECONDS as nat)
}

/// `Set-Cookie` value that stores the session token for 30 days.
pub fn session_cookie(token: &str) -> (c: String)
    ensures
        c@ == session_cookie_text(token@),
{
    let mut c = String::from_str("dept_tracker_session=");
    c.append(token);
    c.append("; Path=/; HttpOnly; SameSite=Lax; Max-Age=");
    let age = decimal_string(SESSION_MAX_AGE_SECONDS);
    c.append(age.as_str());
    proof {
        assert(c@ =~= session_cookie_text(token@));
    }
    c
}

/// `Set-Cookie` value that removes the session cookie.
pub fn cleared_session_cookie() -> (c: String)
    ensures
        c@ == "dept_tracker_session=; Path=/; HttpOnly; SameSite=Lax; Max-Age=0"@,
{
    String::from_str("dept_tracker_session=; Path=/; HttpOnly; SameSite=Lax; Max-Age=0")
}

pub open spec fn parse_frequency_spec(s: Seq<char>) -> Option<PaymentFrequency> {
    if s == "monthly"@ {
        Some(PaymentFrequency::Monthly)
    } else if s == "yearly"@ {
        Some(PaymentFrequency::Yearly)
    } else {
        None
    }
}

pub fn parse_frequency(s: &str) -> (r: Result<PaymentFrequency, ApiError>)
    ensures
        match parse_frequency_spec(s@) {
            Some(f) => r == Ok::<PaymentFrequency, ApiError>(f),
            None => r matches Err(e) && is_error(e, ApiErrorKind::BadRequest, "invalid payment_frequency"@),
        },
{
    if str_equal(s, "monthly") {
        Ok(PaymentFrequency::Monthly)
    } else if str_equal(s, "yearly") {
        Ok(PaymentFrequency::Yearly)
    } else {
        Err(ApiError::bad_request("invalid payment_frequency"))
    }
}

pub fn parse_payment_type(s: &str) -> (r: Result<PaymentType, ApiError>)
    ensures
        match parse_payment_type_spec(s@) {
            Ok(t) => r == Ok::<PaymentType, ApiError>(t),
            Err(_) => r matches Err(e) && is_error(
                e,
                ApiErrorKind::BadRequest,
                "invalid payment_type; use tilgung_percent or tilgung_euro"@,
            ),
        },
{
    match PaymentType::parse(s) {
        Ok(t) => Ok(t),
        Err(_) => Err(ApiError::bad_request("invalid payment_type; use tilgung_percent or tilgung_euro")),
    }
}

/// Paths that are served without a session.
pub open spec fn is_public_path_spec(path: Seq<char>) -> bool {
    path == "/health"@ || path == "/auth/login"@ || path == "/auth/register"@ || path == "/auth/status"@
}

pub fn is_public_path(path: &str) -> (r: bool)
    ensures
        r == is_public_path_spec(path@),
{
    str_equal(path, "/health") || str_equal(path, "/auth/login") || str_equal(path, "/auth/register")
        || str_equal(path, "/auth/status")
}

/// UTF-8 length in bytes, as `str::len` reports it.
pub open spec fn byte_len(s: Seq<char>) -> int {
    (vstd::utf8::encode_utf8(s).len() as usize) as int
}

/// The account a registration creates: the trimmed user name, or the rule it breaks.
pub open spec fn new_account_spec(username: Seq<char>, password: Seq<char>) -> Result<Seq<char>, Seq<char>> {
    let user = trim_spec(username);
    if byte_len(user) < 2 {
        Err("username too short"@)
    } else if byte_len(user) > 64 {
        Err("username too long"@)
    } else if byte_len(password) < 6 {
        Err("password too short"@)
    } else {
        Ok(user)
    }
}

/// Checks a first account's user name and password.
pub fn check_new_account(username: &str, password: &str) -> (r: Result<String, &'static str>)
    ensures
        match new_account_spec(username@, password@) {
            Ok(u) => r matches Ok(s) && s@ == u,
            Err(m) => r matches Err(e) && e@ == m,
        },
{
    let user = trim(username);
    if user.len() < 2 {
        return Err("username too short");
    }
    if user.len() > 64 {
        return Err("username too long");
    }
    if password.len() < 6 {
        return Err("password too short");
    }
    Ok(String::from_str(user))
}

/// The pieces of `s` between semicolons (as `str::split(';')` yields them).
pub open spec fn split_at_semicolons(s: Seq<char>) -> Seq<Seq<char>>
    decreases s.len(),
{
    if s.len() == 0 {
        seq![Seq::<char>::empty()]
    } else {
        let p = split_at_semicolons(s.drop_last());
        if s.last() == ';' {
            p.push(Seq::<char>::empty())
        } else {
            p.update(p.len() - 1, p.last().push(s.last()))
        }
    }
}

pub open spec fn session_prefix() -> Seq<char> {
    "dept_tracker_session="@
}

/// The session token a single cookie pair carries, if it is the session cookie.
pub open spec fn session_value_spec(part: Seq<char>) -> Option<Seq<char>> {
    let t = trim_spec(part);
    let p = session_prefix();
    if t.len() >= p.len() && t.take(p.len() as int) == p {
        Some(t.skip(p.len() as int))
    } else {
        None
    }
}

/// The token of the first pair that is the session cookie.
pub open spec fn first_session_value(parts: Seq<Seq<char>>) -> Option<Seq<char>>
    decreases parts.len(),
{
    if parts.len() == 0 {
        None
    } else {
        match session_value_spec(parts[0]) {
            Some(v) => Some(v),
            None => first_session_value(parts.skip(1)),
        }
    }
}

pub proof fn lemma_split_len(s: Seq<char>)
    ensures
        split_at_semicolons(s).len() >= 1,
    decreases s.len(),
{
    if s.len() > 0 {
        lemma_split_len(s.drop_last());
    }
}

/// At a semicolon the pieces of the text are those before it followed by those after it.
pub proof fn lemma_split_at(s: Seq<char>, j: int)
    requires
        0 <= j < s.len(),
        s[j] == ';',
    ensures
        split_at_semicolons(s) == split_at_semicolons(s.take(j)) + split_at_semicolons(s.skip(j + 1)),
    decreases s.len(),
{
    if s.len() == j + 1 {
        assert(s.drop_last() =~= s.take(j));
        assert(s.skip(j + 1) =~= Seq::<char>::empty());
        assert(split_at_semicolons(s.take(j)).push(Seq::<char>::empty()) =~= split_at_semicolons(s.take(j))
            + seq![Seq::<char>::empty()]);
    } else {
        let d = s.drop_last();
        lemma_split_at(d, j);
        assert(d.take(j) =~= s.take(j));
        let r = s.skip(j + 1);
        assert(r.drop_last() =~= d.skip(j + 1));
        assert(r.last() == s.last());
        lemma_split_len(r.drop_last());
        let a = split_at_semicolons(s.take(j));
        let b = split_at_semicolons(d.skip(j + 1));
        if s.last() == ';' {
            assert((a + b).push(Seq::<char>::empty()) =~= a + b.push(Seq::<char>::empty()));
        } else {
            assert((a + b).update((a + b).len() - 1, (a + b).last().push(s.last())) =~= a + b.update(
                b.len() - 1,
                b.last().push(s.last()),
            ));
        }
    }
}

pub proof fn lemma_first_session_value_append(p: Seq<Seq<char>>, q: Seq<Seq<char>>)
    requires
        first_session_value(p) is None,
    ensures
        first_session_value(p + q) == first_session_value(q),
    decreases p.len(),
{
    if p.len() > 0 {
        assert((p + q).skip(1) =~= p.skip(1) + q);
        assert((p + q)[0] == p[0]);
        lemma_first_session_value_append(p.skip(1), q);
    } else {
        assert(p + q =~= q);
    }
}

/// The session token carried by one `name=value` pair, if it is the session cookie.
fn session_value_of(part: &str) -> (r: Option<String>)
    ensures
        match session_value_spec(part@) {
            Some(v) => r matches Some(s) && s@ == v,
            None => r is None,
        },
{
    let t = trim(part);
    let prefix = "dept_tracker_session=";
    proof {
        reveal_strlit("dept_tracker_session=");
    }
    let plen = prefix.unicode_len();
    let tlen = t.unicode_len();
    if tlen < plen {
        return None;
    }
    let mut i: usize = 0;
    while i < plen
        invariant
            plen == prefix@.len(),
            prefix@ == session_prefix(),
            tlen == t@.len(),
            t@ == trim_spec(part@),
            plen <= tlen,
            0 <= i <= plen,
            forall|k: int| 0 <= k < i ==> t@[k] == prefix@[k],
        decreases plen - i,
    {
        if t.get_char(i) != prefix.get_char(i) {
            proof {
                assert(t@.take(plen as int)[i as int] != session_prefix()[i as int]);
                assert(t@.take(plen as int) != session_prefix());
                assert(t@ == trim_spec(part@));
                assert(plen == session_prefix().len());
                assert(session_value_spec(part@) is None);
            }
            return None;
        }
        i = i + 1;
    }
    proof {
        assert(t@.take(plen as int) =~= session_prefix());
    }
    Some(String::from_str(t.substring_char(plen, tlen)))
}

/// The session token from a `Cookie` header: the value of the first
/// `dept_tracker_session=...` pair.
pub fn session_from_cookie_header(header: &str) -> (r: Option<String>)
    ensures
        match first_session_value(split_at_semicolons(header@)) {
            Some(v) => r matches Some(s) && s@ == v,
            None => r is None,
        },
{
    let n = header.unicode_len();
    let mut start: usize = 0;
    let mut i: usize = 0;
    let ghost mut done: Seq<Seq<char>> = Seq::empty();
    proof {
        assert(header@.take(0) =~= Seq::<char>::empty());
        assert(header@.subrange(0, 0) =~= Seq::<char>::empty());
        assert(split_at_semicolons(header@.take(0)) =~= done.push(header@.subrange(0, 0)));
    }
    while i < n
        invariant
            n == header@.len(),
            0 <= start <= i <= n,
            split_at_semicolons(header@.take(i as int)) == done.push(header@.subrange(start as int, i as int)),
            first_session_value(done) is None,
        decreases n - i,
    {
        let c = header.get_char(i);
        proof {
            assert(header@.take(i + 1).drop_last() =~= header@.take(i as int));
            assert(header@.take(i + 1).last() == c);
        }
        if c == ';' {
            let part = header.substring_char(start, i);
            let found = session_value_of(part);
            proof {
                lemma_split_at(header@, i as int);
                assert(split_at_semicolons(header@) == done.push(part@) + split_at_semicolons(header@.skip(i + 1)));
                assert(done.push(part@) + split_at_semicolons(header@.skip(i + 1)) =~= done + (seq![part@]
                    + split_at_semicolons(header@.skip(i + 1))));
                lemma_first_session_value_append(done, seq![part@] + split_at_semicolons(header@.skip(i + 1)));
                assert((seq![part@] + split_at_semicolons(header@.skip(i + 1)))[0] == part@);
                assert((seq![part@] + split_at_semicolons(header@.skip(i + 1))).skip(1) =~= split_at_semicolons(
                    header@.skip(i + 1),
                ));
            }
            match found {
                Some(v) => {
                    proof {
                        assert(first_session_value(split_at_semicolons(header@)) == session_value_spec(part@));
                        assert(session_value_spec(part@) is Some);
                        assert(session_value_spec(part@)->0 == v@);
                    }
                    return Some(v);
                },
                None => {},
            }
            proof {
                lemma_first_session_value_append(done, seq![part@]);
                assert(first_session_value(seq![part@].skip(1)) is None) by {
                    assert(seq![part@].skip(1) =~= Seq::<Seq<char>>::empty());
                }
                assert(done.push(part@) =~= done + seq![part@]);
                assert(first_session_value(seq![part@]) is None);
                done = done.push(part@);
                assert(header@.subrange(i + 1, i + 1) =~= Seq::<char>::empty());
                assert(done.push(Seq::<char>::empty()) =~= done.push(header@.subrange(i + 1, i + 1)));
            }
            start = i + 1;
        } else {
            proof {
                assert(header@.subrange(start as int, i + 1) =~= header@.subrange(start as int, i as int).push(c));
                assert(done.push(header@.subrange(start as int, i as int)).update(
                    done.len() as int,
                    header@.subrange(start as int, i as int).push(c),
                ) =~= done.push(header@.subrange(start as int, i + 1)));
            }
        }
        i = i + 1;
    }
    let part = header.substring_char(start, n);
    let found = session_value_of(part);
    proof {
        assert(header@.take(n as int) =~= header@);
        lemma_first_session_value_append(done, seq![part@]);
        assert(seq![part@].skip(1) =~= Seq::<Seq<char>>::empty());
        assert(done.push(part@) =~= done + seq![part@]);
    }
    found
}

} // verus!
