use argon2::password_hash::{PasswordHasher, SaltString};
use argon2::{Algorithm, Argon2, Params, Version};
use dept_tracker::auth::{
    auth_status, bootstrap_credentials, check_credentials, check_registration, gate_request,
    password_hash_set, session_valid_at, GateDecision,
};

fn hash_of(password: &str) -> String {
    // small cost parameters keep the test fast; verification reads them from the hash
    let salt = SaltString::encode_b64(b"fixed-salt-bytes").unwrap();
    let params = Params::new(8, 1, 1, None).unwrap();
    Argon2::new(Algorithm::Argon2id, Version::V0x13, params)
        .hash_password(password.as_bytes(), &salt)
        .unwrap()
        .to_string()
}

#[test]
fn account_exists_only_with_a_non_empty_hash() {
    assert!(!password_hash_set(&None));
    assert!(!password_hash_set(&Some(None)));
    assert!(!password_hash_set(&Some(Some(String::new()))));
    assert!(password_hash_set(&Some(Some("$argon2id$...".into()))));
}

#[test]
fn credentials_are_seeded_only_into_an_empty_installation() {
    assert_eq!(
        bootstrap_credentials(&Some(None), Some("admin".into()), Some("pw".into())),
        Some(("admin".to_string(), "pw".to_string()))
    );
    assert_eq!(bootstrap_credentials(&Some(Some("h".into())), Some("admin".into()), Some("pw".into())), None);
    assert_eq!(bootstrap_credentials(&None, Some("".into()), Some("pw".into())), None);
    assert_eq!(bootstrap_credentials(&None, Some("admin".into()), None), None);
}

#[test]
fn registration_rules() {
    assert_eq!(check_registration(true, "alice", "secret1"), Err("account already exists"));
    assert_eq!(check_registration(false, " alice ", "secret1"), Ok("alice".to_string()));
    assert_eq!(check_registration(false, "alice", "short"), Err("password too short"));
}

#[test]
fn sign_in_checks_user_and_password() {
    let stored = Some((Some("alice".to_string()), Some(hash_of("correct horse"))));
    assert_eq!(check_credentials(&stored, "alice", "correct horse"), Ok(()));
    assert_eq!(check_credentials(&stored, "alice", "wrong horse"), Err("invalid credentials"));
    assert_eq!(check_credentials(&stored, "Alice", "correct horse"), Err("invalid credentials"));
    let broken = Some((Some("alice".to_string()), Some("not a phc string".to_string())));
    assert_eq!(check_credentials(&broken, "alice", "correct horse"), Err("invalid credentials"));
    assert_eq!(check_credentials(&None, "alice", "x"), Err("auth not configured"));
    assert_eq!(check_credentials(&Some((Some("alice".into()), None)), "alice", "x"), Err("auth not configured"));
}

#[test]
fn sessions_expire() {
    let now = (1_700_000_000i64, 0u32); // 2023-11-14
    let stored = Some((Some("tok".to_string()), Some("2030-01-01T00:00:00+00:00".to_string())));
    assert!(session_valid_at("tok", &stored, now));
    assert!(!session_valid_at("other", &stored, now));
    assert!(!session_valid_at("", &stored, now));
    let expired = Some((Some("tok".to_string()), Some("2020-01-01T00:00:00Z".to_string())));
    assert!(!session_valid_at("tok", &expired, now));
    let garbled = Some((Some("tok".to_string()), Some("next tuesday".to_string())));
    assert!(!session_valid_at("tok", &garbled, now));
    assert!(!session_valid_at("tok", &None, now));
    // an offset is honoured: 01:00 at +01:00 is midnight UTC
    let exact = Some((Some("tok".to_string()), Some("2030-01-01T01:00:00+01:00".to_string())));
    assert!(!session_valid_at("tok", &exact, (1_893_456_000, 0)));
    assert!(session_valid_at("tok", &exact, (1_893_455_999, 999_999_999)));
}

#[test]
fn access_gate() {
    assert!(matches!(gate_request("/health", Err(()), false), GateDecision::Proceed));
    assert!(matches!(
        gate_request("/api/v1/loans", Err(()), true),
        GateDecision::Refuse { status: 500, message: "internal error" }
    ));
    assert!(matches!(
        gate_request("/api/v1/loans", Ok(false), true),
        GateDecision::Refuse { status: 401, message: "create an account first" }
    ));
    assert!(matches!(
        gate_request("/api/v1/loans", Ok(true), false),
        GateDecision::Refuse { status: 401, message: "authentication required" }
    ));
    assert!(matches!(gate_request("/api/v1/loans", Ok(true), true), GateDecision::Proceed));
}

#[test]
fn status_report() {
    assert_eq!(auth_status(false, true), (false, true, false));
    assert_eq!(auth_status(true, false), (true, false, false));
    assert_eq!(auth_status(true, true), (true, false, true));
}

#[test]
fn stored_credentials_sign_in() {
    let (user, hash) = dept_tracker::auth::credentials_to_store("alice", "open sesame").unwrap();
    assert_eq!(user, "alice");
    assert!(hash.starts_with("$argon2id$"));
    let stored = Some((Some(user), Some(hash)));
    assert_eq!(check_credentials(&stored, "alice", "open sesame"), Ok(()));
}
