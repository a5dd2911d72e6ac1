use login_demo::auth::{
    hash_password, hash_token, AccessTokenClaims, ACCESS_TOKEN_EXPIRES_IN, REFRESH_TOKEN_EXPIRES_IN,
};
use login_demo::endpoints::{
    access_token_user, authenticate, begin_login, check_lock, check_refresh_token, check_revocation,
    current_user_result, read_access_token, read_login_params, read_refresh_token, rotate_tokens,
    start_session, AccountRecord, LoginAttempt, LoginParams, LoginStart, StoredRefreshToken,
    UnlockedLogin, UserRecord,
};
use login_demo::fields::BodyValue;
use login_demo::responses::{
    auth_failed_response, internal_error_response, invalid_params_response, login_result,
    rate_limited_response, refresh_result, refresh_token_invalid_response, ApiError,
};

fn q(pairs: &[(&str, &str)]) -> Vec<(String, String)> {
    pairs.iter().map(|(k, v)| (k.to_string(), v.to_string())).collect()
}

fn same(a: &ApiError, b: &ApiError) -> bool {
    a.status == b.status && a.name == b.name && a.message == b.message && a.retry_after_seconds == b.retry_after_seconds
}

fn params(email: Option<&str>, password: Option<&str>) -> LoginParams {
    LoginParams {
        email: email.map(str::to_string),
        password: password.map(str::to_string),
        ip: Some("10.0.0.1".to_string()),
        user_agent: None,
    }
}

fn unlocked(password: &str) -> UnlockedLogin {
    check_lock(attempt(password), &[0]).ok().unwrap()
}

fn attempt(password: &str) -> LoginAttempt {
    LoginAttempt {
        email: "test1@brain.im".to_string(),
        password: password.to_string(),
        ip: Some("10.0.0.1".to_string()),
        user_agent: None,
    }
}

fn stored(status: &str, expires_at: i64, revoked_at: Option<i64>) -> StoredRefreshToken {
    StoredRefreshToken {
        id: "rec-1".to_string(),
        user_id: 7,
        session_id: "sess-1".to_string(),
        expires_at,
        revoked_at,
        email: "test1@brain.im".to_string(),
        status: status.to_string(),
    }
}

#[test]
fn error_answers_have_fixed_names_and_messages() {
    let e = invalid_params_response();
    assert_eq!((e.status, e.name, e.message), (400, "invalid_params", "invalid params"));
    let e = auth_failed_response();
    assert_eq!((e.status, e.name, e.message), (401, "auth_failed", "authentication failed"));
    let e = refresh_token_invalid_response();
    assert_eq!((e.status, e.name, e.message), (401, "refresh_token_invalid", "refresh token invalid"));
    let e = internal_error_response();
    assert_eq!((e.status, e.name, e.message), (500, "internal_error", "internal server error"));
    let e = rate_limited_response(42);
    assert_eq!((e.status, e.name, e.message), (429, "rate_limited", "too many attempts, try again later"));
    assert_eq!(e.retry_after_seconds, Some(42));
}

#[test]
fn rate_limit_wait_is_never_negative() {
    assert_eq!(rate_limited_response(-3).retry_after_seconds, Some(0));
    assert_eq!(rate_limited_response(0).retry_after_seconds, Some(0));
}

#[test]
fn login_params_default_address_to_connection() {
    let query = q(&[("email", "A@B.co"), ("password", "pw")]);
    let p = read_login_params(&query, &[], &[], "127.0.0.1").unwrap();
    assert_eq!(p.email.as_deref(), Some("A@B.co"));
    assert_eq!(p.password.as_deref(), Some("pw"));
    assert_eq!(p.ip.as_deref(), Some("127.0.0.1"));
    assert_eq!(p.user_agent, None);
}

#[test]
fn login_params_with_non_string_body_value_are_invalid() {
    let body = vec![("password".to_string(), BodyValue::NotText)];
    let err = read_login_params(&[], &body, &[], "127.0.0.1").err().unwrap();
    assert!(same(&err, &invalid_params_response()));
}

#[test]
fn valid_login_inputs_are_accepted_normalised() {
    match begin_login(params(Some("  Test1@Brain.IM "), Some(" pw "))) {
        LoginStart::Accepted(a) => {
            assert_eq!(a.email, "test1@brain.im");
            assert_eq!(a.password, " pw ");
            assert_eq!(a.ip.as_deref(), Some("10.0.0.1"));
        }
        LoginStart::Rejected { .. } => panic!("expected acceptance"),
    }
}

#[test]
fn bad_password_rejects_but_keeps_valid_email_for_counting() {
    match begin_login(params(Some("Test1@Brain.IM"), Some("   "))) {
        LoginStart::Rejected { risk_email, ip } => {
            assert_eq!(risk_email.as_deref(), Some("test1@brain.im"));
            assert_eq!(ip.as_deref(), Some("10.0.0.1"));
        }
        LoginStart::Accepted(_) => panic!("expected rejection"),
    }
}

#[test]
fn invalid_email_rejects_without_email_for_counting() {
    for (email, password) in [(Some("not-an-email"), Some("pw")), (None, Some("pw")), (Some("a@b.c"), None)] {
        match begin_login(params(email, password)) {
            LoginStart::Rejected { risk_email, .. } => {
                if email == Some("a@b.c") {
                    assert_eq!(risk_email.as_deref(), Some("a@b.c"));
                } else {
                    assert_eq!(risk_email, None);
                }
            }
            LoginStart::Accepted(_) => panic!("expected rejection"),
        }
    }
}

#[test]
fn lock_check_refuses_while_any_lock_holds() {
    let refused = check_lock(attempt("pw"), &[0, 120, 30]).err().unwrap();
    assert!(same(&refused, &rate_limited_response(120)));
    let passed = check_lock(attempt("pw"), &[0, 0]).ok().unwrap();
    assert_eq!(passed.attempt().email, "test1@brain.im");
    assert!(check_lock(attempt("pw"), &[]).is_ok());
}

#[test]
fn authentication_accepts_the_right_password_of_an_active_account() {
    let hash = hash_password("pw-1").unwrap();
    let user = UserRecord { id: 3, email: "test1@brain.im".to_string(), password_hash: hash, status: "active".to_string() };
    assert_eq!(authenticate(&unlocked("pw-1"), Some(&user)).ok(), Some(3));
}

#[test]
fn unknown_account_wrong_password_and_disabled_account_fail_alike() {
    let hash = hash_password("pw-1").unwrap();
    let active = UserRecord { id: 3, email: "test1@brain.im".to_string(), password_hash: hash.clone(), status: "active".to_string() };
    let disabled = UserRecord { status: "disabled".to_string(), ..active.clone() };
    let missing = authenticate(&unlocked("pw-1"), None).err().unwrap();
    let wrong = authenticate(&unlocked("pw-2"), Some(&active)).err().unwrap();
    let off = authenticate(&unlocked("pw-1"), Some(&disabled)).err().unwrap();
    assert!(same(&missing, &auth_failed_response()));
    assert!(same(&wrong, &missing));
    assert!(same(&off, &missing));
}

#[test]
fn new_session_tokens_fit_together() {
    let now = 1_700_000_000;
    let issued = start_session(9, now);
    assert_eq!(issued.user_id, 9);
    assert_eq!(issued.session_id.len(), 36);
    assert_eq!(issued.refresh_token.len(), 64);
    assert_eq!(issued.refresh_token_hash, hash_token(&issued.refresh_token));
    assert_eq!(issued.issued_at, now);
    assert_eq!(issued.expires_at - issued.issued_at, REFRESH_TOKEN_EXPIRES_IN);
    assert_eq!(issued.access_claims.session_id, issued.session_id);
    assert_eq!(issued.access_claims.subject_user_id(), Some(9));
    assert_eq!(issued.record_id.len(), 36);
    assert_ne!(issued.record_id, issued.session_id);
}

#[test]
fn login_and_refresh_results_carry_lifetimes() {
    let r = login_result("a".to_string(), "r".to_string());
    assert_eq!(r.access_token_expires_in, 7_200);
    assert_eq!(r.refresh_token_expires_in, 2_592_000);
    assert_eq!(r.token_type, "Bearer");
    let r = refresh_result("a2".to_string(), "r2".to_string());
    assert_eq!((r.access_token.as_str(), r.refresh_token.as_str()), ("a2", "r2"));
    assert_eq!(r.access_token_expires_in, ACCESS_TOKEN_EXPIRES_IN);
    assert_eq!(r.token_type, "Bearer");
}

#[test]
fn refresh_token_is_required() {
    assert_eq!(read_refresh_token(&q(&[("refresh_token", "abc")]), &[], &[]).ok().as_deref(), Some("abc"));
    let err = read_refresh_token(&[], &[], &[]).err().unwrap();
    assert!(same(&err, &invalid_params_response()));
    let headers = vec![("refresh_token".to_string(), b"from-header".to_vec())];
    assert_eq!(read_refresh_token(&[], &[], &headers).ok().as_deref(), Some("from-header"));
}

#[test]
fn refresh_record_checks() {
    let now = 1_000;
    assert!(check_refresh_token(Some(&stored("active", 2_000, None)), now).is_ok());
    let unknown = check_refresh_token(None, now).err().unwrap();
    assert!(same(&unknown, &refresh_token_invalid_response()));
    let revoked = check_refresh_token(Some(&stored("active", 2_000, Some(900))), now).err().unwrap();
    assert!(same(&revoked, &refresh_token_invalid_response()));
    let expired = check_refresh_token(Some(&stored("active", 1_000, None)), now).err().unwrap();
    assert!(same(&expired, &refresh_token_invalid_response()));
    let disabled = check_refresh_token(Some(&stored("disabled", 2_000, None)), now).err().unwrap();
    assert!(same(&disabled, &auth_failed_response()));
    let both = check_refresh_token(Some(&stored("disabled", 500, Some(400))), now).err().unwrap();
    assert!(same(&both, &auth_failed_response()));
}

#[test]
fn concurrent_reuse_fails_the_second_rotation() {
    assert!(check_revocation(1).is_ok());
    let err = check_revocation(0).err().unwrap();
    assert!(same(&err, &refresh_token_invalid_response()));
}

#[test]
fn rotation_keeps_user_and_session() {
    let record = stored("active", 2_000, None);
    let issued = rotate_tokens(&record, 1_000);
    assert_eq!(issued.user_id, 7);
    assert_eq!(issued.session_id, "sess-1");
    assert_eq!(issued.access_claims.session_id, "sess-1");
    assert_eq!(issued.access_claims.subject_user_id(), Some(7));
    assert_eq!(issued.expires_at, 1_000 + REFRESH_TOKEN_EXPIRES_IN);
}

#[test]
fn access_token_read_from_bearer_header() {
    let headers = vec![("authorization".to_string(), b"Bearer t0k".to_vec())];
    assert_eq!(read_access_token(&[], &headers).ok().as_deref(), Some("t0k"));
    let err = read_access_token(&[], &[]).err().unwrap();
    assert!(same(&err, &invalid_params_response()));
    let blank = vec![("authorization".to_string(), b"Bearer   ".to_vec())];
    assert!(read_access_token(&[], &blank).is_err());
}

#[test]
fn access_claims_resolve_to_their_user() {
    let claims = AccessTokenClaims::for_session(11, "s", 0);
    assert_eq!(access_token_user(Some(&claims)).ok(), Some(11));
    let err = access_token_user(None).err().unwrap();
    assert!(same(&err, &auth_failed_response()));
    let mut other = claims.clone();
    other.token_type = "refresh".to_string();
    assert!(same(&access_token_user(Some(&other)).err().unwrap(), &auth_failed_response()));
}

#[test]
fn current_user_requires_an_active_account() {
    let account = AccountRecord { id: 5, email: "test2@brain.im".to_string(), status: "active".to_string() };
    let r = current_user_result(Some(account.clone())).ok().unwrap();
    assert_eq!((r.id, r.email.as_str(), r.status.as_str()), (5, "test2@brain.im", "active"));
    let off = AccountRecord { status: "disabled".to_string(), ..account };
    assert!(same(&current_user_result(Some(off)).err().unwrap(), &auth_failed_response()));
    assert!(same(&current_user_result(None).err().unwrap(), &auth_failed_response()));
}

#[test]
fn blank_ip_defaults_to_connection_address() {
    let query = q(&[("email", "a@b.co"), ("password", "pw"), ("ip", "")]);
    let p = read_login_params(&query, &[], &[], "192.0.2.7").unwrap();
    assert_eq!(p.ip.as_deref(), Some("192.0.2.7"));
    let spaces = q(&[("ip", "   ")]);
    let p = read_login_params(&spaces, &[], &[], "192.0.2.7").unwrap();
    assert_eq!(p.ip.as_deref(), Some("192.0.2.7"));
    let given = q(&[("ip", " 10.1.1.1 ")]);
    let p = read_login_params(&given, &[], &[], "192.0.2.7").unwrap();
    assert_eq!(p.ip.as_deref(), Some("10.1.1.1"));
}

#[test]
fn issued_access_tokens_live_two_hours() {
    let now = 1_700_000_000;
    let issued = start_session(4, now);
    assert_eq!(issued.access_claims.iat, now as usize);
    assert_eq!(issued.access_claims.exp, (now + ACCESS_TOKEN_EXPIRES_IN) as usize);
    let rotated = rotate_tokens(&stored("active", now + 10, None), now);
    assert_eq!(rotated.access_claims.token_type, "access");
    assert_eq!(rotated.access_claims.iat, now as usize);
    assert_eq!(rotated.access_claims.exp, (now + ACCESS_TOKEN_EXPIRES_IN) as usize);
    assert_eq!(rotated.refresh_token.len(), 64);
    assert_eq!(rotated.record_id.len(), 36);
}
