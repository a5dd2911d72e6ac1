//! The decisions of the three authentication endpoints. Each endpoint
//! alternates with storage work that the caller performs; the functions
//! here take what storage answered and say what happens next.
//!
//! Login: read the parameters; reject invalid ones (recording a failure);
//! refuse while a lock holds; authenticate; issue a session.
//! Refresh: read the token; check the stored record; revoke it; issue a
//! replacement pair in the same session.
//! Current user: read the access token; check its claims; report the account.

use vstd::prelude::*;
use vstd::utf8::encode_utf8;

use crate::auth::{
    access_subject, argon2_verifies, is_v4_uuid, is_valid_email, normalize_email,
    normalized_email, sha256, uuid_hyphenated, uuid_simple, valid_email, verify_password, AccessTokenClaims,
    ACCESS_TOKEN_EXPIRES_IN, REFRESH_TOKEN_EXPIRES_IN,
};
use crate::encoding::{decimal, lower_hex};
use crate::fields::{
    opt_view, required_token, sanitize_optional_text, sanitized, select_required_token_field,
    select_string_field, selected_field, BodyValue,
};
use crate::responses::{
    auth_failed_error, auth_failed_response, invalid_params_error, invalid_params_response,
    rate_limited_error, rate_limited_response, refresh_token_invalid_error,
    refresh_token_invalid_response, ApiError,
};
use crate::risk::{max_or_zero, retry_after};
use crate::text::{str_eq, trim_str, trimmed};

verus! {

// ---------------------------------------------------------------------------
// Login
// ---------------------------------------------------------------------------

/// The inputs of a login as read from the request: e-mail and password as
/// given, the client address (defaulting to the connection's) and user
/// agent trimmed, blank ones absent.
#[derive(Debug, Clone)]
pub struct LoginParams {
    pub email: Option<String>,
    pub password: Option<String>,
    pub ip: Option<String>,
    pub user_agent: Option<String>,
}

/// The client address of a login: the selected address trimmed; when that
/// is blank or absent, the connection's address (an empty value counts as
/// missing, and a missing address is the one the server sees).
pub open spec fn login_ip(selected: Option<Seq<char>>, remote_ip: Seq<char>) -> Option<Seq<char>> {
    match sanitized(selected) {
        Some(i) => Some(i),
        None => sanitized(Some(remote_ip)),
    }
}

/// Reads the login inputs; any input present in an unusable form makes the
/// whole request invalid.
pub fn read_login_params(
    query: &[(String, String)],
    body_map: &[(String, BodyValue)],
    headers: &[(String, Vec<u8>)],
    remote_ip: &str,
) -> (res: Result<LoginParams, ApiError>)
    ensures
        ({
            let email = selected_field("email"@, query@, body_map@, headers@, None);
            let password = selected_field("password"@, query@, body_map@, headers@, None);
            let ip = selected_field("ip"@, query@, body_map@, headers@, Some(remote_ip@));
            let ua = selected_field("user_agent"@, query@, body_map@, headers@, None);
            let all_ok = email is Ok && password is Ok && ip is Ok && ua is Ok;
            &&& !all_ok ==> res == Err::<LoginParams, ApiError>(invalid_params_error())
            &&& all_ok ==> (res matches Ok(p) && email == Ok::<Option<Seq<char>>, ()>(opt_view(p.email))
                && password == Ok::<Option<Seq<char>>, ()>(opt_view(p.password))
                && opt_view(p.ip) == login_ip(ip->Ok_0, remote_ip@)
                && opt_view(p.user_agent) == sanitized(ua->Ok_0))
        }),
{
    let email = match select_string_field("email", query, body_map, headers, None) {
        Ok(value) => value,
        Err(_) => return Err(invalid_params_response()),
    };
    let password = match select_string_field("password", query, body_map, headers, None) {
        Ok(value) => value,
        Err(_) => return Err(invalid_params_response()),
    };
    let ip = match select_string_field("ip", query, body_map, headers, Some(remote_ip.to_owned())) {
        Ok(value) => match sanitize_optional_text(value) {
            Some(ip) => Some(ip),
            None => sanitize_optional_text(Some(remote_ip.to_owned())),
        },
        Err(_) => return Err(invalid_params_response()),
    };
    let user_agent = match select_string_field("user_agent", query, body_map, headers, None) {
        Ok(value) => sanitize_optional_text(value),
        Err(_) => return Err(invalid_params_response()),
    };
    Ok(LoginParams { email, password, ip, user_agent })
}

/// The e-mail a login is for: the normalised input, when it is a valid
/// address.
pub open spec fn login_email(raw: Option<Seq<char>>) -> Option<Seq<char>> {
    match raw {
        Some(r) => match normalized_email(r) {
            Some(n) => if valid_email(n) {
                Some(n)
            } else {
                None
            },
            None => None,
        },
        None => None,
    }
}

/// A usable password: present and not blank.
pub open spec fn usable_password(raw: Option<Seq<char>>) -> bool {
    raw matches Some(p) && trimmed(p).len() > 0
}

/// A login whose inputs are valid.
#[derive(Debug, Clone)]
pub struct LoginAttempt {
    pub email: String,
    pub password: String,
    pub ip: Option<String>,
    pub user_agent: Option<String>,
}

/// How a login goes on after its inputs are checked. A rejected login is
/// answered `invalid_params` after a failure is recorded against its address
/// and, when the e-mail was valid, its e-mail.
#[derive(Debug, Clone)]
pub enum LoginStart {
    Rejected { risk_email: Option<String>, ip: Option<String> },
    Accepted(LoginAttempt),
}

/// Checks the login inputs: a valid e-mail (after normalisation) and a
/// password that is not blank.
pub fn begin_login(params: LoginParams) -> (res: LoginStart)
    ensures
        ({
            let email = login_email(opt_view(params.email));
            let ok = email is Some && usable_password(opt_view(params.password));
            &&& ok ==> (res matches LoginStart::Accepted(a) && a.email@ == email->0
                && Some(a.password@) == opt_view(params.password)
                && opt_view(a.ip) == opt_view(params.ip)
                && opt_view(a.user_agent) == opt_view(params.user_agent))
            &&& !ok ==> (res matches LoginStart::Rejected { risk_email, ip } && opt_view(risk_email) == email
                && opt_view(ip) == opt_view(params.ip))
        }),
{
    let LoginParams { email: raw_email, password: raw_password, ip, user_agent } = params;
    let normalized = match &raw_email {
        Some(value) => normalize_email(value.as_str()),
        None => None,
    };
    let email_valid = match &normalized {
        Some(value) => is_valid_email(value.as_str()),
        None => false,
    };
    let password_valid = match &raw_password {
        Some(value) => !trim_str(value.as_str()).as_str().is_empty(),
        None => false,
    };
    match (normalized, raw_password) {
        (Some(email), Some(password)) if email_valid && password_valid => {
            LoginStart::Accepted(LoginAttempt { email, password, ip, user_agent })
        },
        (normalized, _) => {
            let risk_email = if email_valid {
                normalized
            } else {
                None
            };
            LoginStart::Rejected { risk_email, ip }
        },
    }
}

/// A login whose inputs are valid and that no lock holds back; only
/// `check_lock` makes one, so authentication cannot come before the lock
/// check.
#[derive(Debug, Clone)]
pub struct UnlockedLogin {
    attempt: LoginAttempt,
}

impl UnlockedLogin {
    /// The login attempt that passed the lock check.
    pub closed spec fn spec_attempt(&self) -> LoginAttempt {
        self.attempt
    }

    /// The login attempt that passed the lock check.
    pub fn attempt(&self) -> (res: &LoginAttempt)
        ensures
            *res == self.spec_attempt(),
    {
        &self.attempt
    }
}

/// Whether a login may go on, given the seconds that each lock it is
/// subject to still holds: refused with the longest wait while any holds.
pub fn check_lock(attempt: LoginAttempt, remaining: &[i64]) -> (res: Result<UnlockedLogin, ApiError>)
    ensures
        (exists|i: int| 0 <= i < remaining@.len() && remaining@[i] > 0) ==> res == Err::<UnlockedLogin, ApiError>(
            rate_limited_error(max_or_zero(remaining@) as i64),
        ),
        (forall|i: int| 0 <= i < remaining@.len() ==> remaining@[i] <= 0) ==> (res matches Ok(u) && u.spec_attempt() == attempt),
{
    match retry_after(remaining) {
        Some(wait) => Err(rate_limited_response(wait)),
        None => Ok(UnlockedLogin { attempt }),
    }
}

/// A stored account as the login reads it.
#[derive(Debug, Clone)]
pub struct UserRecord {
    pub id: i64,
    pub email: String,
    pub password_hash: String,
    pub status: String,
}

/// An account may log in: it exists, is active, and the password matches.
pub open spec fn login_succeeds(user: Option<UserRecord>, password: Seq<char>) -> bool {
    user matches Some(u) && u.status@ == "active"@ && argon2_verifies(encode_utf8(password), u.password_hash@)
}

/// Authenticates a login against the stored account for its e-mail. An
/// unknown account, a disabled one and a wrong password all give the same
/// answer, and the password of an inactive account is not checked.
pub fn authenticate(login: &UnlockedLogin, user: Option<&UserRecord>) -> (res: Result<i64, ApiError>)
    ensures
        match user {
            Some(u) => if login_succeeds(Some(*u), login.spec_attempt().password@) {
                res == Ok::<i64, ApiError>(u.id)
            } else {
                res == Err::<i64, ApiError>(auth_failed_error())
            },
            None => res == Err::<i64, ApiError>(auth_failed_error()),
        },
{
    match user {
        None => Err(auth_failed_response()),
        Some(user) => {
            if !str_eq(user.status.as_str(), "active") {
                return Err(auth_failed_response());
            }
            if !verify_password(login.attempt().password.as_str(), user.password_hash.as_str()) {
                return Err(auth_failed_response());
            }
            Ok(user.id)
        },
    }
}

/// The credentials of a new session, or of a rotation within one: a new
/// refresh token with the fingerprint it is stored under and its record,
/// and the claims of the accompanying access token.
#[derive(Debug, Clone)]
pub struct IssuedTokens {
    pub record_id: String,
    pub user_id: i64,
    pub session_id: String,
    pub refresh_token: String,
    pub refresh_token_hash: String,
    pub issued_at: i64,
    pub expires_at: i64,
    pub access_claims: AccessTokenClaims,
}

/// The credentials issued at `now` for `user_id` in `session_id`: a fresh
/// refresh token stored by its fingerprint, valid `REFRESH_TOKEN_EXPIRES_IN`
/// seconds, and access claims of the same user and session.
pub fn issue_tokens(user_id: i64, session_id: String, now: i64) -> (res: IssuedTokens)
    requires
        now + REFRESH_TOKEN_EXPIRES_IN <= i64::MAX,
    ensures
        res.user_id == user_id,
        res.session_id@ == session_id@,
        res.refresh_token_hash@ == lower_hex(sha256(encode_utf8(res.refresh_token@))),
        exists|a: Seq<u8>, b: Seq<u8>|
            is_v4_uuid(a) && is_v4_uuid(b) && res.refresh_token@ == uuid_simple(a) + uuid_simple(b),
        exists|b: Seq<u8>| is_v4_uuid(b) && res.record_id@ == uuid_hyphenated(b),
        res.issued_at == now,
        res.expires_at == now + REFRESH_TOKEN_EXPIRES_IN,
        res.access_claims.sub@ == decimal(user_id as int),
        res.access_claims.session_id@ == session_id@,
        res.access_claims.token_type@ == "access"@,
        res.access_claims.iat == now as usize,
        res.access_claims.exp == (now + ACCESS_TOKEN_EXPIRES_IN) as usize,
{
    let refresh_token = crate::auth::generate_refresh_token();
    let refresh_token_hash = crate::auth::hash_token(refresh_token.as_str());
    let access_claims = AccessTokenClaims::for_session(user_id, session_id.as_str(), now);
    IssuedTokens {
        record_id: crate::auth::new_uuid_v4(),
        user_id,
        session_id,
        refresh_token,
        refresh_token_hash,
        issued_at: now,
        expires_at: now + REFRESH_TOKEN_EXPIRES_IN,
        access_claims,
    }
}

/// The credentials of a new login session: a fresh random session id.
pub fn start_session(user_id: i64, now: i64) -> (res: IssuedTokens)
    requires
        now + REFRESH_TOKEN_EXPIRES_IN <= i64::MAX,
    ensures
        res.user_id == user_id,
        exists|b: Seq<u8>| is_v4_uuid(b) && res.session_id@ == uuid_hyphenated(b),
        res.refresh_token_hash@ == lower_hex(sha256(encode_utf8(res.refresh_token@))),
        res.issued_at == now,
        res.expires_at == now + REFRESH_TOKEN_EXPIRES_IN,
        res.access_claims.sub@ == decimal(user_id as int),
        res.access_claims.session_id@ == res.session_id@,
        res.access_claims.token_type@ == "access"@,
        res.access_claims.iat == now as usize,
        res.access_claims.exp == (now + ACCESS_TOKEN_EXPIRES_IN) as usize,
        exists|a: Seq<u8>, b: Seq<u8>|
            is_v4_uuid(a) && is_v4_uuid(b) && res.refresh_token@ == uuid_simple(a) + uuid_simple(b),
        exists|b: Seq<u8>| is_v4_uuid(b) && res.record_id@ == uuid_hyphenated(b),
{
    let session_id = crate::auth::new_uuid_v4();
    issue_tokens(user_id, session_id, now)
}

// ---------------------------------------------------------------------------
// Refresh
// ---------------------------------------------------------------------------

/// Reads the refresh token, which must be present and not blank.
pub fn read_refresh_token(
    query: &[(String, String)],
    body_map: &[(String, BodyValue)],
    headers: &[(String, Vec<u8>)],
) -> (res: Result<String, ApiError>)
    ensures
        match required_token(selected_field("refresh_token"@, query@, body_map@, headers@, None)) {
            Some(t) => res matches Ok(r) && r@ == t,
            None => res == Err::<String, ApiError>(invalid_params_error()),
        },
{
    match select_required_token_field("refresh_token", query, body_map, headers) {
        Ok(token) => Ok(token),
        Err(_) => Err(invalid_params_response()),
    }
}

/// A stored refresh token with its account, as the refresh reads it.
#[derive(Debug, Clone)]
pub struct StoredRefreshToken {
    pub id: String,
    pub user_id: i64,
    pub session_id: String,
    pub expires_at: i64,
    pub revoked_at: Option<i64>,
    pub email: String,
    pub status: String,
}

/// What a refresh answers for the record found under the token's
/// fingerprint: an unknown token is invalid; a disabled account fails
/// authentication; a revoked or expired token is invalid; otherwise the
/// token may be rotated. When several hold, the account is reported first.
pub open spec fn refresh_check(record: Option<StoredRefreshToken>, now: int) -> Result<(), ApiError> {
    match record {
        None => Err(refresh_token_invalid_error()),
        Some(r) => if r.status@ != "active"@ {
            Err(auth_failed_error())
        } else if r.revoked_at is Some || r.expires_at <= now {
            Err(refresh_token_invalid_error())
        } else {
            Ok(())
        },
    }
}

/// Checks the stored record of a refresh token before it is rotated.
pub fn check_refresh_token(record: Option<&StoredRefreshToken>, now: i64) -> (res: Result<(), ApiError>)
    ensures
        res == refresh_check(
            match record { Some(r) => Some(*r), None => None },
            now as int,
        ),
{
    match record {
        None => Err(refresh_token_invalid_response()),
        Some(r) => {
            if !str_eq(r.status.as_str(), "active") {
                Err(auth_failed_response())
            } else if r.revoked_at.is_some() || r.expires_at <= now {
                Err(refresh_token_invalid_response())
            } else {
                Ok(())
            }
        },
    }
}

/// Whether the revocation of the old token took effect: when no record was
/// revoked, another request used the token first, and this one fails.
pub fn check_revocation(rows_affected: u64) -> (res: Result<(), ApiError>)
    ensures
        rows_affected == 0 ==> res == Err::<(), ApiError>(refresh_token_invalid_error()),
        rows_affected > 0 ==> res is Ok,
{
    if rows_affected == 0 {
        Err(refresh_token_invalid_response())
    } else {
        Ok(())
    }
}

/// The credentials that replace a refresh token: a new pair in the same
/// session of the same user.
pub fn rotate_tokens(record: &StoredRefreshToken, now: i64) -> (res: IssuedTokens)
    requires
        now + REFRESH_TOKEN_EXPIRES_IN <= i64::MAX,
    ensures
        res.user_id == record.user_id,
        res.session_id@ == record.session_id@,
        res.refresh_token_hash@ == lower_hex(sha256(encode_utf8(res.refresh_token@))),
        res.issued_at == now,
        res.expires_at == now + REFRESH_TOKEN_EXPIRES_IN,
        res.access_claims.sub@ == decimal(record.user_id as int),
        res.access_claims.session_id@ == record.session_id@,
        res.access_claims.token_type@ == "access"@,
        res.access_claims.iat == now as usize,
        res.access_claims.exp == (now + ACCESS_TOKEN_EXPIRES_IN) as usize,
        exists|a: Seq<u8>, b: Seq<u8>|
            is_v4_uuid(a) && is_v4_uuid(b) && res.refresh_token@ == uuid_simple(a) + uuid_simple(b),
        exists|b: Seq<u8>| is_v4_uuid(b) && res.record_id@ == uuid_hyphenated(b),
{
    issue_tokens(record.user_id, record.session_id.clone(), now)
}

// ---------------------------------------------------------------------------
// Current user
// ---------------------------------------------------------------------------

/// Reads the access token, which must be present and not blank; it is read
/// from the query or the headers only.
pub fn read_access_token(query: &[(String, String)], headers: &[(String, Vec<u8>)]) -> (res: Result<String, ApiError>)
    ensures
        match required_token(selected_field("access_token"@, query@, Seq::empty(), headers@, None)) {
            Some(t) => res matches Ok(r) && r@ == t,
            None => res == Err::<String, ApiError>(invalid_params_error()),
        },
{
    let no_body: Vec<(String, BodyValue)> = Vec::new();
    assert(no_body@ =~= Seq::<(String, BodyValue)>::empty());
    match select_required_token_field("access_token", query, no_body.as_slice(), headers) {
        Ok(token) => Ok(token),
        Err(_) => Err(invalid_params_response()),
    }
}

/// The user an access token stands for, given its decoded claims (nothing
/// when it did not decode): the claims must be of an access token with a
/// decimal `i64` subject.
pub fn access_token_user(claims: Option<&AccessTokenClaims>) -> (res: Result<i64, ApiError>)
    ensures
        match claims {
            Some(c) => match access_subject(*c) {
                Some(id) => res == Ok::<i64, ApiError>(id as i64),
                None => res == Err::<i64, ApiError>(auth_failed_error()),
            },
            None => res == Err::<i64, ApiError>(auth_failed_error()),
        },
{
    match claims {
        None => Err(auth_failed_response()),
        Some(c) => match c.subject_user_id() {
            Some(id) => Ok(id),
            None => Err(auth_failed_response()),
        },
    }
}

/// A stored account as the current-user endpoint reads it.
#[derive(Debug, Clone)]
pub struct AccountRecord {
    pub id: i64,
    pub email: String,
    pub status: String,
}

/// The answer about the account of an access token: the account when it
/// exists and is active; a failed authentication otherwise.
pub fn current_user_result(account: Option<AccountRecord>) -> (res: Result<crate::responses::CurrentUserResult, ApiError>)
    ensures
        match account {
            Some(a) => if a.status@ == "active"@ {
                res matches Ok(r) && r.id == a.id && r.email@ == a.email@ && r.status@ == a.status@
            } else {
                res == Err::<crate::responses::CurrentUserResult, ApiError>(auth_failed_error())
            },
            None => res == Err::<crate::responses::CurrentUserResult, ApiError>(auth_failed_error()),
        },
{
    match account {
        None => Err(auth_failed_response()),
        Some(a) => {
            if !str_eq(a.status.as_str(), "active") {
                return Err(auth_failed_response());
            }
            Ok(crate::responses::CurrentUserResult { id: a.id, email: a.email, status: a.status })
        },
    }
}

// ---------------------------------------------------------------------------
// Laws
// ---------------------------------------------------------------------------

/// A refresh token that has been revoked (for instance by an earlier
/// rotation) can never be rotated again.
pub proof fn law_revoked_token_never_rotates(record: StoredRefreshToken, now: int)
    requires
        record.revoked_at is Some,
    ensures
        refresh_check(Some(record), now) is Err,
{
}

/// An expired refresh token can never be rotated.
pub proof fn law_expired_token_never_rotates(record: StoredRefreshToken, now: int)
    requires
        record.expires_at <= now,
    ensures
        refresh_check(Some(record), now) is Err,
{
}

/// A disabled account cannot refresh, whatever the state of its token.
pub proof fn law_disabled_account_cannot_refresh(record: StoredRefreshToken, now: int)
    requires
        record.status@ != "active"@,
    ensures
        refresh_check(Some(record), now) == Err::<(), ApiError>(auth_failed_error()),
{
}

/// A disabled account cannot log in, whatever the password.
pub proof fn law_disabled_account_cannot_log_in(user: UserRecord, password: Seq<char>)
    requires
        user.status@ != "active"@,
    ensures
        !login_succeeds(Some(user), password),
{
}

/// A refresh token is rotated exactly when its account is active, it has
/// not been revoked and it has not yet expired: a live token of an active
/// account is accepted however much of its lifetime is left.
pub proof fn law_live_token_rotates(record: StoredRefreshToken, now: int)
    ensures
        refresh_check(Some(record), now) is Ok <==> (record.status@ == "active"@ && record.revoked_at is None
            && now < record.expires_at),
        record.status@ == "active"@ && record.revoked_at is None && now < record.expires_at
            ==> refresh_check(Some(record), now) == Ok::<(), ApiError>(()),
{
}

/// A login of an active account checks the password exactly as it was
/// typed: it succeeds when the UTF-8 bytes of that password verify against
/// the stored hash (as they do for the hash that `hash_password` made of
/// it), and fails when they do not.
pub proof fn law_login_checks_password_as_typed(user: UserRecord, password: Seq<char>)
    requires
        user.status@ == "active"@,
    ensures
        login_succeeds(Some(user), password) <==> argon2_verifies(encode_utf8(password), user.password_hash@),
{
}

/// No login succeeds without a stored account.
pub proof fn law_unknown_account_cannot_log_in(password: Seq<char>)
    ensures
        !login_succeeds(None, password),
{
}

} // verus!
