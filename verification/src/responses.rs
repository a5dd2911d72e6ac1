//! What the endpoints answer: the uniform error body (`name`, `message`,
//! `data`) with its HTTP status, and the successful results.

use vstd::prelude::*;

use crate::auth::{ACCESS_TOKEN_EXPIRES_IN, REFRESH_TOKEN_EXPIRES_IN};

verus! {

/// A failure answer: HTTP status, failure name, its fixed message, and for
/// a rate limit the seconds to wait (the only data a failure carries).
#[derive(Debug, Clone, Copy)]
pub struct ApiError {
    pub status: u16,
    pub name: &'static str,
    pub message: &'static str,
    pub retry_after_seconds: Option<i64>,
}

/// A missing, malformed or unusable input.
pub open spec fn invalid_params_error() -> ApiError {
    ApiError { status: 400, name: "invalid_params", message: "invalid params", retry_after_seconds: None }
}

/// A refusal because a lock still holds for `retry` more seconds.
pub open spec fn rate_limited_error(retry: i64) -> ApiError {
    ApiError {
        status: 429,
        name: "rate_limited",
        message: "too many attempts, try again later",
        retry_after_seconds: Some(if retry > 0 { retry } else { 0 }),
    }
}

/// Unknown account, wrong password, disabled account or unusable access
/// token: one answer for all of them.
pub open spec fn auth_failed_error() -> ApiError {
    ApiError { status: 401, name: "auth_failed", message: "authentication failed", retry_after_seconds: None }
}

/// A refresh token that is unknown, revoked, expired or already used.
pub open spec fn refresh_token_invalid_error() -> ApiError {
    ApiError {
        status: 401,
        name: "refresh_token_invalid",
        message: "refresh token invalid",
        retry_after_seconds: None,
    }
}

/// A failure of the service itself.
pub open spec fn internal_error() -> ApiError {
    ApiError { status: 500, name: "internal_error", message: "internal server error", retry_after_seconds: None }
}

/// The answer to a missing, malformed or unusable input.
pub fn invalid_params_response() -> (res: ApiError)
    ensures
        res == invalid_params_error(),
{
    ApiError { status: 400, name: "invalid_params", message: "invalid params", retry_after_seconds: None }
}

/// The answer to a locked login; the wait is never negative.
pub fn rate_limited_response(retry_after_seconds: i64) -> (res: ApiError)
    ensures
        res == rate_limited_error(retry_after_seconds),
        res.retry_after_seconds matches Some(r) && r >= 0,
{
    let wait = if retry_after_seconds > 0 {
        retry_after_seconds
    } else {
        0
    };
    ApiError {
        status: 429,
        name: "rate_limited",
        message: "too many attempts, try again later",
        retry_after_seconds: Some(wait),
    }
}

/// The answer to any failed authentication.
pub fn auth_failed_response() -> (res: ApiError)
    ensures
        res == auth_failed_error(),
{
    ApiError { status: 401, name: "auth_failed", message: "authentication failed", retry_after_seconds: None }
}

/// The answer to an unusable refresh token.
pub fn refresh_token_invalid_response() -> (res: ApiError)
    ensures
        res == refresh_token_invalid_error(),
{
    ApiError {
        status: 401,
        name: "refresh_token_invalid",
        message: "refresh token invalid",
        retry_after_seconds: None,
    }
}

/// The answer to a failure of the service itself.
pub fn internal_error_response() -> (res: ApiError)
    ensures
        res == internal_error(),
{
    ApiError { status: 500, name: "internal_error", message: "internal server error", retry_after_seconds: None }
}

/// A successful login: a new token pair with their lifetimes.
#[derive(Debug, Clone)]
pub struct LoginResult {
    pub access_token: String,
    pub access_token_expires_in: i64,
    pub refresh_token: String,
    pub refresh_token_expires_in: i64,
    pub token_type: String,
}

/// A successful refresh: the replacement token pair with their lifetimes.
#[derive(Debug, Clone)]
pub struct RefreshResult {
    pub access_token: String,
    pub access_token_expires_in: i64,
    pub refresh_token: String,
    pub refresh_token_expires_in: i64,
    pub token_type: String,
}

/// The account that an access token belongs to.
#[derive(Debug, Clone)]
pub struct CurrentUserResult {
    pub id: i64,
    pub email: String,
    pub status: String,
}

/// The scheme in which access tokens are presented.
pub open spec fn bearer_token_type() -> Seq<char> {
    seq!['B', 'e', 'a', 'r', 'e', 'r']
}

fn bearer() -> (res: String)
    ensures
        res@ == bearer_token_type(),
{
    let cs: [char; 6] = ['B', 'e', 'a', 'r', 'e', 'r'];
    let res = crate::text::string_from_chars(&cs);
    assert(cs@ =~= bearer_token_type());
    res
}

/// The answer to a successful login.
pub fn login_result(access_token: String, refresh_token: String) -> (res: LoginResult)
    ensures
        res.access_token@ == access_token@,
        res.refresh_token@ == refresh_token@,
        res.access_token_expires_in == ACCESS_TOKEN_EXPIRES_IN,
        res.refresh_token_expires_in == REFRESH_TOKEN_EXPIRES_IN,
        res.token_type@ == bearer_token_type(),
{
    LoginResult {
        access_token,
        access_token_expires_in: ACCESS_TOKEN_EXPIRES_IN,
        refresh_token,
        refresh_token_expires_in: REFRESH_TOKEN_EXPIRES_IN,
        token_type: bearer(),
    }
}

/// The answer to a successful refresh.
pub fn refresh_result(access_token: String, refresh_token: String) -> (res: RefreshResult)
    ensures
        res.access_token@ == access_token@,
        res.refresh_token@ == refresh_token@,
        res.access_token_expires_in == ACCESS_TOKEN_EXPIRES_IN,
        res.refresh_token_expires_in == REFRESH_TOKEN_EXPIRES_IN,
        res.token_type@ == bearer_token_type(),
{
    RefreshResult {
        access_token,
        access_token_expires_in: ACCESS_TOKEN_EXPIRES_IN,
        refresh_token,
        refresh_token_expires_in: REFRESH_TOKEN_EXPIRES_IN,
        token_type: bearer(),
    }
}

} // verus!
