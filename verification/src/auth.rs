//! Credentials and tokens: the service's lifetimes and risk limits, e-mail
//! normalisation and validation, password hashing, refresh tokens and the
//! claims of access tokens.

use argon2::{PasswordHasher, PasswordVerifier};
use sha2::Digest;
use vstd::prelude::*;
use vstd::utf8::encode_utf8;

use crate::encoding::{
    decimal, i64_to_decimal, is_lower_hex_char, lemma_lower_hex_chars, lower_hex, parse_i64, parse_i64_spec,
    push_lower_hex,
};
use crate::text::{
    all_ascii, ascii_lowercase, chars_of, str_to_lowercase, string_from_chars, trim_str, trimmed,
    unicode_lowercase,
};

verus! {

/// Lifetime of an access token, in seconds.
pub const ACCESS_TOKEN_EXPIRES_IN: i64 = 7_200;

/// Lifetime of a refresh token, in seconds.
pub const REFRESH_TOKEN_EXPIRES_IN: i64 = 2_592_000;

/// Length of the sliding window in which failed logins are counted, in seconds.
pub const RISK_WINDOW_SECONDS: i64 = 600;

/// Consecutive failures of one e-mail from one address that lock the pair.
pub const EMAIL_IP_LOCK_THRESHOLD: i64 = 5;

/// How long a locked e-mail and address pair stays locked, in seconds.
pub const EMAIL_IP_LOCK_SECONDS: i64 = 900;

/// Failures of one e-mail within the window that lock the e-mail.
pub const EMAIL_LOCK_THRESHOLD: i64 = 10;

/// How long a locked e-mail stays locked, in seconds.
pub const EMAIL_LOCK_SECONDS: i64 = 1_800;

/// Failures from one address within the window that lock the address.
pub const IP_LOCK_THRESHOLD: i64 = 30;

/// How long a locked address stays locked, in seconds.
pub const IP_LOCK_SECONDS: i64 = 600;

// ---------------------------------------------------------------------------
// E-mail addresses
// ---------------------------------------------------------------------------

/// The normalised form of an e-mail as typed: trimmed, then lower-cased;
/// nothing when that leaves an empty string.
pub open spec fn normalized_email(input: Seq<char>) -> Option<Seq<char>> {
    let n = unicode_lowercase(trimmed(input));
    if n.len() == 0 {
        None
    } else {
        Some(n)
    }
}

/// Trims the input and lower-cases it; an empty result is no e-mail.
pub fn normalize_email(input: &str) -> (res: Option<String>)
    ensures
        match res {
            Some(e) => normalized_email(input@) == Some(e@),
            None => normalized_email(input@) is None,
        },
        all_ascii(input@) ==> match res {
            Some(e) => e@ == ascii_lowercase(trimmed(input@)),
            None => trimmed(input@).len() == 0,
        },
{
    let trimmed_input = trim_str(input);
    assert(all_ascii(input@) ==> all_ascii(trimmed_input@));
    let normalized = str_to_lowercase(trimmed_input.as_str());
    if normalized.as_str().is_empty() {
        None
    } else {
        Some(normalized)
    }
}

/// The part of an address after its `@` is acceptable: not empty, not
/// starting or ending with a dot, and holding a dot.
pub open spec fn valid_email_domain(d: Seq<char>) -> bool {
    &&& d.len() > 0
    &&& d[0] != '.'
    &&& d.last() != '.'
    &&& d.contains('.')
}

/// `p` is the position of the only `@` of `e`.
pub open spec fn only_at_sign(e: Seq<char>, p: int) -> bool {
    &&& 0 <= p < e.len()
    &&& e[p] == '@'
    &&& forall|q: int| 0 <= q < e.len() && q != p ==> e[q] != '@'
}

/// An acceptable e-mail address: no space, exactly one `@` with a
/// non-empty local part before it, and an acceptable domain after it.
pub open spec fn valid_email(e: Seq<char>) -> bool {
    &&& !e.contains(' ')
    &&& exists|p: int|
        only_at_sign(e, p) && p > 0 && valid_email_domain(#[trigger] e.subrange(p + 1, e.len() as int))
}

/// With `p` the first `@` of a space-free `e` (or its length when there is
/// none), `e` is valid exactly when there is an `@`, it is the only one, the
/// local part before it is not empty, and an acceptable domain follows it.
proof fn lemma_valid_email_first_at(e: Seq<char>, p: int)
    requires
        0 <= p <= e.len(),
        forall|k: int| 0 <= k < p ==> e[k] != '@',
        p == e.len() || e[p] == '@',
        !e.contains(' '),
    ensures
        valid_email(e) <==> (p < e.len() && p > 0 && (forall|q: int| p < q < e.len() ==> e[q] != '@')
            && valid_email_domain(e.subrange(p + 1, e.len() as int))),
{
    if valid_email(e) {
        let w = choose|w: int|
            only_at_sign(e, w) && w > 0 && valid_email_domain(#[trigger] e.subrange(w + 1, e.len() as int));
        assert(e[w] == '@');
        if p < e.len() {
            assert(e[p] == '@');
        }
        assert(w == p);
    }
    if p < e.len() && p > 0 && (forall|q: int| p < q < e.len() ==> e[q] != '@')
        && valid_email_domain(e.subrange(p + 1, e.len() as int)) {
        assert(only_at_sign(e, p));
    }
}

/// Checks the shape of an (already normalised) e-mail address.
pub fn is_valid_email(email: &str) -> (res: bool)
    ensures
        res == valid_email(email@),
{
    let cs = chars_of(email);
    let n = cs.len();
    let mut i: usize = 0;
    while i < n
        invariant
            i <= n == cs@.len(),
            cs@ == email@,
            forall|k: int| 0 <= k < i ==> cs@[k] != ' ',
        decreases n - i,
    {
        if cs[i] == ' ' {
            assert(cs@.contains(' '));
            return false;
        }
        i = i + 1;
    }
    assert(!cs@.contains(' '));
    let mut p: usize = 0;
    while p < n && cs[p] != '@'
        invariant
            p <= n == cs@.len(),
            forall|k: int| 0 <= k < p ==> cs@[k] != '@',
        decreases n - p,
    {
        p = p + 1;
    }
    proof {
        lemma_valid_email_first_at(cs@, p as int);
    }
    if p == n || p == 0 {
        return false;
    }
    let mut q: usize = p + 1;
    while q < n
        invariant
            p < q <= n == cs@.len(),
            cs@ == email@,
            forall|k: int| p < k < q ==> cs@[k] != '@',
            valid_email(cs@) <==> (forall|k: int| p < k < n ==> cs@[k] != '@')
                && valid_email_domain(cs@.subrange(p + 1, n as int)),
        decreases n - q,
    {
        if cs[q] == '@' {
            return false;
        }
        q = q + 1;
    }
    domain_is_valid(&cs, p + 1)
}

fn domain_is_valid(cs: &Vec<char>, start: usize) -> (res: bool)
    requires
        start <= cs@.len(),
    ensures
        res == valid_email_domain(cs@.subrange(start as int, cs@.len() as int)),
{
    let n = cs.len();
    let ghost d = cs@.subrange(start as int, n as int);
    if start == n {
        return false;
    }
    if cs[start] == '.' || cs[n - 1] == '.' {
        assert(d[0] == cs@[start as int]);
        assert(d.last() == cs@[n - 1]);
        return false;
    }
    let mut k: usize = start;
    while k < n
        invariant
            start <= k <= n == cs@.len(),
            start < n,
            cs@[start as int] != '.',
            cs@[n - 1] != '.',
            d == cs@.subrange(start as int, n as int),
            forall|j: int| start <= j < k ==> cs@[j] != '.',
        decreases n - k,
    {
        if cs[k] == '.' {
            assert(d[k - start] == '.');
            return true;
        }
        k = k + 1;
    }
    assert(!d.contains('.')) by {
        assert forall|j: int| 0 <= j < d.len() implies d[j] != '.' by {
            assert(d[j] == cs@[start + j]);
        }
    }
    false
}

// ---------------------------------------------------------------------------
// Passwords
// ---------------------------------------------------------------------------

/// Whether `password` matches the PHC string `phc` under Argon2: the
/// answer of `PasswordHash::new` followed by `Argon2::verify_password`.
pub uninterp spec fn argon2_verifies(password: Seq<u8>, phc: Seq<char>) -> bool;

/// The outside error type of the `password-hash` crate.
#[verifier::external_type_specification]
#[verifier::external_body]
pub struct ExPasswordHashError(argon2::password_hash::Error);

/// Calls `PasswordHash::new` on `phc` and, when it parses,
/// `Argon2::default().verify_password`; a PHC string that does not parse
/// matches no password. The answer is named by `argon2_verifies`; the
/// parse refuses an empty string and one that does not start with `$`.
#[verifier::external_body]
fn argon2_verify(password: &[u8], phc: &str) -> (res: bool)
    ensures
        res == argon2_verifies(password@, phc@),
        phc@.len() == 0 || phc@[0] != '$' ==> !res,
{
    match argon2::PasswordHash::new(phc) {
        Ok(parsed) => argon2::Argon2::default().verify_password(password, &parsed).is_ok(),
        Err(_) => false,
    }
}

/// Calls `SaltString::generate` with the system random source and
/// `Argon2::default().hash_password`, giving the PHC string. The salt is
/// random, so the result is not named; the crate's documentation shows that
/// the password verifies against the string it produced. With the default
/// parameters and a generated salt, the source fails only for a password
/// longer than `MAX_PWD_LEN` (`0xFFFFFFFF` bytes).
#[verifier::external_body]
fn argon2_hash(password: &[u8]) -> (res: Result<String, argon2::password_hash::Error>)
    ensures
        res matches Ok(phc) ==> argon2_verifies(password@, phc@),
        password@.len() <= 0xFFFF_FFFF ==> res is Ok,
{
    let salt = argon2::password_hash::SaltString::generate(&mut rand::rngs::OsRng);
    argon2::Argon2::default().hash_password(password, &salt).map(|hash| hash.to_string())
}

/// Hashing a password failed; carries the error that Argon2 reported.
#[derive(Debug)]
pub enum PasswordHashError {
    HashingFailed(argon2::password_hash::Error),
}

/// Hashes a password with Argon2 and a fresh random salt; the PHC string
/// returned verifies against the password. Hashing succeeds for every
/// password of at most `0xFFFFFFFF` bytes.
pub fn hash_password(password: &str) -> (res: Result<String, PasswordHashError>)
    ensures
        res matches Ok(phc) ==> argon2_verifies(encode_utf8(password@), phc@),
        encode_utf8(password@).len() <= 0xFFFF_FFFF ==> res is Ok,
{
    match argon2_hash(password.as_bytes()) {
        Ok(phc) => Ok(phc),
        Err(error) => Err(PasswordHashError::HashingFailed(error)),
    }
}

/// Whether a password matches a stored PHC string; a string that is empty
/// or does not start with `$` is no PHC string and matches no password.
pub fn verify_password(password: &str, password_hash: &str) -> (res: bool)
    ensures
        res == argon2_verifies(encode_utf8(password@), password_hash@),
        password_hash@.len() == 0 || password_hash@[0] != '$' ==> !res,
{
    argon2_verify(password.as_bytes(), password_hash)
}

// ---------------------------------------------------------------------------
// Random identifiers and refresh tokens
// ---------------------------------------------------------------------------

/// Sixteen bytes with the version (4) and variant (RFC 4122) bits of a
/// random UUID.
pub open spec fn is_v4_uuid(b: Seq<u8>) -> bool {
    &&& b.len() == 16
    &&& b[6] / 16 == 4
    &&& b[8] / 64 == 2
}

/// Calls `Uuid::new_v4` and gives its bytes. The bytes are random; the
/// source sets the version and variant bits.
#[verifier::external_body]
fn random_uuid_v4() -> (res: Vec<u8>)
    ensures
        is_v4_uuid(res@),
{
    uuid::Uuid::new_v4().into_bytes().to_vec()
}

/// The 32 hexadecimal digits of a UUID, as `Uuid::simple` writes them.
pub open spec fn uuid_simple(b: Seq<u8>) -> Seq<char> {
    lower_hex(b)
}

/// The hyphenated text of a UUID (8-4-4-4-12 digits), as `Uuid` displays.
pub open spec fn uuid_hyphenated(b: Seq<u8>) -> Seq<char> {
    lower_hex(b.subrange(0, 4)) + seq!['-'] + lower_hex(b.subrange(4, 6)) + seq!['-']
        + lower_hex(b.subrange(6, 8)) + seq!['-'] + lower_hex(b.subrange(8, 10)) + seq!['-']
        + lower_hex(b.subrange(10, 16))
}

/// The hyphenated text of sixteen UUID bytes.
pub fn uuid_hyphenated_text(bytes: &[u8]) -> (res: String)
    requires
        bytes@.len() == 16,
    ensures
        res@ == uuid_hyphenated(bytes@),
{
    let mut out: Vec<char> = Vec::new();
    push_lower_hex(&bytes[0..4], &mut out);
    out.push('-');
    push_lower_hex(&bytes[4..6], &mut out);
    out.push('-');
    push_lower_hex(&bytes[6..8], &mut out);
    out.push('-');
    push_lower_hex(&bytes[8..10], &mut out);
    out.push('-');
    push_lower_hex(&bytes[10..16], &mut out);
    assert(out@ =~= uuid_hyphenated(bytes@));
    string_from_chars(out.as_slice())
}

/// The text of a refresh token made of two UUIDs: their simple texts, one
/// after the other.
pub fn refresh_token_text(first: &[u8], second: &[u8]) -> (res: String)
    ensures
        res@ == uuid_simple(first@) + uuid_simple(second@),
{
    let mut out: Vec<char> = Vec::new();
    push_lower_hex(first, &mut out);
    push_lower_hex(second, &mut out);
    assert(out@ =~= uuid_simple(first@) + uuid_simple(second@));
    string_from_chars(out.as_slice())
}

/// A fresh random UUID (version 4) in hyphenated text.
pub fn new_uuid_v4() -> (res: String)
    ensures
        exists|b: Seq<u8>| is_v4_uuid(b) && res@ == uuid_hyphenated(b),
{
    let b = random_uuid_v4();
    uuid_hyphenated_text(b.as_slice())
}

/// A new refresh token: the simple text of two fresh random UUIDs, one after
/// the other (64 hexadecimal digits).
pub fn generate_refresh_token() -> (res: String)
    ensures
        exists|a: Seq<u8>, b: Seq<u8>|
            is_v4_uuid(a) && is_v4_uuid(b) && res@ == uuid_simple(a) + uuid_simple(b),
{
    let a = random_uuid_v4();
    let b = random_uuid_v4();
    refresh_token_text(a.as_slice(), b.as_slice())
}

/// The SHA-256 digest of a byte string, as the `sha2` crate computes it.
pub uninterp spec fn sha256(data: Seq<u8>) -> Seq<u8>;

/// Calls `Sha256::digest`; the digest is 32 bytes and named by `sha256`.
#[verifier::external_body]
fn sha256_digest(data: &[u8]) -> (res: Vec<u8>)
    ensures
        res@ == sha256(data@),
        res@.len() == 32,
{
    sha2::Sha256::digest(data).to_vec()
}

/// The fingerprint under which a refresh token is stored: the SHA-256 digest
/// of its UTF-8 bytes in small-letter hexadecimal.
pub fn hash_token(token: &str) -> (res: String)
    ensures
        res@ == lower_hex(sha256(encode_utf8(token@))),
        res@.len() == 64,
        forall|i: int| 0 <= i < res@.len() ==> is_lower_hex_char(#[trigger] res@[i]),
{
    let digest = sha256_digest(token.as_bytes());
    let mut out: Vec<char> = Vec::new();
    push_lower_hex(digest.as_slice(), &mut out);
    assert(out@ =~= lower_hex(sha256(encode_utf8(token@))));
    proof {
        lemma_lower_hex_chars(digest@);
    }
    string_from_chars(out.as_slice())
}

// ---------------------------------------------------------------------------
// Configuration and access-token claims
// ---------------------------------------------------------------------------

/// A setting that the service cannot start without is missing.
#[derive(Debug, PartialEq, Eq, Structural)]
pub enum ConfigError {
    MissingJwtSecret,
    MissingDemoUserInitialPassword,
}

impl ConfigError {
    /// The text reported for the missing setting.
    pub fn message(&self) -> (res: &'static str)
        ensures
            res@ == (match self {
                ConfigError::MissingJwtSecret => "JWT_SECRET is required for authentication"@,
                ConfigError::MissingDemoUserInitialPassword => "DEMO_USER_INITIAL_PASSWORD is required for demo users"@,
            }),
    {
        match self {
            ConfigError::MissingJwtSecret => "JWT_SECRET is required for authentication",
            ConfigError::MissingDemoUserInitialPassword => "DEMO_USER_INITIAL_PASSWORD is required for demo users",
        }
    }
}

/// The secrets of the authentication service.
#[derive(Clone)]
pub struct AuthConfig {
    jwt_secret: String,
    pub demo_user_initial_password: String,
}

impl AuthConfig {
    /// The signing secret of access tokens.
    pub closed spec fn spec_jwt_secret(&self) -> Seq<char> {
        self.jwt_secret@
    }

    /// The initial password of the demo users.
    pub closed spec fn spec_demo_user_initial_password(&self) -> Seq<char> {
        self.demo_user_initial_password@
    }

    /// Builds the configuration from the values of the `JWT_SECRET` and
    /// `DEMO_USER_INITIAL_PASSWORD` settings; the first missing one is the
    /// error.
    pub fn from_env(jwt_secret: Option<String>, demo_user_initial_password: Option<String>) -> (res: Result<Self, ConfigError>)
        ensures
            jwt_secret is None ==> res == Err::<Self, ConfigError>(ConfigError::MissingJwtSecret),
            jwt_secret is Some && demo_user_initial_password is None ==> res == Err::<Self, ConfigError>(ConfigError::MissingDemoUserInitialPassword),
            jwt_secret is Some && demo_user_initial_password is Some ==> (res matches Ok(c) && c.spec_jwt_secret() == jwt_secret->0@
                && c.spec_demo_user_initial_password() == demo_user_initial_password->0@),
    {
        let jwt_secret = match jwt_secret {
            Some(value) => value,
            None => return Err(ConfigError::MissingJwtSecret),
        };
        let demo_user_initial_password = match demo_user_initial_password {
            Some(value) => value,
            None => return Err(ConfigError::MissingDemoUserInitialPassword),
        };
        Ok(AuthConfig { jwt_secret, demo_user_initial_password })
    }

    /// The signing secret of access tokens.
    pub fn jwt_secret(&self) -> (res: &str)
        ensures
            res@ == self.spec_jwt_secret(),
    {
        self.jwt_secret.as_str()
    }
}

/// The claims carried by an access token.
#[derive(Debug, Clone)]
pub struct AccessTokenClaims {
    pub sub: String,
    pub session_id: String,
    pub jti: String,
    pub token_type: String,
    pub iat: usize,
    pub exp: usize,
}

/// The user id that claims grant access for: the subject read as an `i64`,
/// when the claims are of an access token.
pub open spec fn access_subject(claims: AccessTokenClaims) -> Option<int> {
    if claims.token_type@ == "access"@ {
        parse_i64_spec(claims.sub@)
    } else {
        None
    }
}

impl AccessTokenClaims {
    /// The claims of a new access token of `user_id` in `session_id`,
    /// issued at `now`, expiring after `ACCESS_TOKEN_EXPIRES_IN`, with a
    /// fresh random token id.
    pub fn for_session(user_id: i64, session_id: &str, now: i64) -> (res: Self)
        requires
            now + ACCESS_TOKEN_EXPIRES_IN <= i64::MAX,
        ensures
            res.sub@ == decimal(user_id as int),
            res.session_id@ == session_id@,
            exists|b: Seq<u8>| is_v4_uuid(b) && res.jti@ == uuid_hyphenated(b),
            res.token_type@ == "access"@,
            res.iat == now as usize,
            res.exp == (now + ACCESS_TOKEN_EXPIRES_IN) as usize,
    {
        let sub = i64_to_decimal(user_id);
        AccessTokenClaims {
            sub: string_from_chars(sub.as_slice()),
            session_id: session_id.to_owned(),
            jti: new_uuid_v4(),
            token_type: "access".to_owned(),
            iat: now as usize,
            exp: (now + ACCESS_TOKEN_EXPIRES_IN) as usize,
        }
    }

    /// The user id these claims grant access for, or nothing when the token
    /// is not an access token or its subject is not a decimal `i64`.
    pub fn subject_user_id(&self) -> (res: Option<i64>)
        ensures
            match res {
                Some(id) => access_subject(*self) == Some(id as int),
                None => access_subject(*self) is None,
            },
    {
        if !crate::text::str_eq(self.token_type.as_str(), "access") {
            return None;
        }
        parse_i64(self.sub.as_str())
    }
}

/// An access token issued for a user grants access to that same user.
pub proof fn law_access_claims_name_their_user(user_id: i64, claims: AccessTokenClaims)
    requires
        claims.sub@ == decimal(user_id as int),
        claims.token_type@ == "access"@,
    ensures
        access_subject(claims) == Some(user_id as int),
{
    crate::encoding::lemma_parse_decimal_roundtrip(user_id as int);
}

/// An address made of a local part, an `@` and a domain (neither part
/// holding an `@` or a space) is valid exactly when the local part is not
/// empty and the domain is not empty, neither starts nor ends with a dot,
/// and holds a dot; any other character of the domain is accepted.
pub proof fn law_valid_email_parts(local: Seq<char>, domain: Seq<char>)
    requires
        !local.contains('@'),
        !local.contains(' '),
        !domain.contains('@'),
        !domain.contains(' '),
    ensures
        valid_email(local + seq!['@'] + domain) <==> (local.len() > 0 && domain.len() > 0
            && domain[0] != '.' && domain[domain.len() - 1] != '.'
            && exists|j: int| 0 <= j < domain.len() && domain[j] == '.'),
{
    let e = local + seq!['@'] + domain;
    let p = local.len() as int;
    assert forall|k: int| 0 <= k < e.len() implies e[k] != ' ' by {
        if k < p {
            assert(e[k] == local[k]);
        } else if k > p {
            assert(e[k] == domain[k - p - 1]);
        }
    }
    assert forall|k: int| 0 <= k < p implies e[k] != '@' by {
        assert(e[k] == local[k]);
    }
    assert forall|q: int| p < q < e.len() implies e[q] != '@' by {
        assert(e[q] == domain[q - p - 1]);
    }
    assert(e[p] == '@');
    lemma_valid_email_first_at(e, p);
    assert(e.subrange(p + 1, e.len() as int) =~= domain);
    if exists|j: int| 0 <= j < domain.len() && domain[j] == '.' {
        let j = choose|j: int| 0 <= j < domain.len() && domain[j] == '.';
        assert(domain.contains('.'));
    }
}

/// An address with a space, with no `@`, or with two of them is never valid.
pub proof fn law_invalid_email_shapes(e: Seq<char>, i: int, j: int)
    ensures
        e.contains(' ') ==> !valid_email(e),
        (forall|k: int| 0 <= k < e.len() ==> e[k] != '@') ==> !valid_email(e),
        0 <= i < j < e.len() && e[i] == '@' && e[j] == '@' ==> !valid_email(e),
{
    if valid_email(e) {
        let w = choose|w: int|
            only_at_sign(e, w) && w > 0 && valid_email_domain(#[trigger] e.subrange(w + 1, e.len() as int));
        assert(e[w] == '@');
    }
}

/// Normalisation ignores white space around the address.
pub proof fn law_normalize_ignores_surrounding_space(pre: Seq<char>, s: Seq<char>, post: Seq<char>)
    requires
        forall|i: int| 0 <= i < pre.len() ==> crate::text::is_white_space(#[trigger] pre[i]),
        forall|i: int| 0 <= i < post.len() ==> crate::text::is_white_space(#[trigger] post[i]),
    ensures
        normalized_email(pre + s + post) == normalized_email(s),
{
    crate::text::lemma_trim_padding(pre, s, post);
}

/// Two ASCII addresses that differ only in the case of their letters
/// normalise alike: the ASCII form of `normalized_email` is the same.
pub proof fn law_normalize_ignores_ascii_case(s: Seq<char>, t: Seq<char>)
    requires
        ascii_lowercase(s) == ascii_lowercase(t),
    ensures
        ascii_lowercase(trimmed(s)) == ascii_lowercase(trimmed(t)),
{
    crate::text::lemma_trimmed_lowercase(s);
    crate::text::lemma_trimmed_lowercase(t);
}

/// Normalising an ASCII address that is already normal changes nothing:
/// the ASCII form of `normalized_email` is idempotent.
pub proof fn law_normalize_ascii_idempotent(s: Seq<char>)
    ensures
        ascii_lowercase(trimmed(ascii_lowercase(trimmed(s)))) == ascii_lowercase(trimmed(s)),
{
    crate::text::lemma_trimmed_lowercase(trimmed(s));
    crate::text::lemma_trimmed_idempotent(s);
    crate::text::lemma_ascii_lowercase_idempotent(trimmed(s));
}

/// White space around an ASCII address and the case of its letters do not
/// change the ASCII form of its normalisation.
pub proof fn law_normalize_ignores_space_and_ascii_case(pre: Seq<char>, s: Seq<char>, t: Seq<char>, post: Seq<char>)
    requires
        forall|i: int| 0 <= i < pre.len() ==> crate::text::is_white_space(#[trigger] pre[i]),
        forall|i: int| 0 <= i < post.len() ==> crate::text::is_white_space(#[trigger] post[i]),
        ascii_lowercase(s) == ascii_lowercase(t),
    ensures
        ascii_lowercase(trimmed(pre + s + post)) == ascii_lowercase(trimmed(t)),
{
    crate::text::lemma_trim_padding(pre, s, post);
    law_normalize_ignores_ascii_case(s, t);
}

} // verus!
