use login_demo::auth::{
    generate_refresh_token, hash_password, hash_token, is_valid_email, new_uuid_v4, normalize_email,
    verify_password, AccessTokenClaims, AuthConfig, ConfigError, ACCESS_TOKEN_EXPIRES_IN,
};

#[test]
fn normalize_email_trims_and_lowercases() {
    assert_eq!(normalize_email("  Test1@Brain.IM \t"), Some("test1@brain.im".to_string()));
    assert_eq!(normalize_email("test1@brain.im"), Some("test1@brain.im".to_string()));
    assert_eq!(normalize_email("   "), None);
    assert_eq!(normalize_email(""), None);
}

#[test]
fn normalize_email_ignores_case_and_surrounding_space() {
    let a = normalize_email(" USER@Example.COM ");
    let b = normalize_email("user@example.com");
    assert_eq!(a, b);
}

#[test]
fn normalize_email_uses_unicode_lowercase() {
    assert_eq!(normalize_email("ÄBC@X.DE"), Some("äbc@x.de".to_string()));
}

#[test]
fn valid_emails_are_accepted() {
    assert!(is_valid_email("test1@brain.im"));
    assert!(is_valid_email("a@b.c"));
    assert!(is_valid_email("first.last@sub.example.org"));
}

#[test]
fn invalid_emails_are_rejected() {
    assert!(!is_valid_email(""));
    assert!(!is_valid_email("plain"));
    assert!(!is_valid_email("@brain.im"));
    assert!(!is_valid_email("user@"));
    assert!(!is_valid_email("user@brain"));
    assert!(!is_valid_email("user@.brain.im"));
    assert!(!is_valid_email("user@brain.im."));
    assert!(!is_valid_email("a@b@c.d"));
    assert!(!is_valid_email("us er@brain.im"));
}

#[test]
fn hashed_password_verifies_and_others_do_not() {
    let phc = hash_password("hunter42").expect("hashing works");
    assert!(phc.starts_with("$argon2"));
    assert!(verify_password("hunter42", &phc));
    assert!(!verify_password("hunter43", &phc));
}

#[test]
fn malformed_hash_matches_no_password() {
    assert!(!verify_password("hunter42", "not a phc string"));
    assert!(!verify_password("", ""));
}

#[test]
fn two_hashes_of_one_password_differ_by_salt() {
    let a = hash_password("secret").unwrap();
    let b = hash_password("secret").unwrap();
    assert_ne!(a, b);
    assert!(verify_password("secret", &a));
    assert!(verify_password("secret", &b));
}

#[test]
fn refresh_tokens_are_64_hex_digits_and_fresh() {
    let a = generate_refresh_token();
    let b = generate_refresh_token();
    assert_eq!(a.len(), 64);
    assert!(a.chars().all(|c| c.is_ascii_digit() || ('a'..='f').contains(&c)));
    assert_eq!(&a[12..13], "4");
    assert_eq!(&a[44..45], "4");
    assert!(matches!(&a[16..17], "8" | "9" | "a" | "b"));
    assert_ne!(a, b);
}

#[test]
fn uuid_text_is_hyphenated_version_four() {
    let id = new_uuid_v4();
    let parsed = uuid::Uuid::parse_str(&id).expect("valid uuid text");
    assert_eq!(parsed.get_version_num(), 4);
    assert_eq!(parsed.hyphenated().to_string(), id);
}

#[test]
fn hash_token_is_sha256_in_lower_hex() {
    assert_eq!(hash_token("abc"), "ba7816bf8f01cfea414140de5dae2223b00361a396177a9cb410ff61f20015ad");
    assert_eq!(hash_token(""), "e3b0c44298fc1c149afbf4c8996fb92427ae41e4649b934ca495991b7852b855");
    assert_eq!(hash_token("abc"), hash_token("abc"));
    assert_ne!(hash_token("abc"), hash_token("abd"));
}

#[test]
fn config_requires_both_settings() {
    assert!(matches!(
        AuthConfig::from_env(None, Some("pw".to_string())),
        Err(ConfigError::MissingJwtSecret)
    ));
    assert!(matches!(AuthConfig::from_env(None, None), Err(ConfigError::MissingJwtSecret)));
    assert!(matches!(
        AuthConfig::from_env(Some("s".to_string()), None),
        Err(ConfigError::MissingDemoUserInitialPassword)
    ));
    let config = AuthConfig::from_env(Some("s3cret".to_string()), Some("pw".to_string())).unwrap();
    assert_eq!(config.jwt_secret(), "s3cret");
    assert_eq!(config.demo_user_initial_password, "pw");
    assert_eq!(ConfigError::MissingJwtSecret.message(), "JWT_SECRET is required for authentication");
    assert_eq!(
        ConfigError::MissingDemoUserInitialPassword.message(),
        "DEMO_USER_INITIAL_PASSWORD is required for demo users"
    );
}

#[test]
fn access_claims_name_user_session_and_lifetime() {
    let claims = AccessTokenClaims::for_session(42, "session-1", 1_700_000_000);
    assert_eq!(claims.sub, "42");
    assert_eq!(claims.session_id, "session-1");
    assert_eq!(claims.token_type, "access");
    assert_eq!(claims.iat, 1_700_000_000);
    assert_eq!(claims.exp as i64 - claims.iat as i64, ACCESS_TOKEN_EXPIRES_IN);
    assert_eq!(claims.jti.len(), 36);
    assert_eq!(claims.subject_user_id(), Some(42));
}

#[test]
fn claims_of_other_tokens_name_no_user() {
    let mut claims = AccessTokenClaims::for_session(-7, "s", 0);
    assert_eq!(claims.subject_user_id(), Some(-7));
    claims.token_type = "refresh".to_string();
    assert_eq!(claims.subject_user_id(), None);
    claims.token_type = "access".to_string();
    claims.sub = "seven".to_string();
    assert_eq!(claims.subject_user_id(), None);
}

#[test]
fn hashing_succeeds_for_empty_and_long_passwords() {
    assert!(hash_password("").is_ok());
    let long = "x".repeat(4096);
    let phc = hash_password(&long).unwrap();
    assert!(verify_password(&long, &phc));
}

#[test]
fn strings_without_leading_dollar_match_no_password() {
    assert!(!verify_password("pw", "argon2id$v=19$m=19456,t=2,p=1$abc$def"));
    assert!(!verify_password("", ""));
}

#[test]
fn uuid_texts_from_known_bytes() {
    let bytes: Vec<u8> = (0u8..16).collect();
    assert_eq!(
        login_demo::auth::uuid_hyphenated_text(&bytes),
        uuid::Uuid::from_slice(&bytes).unwrap().hyphenated().to_string()
    );
    let other: Vec<u8> = (16u8..32).collect();
    assert_eq!(
        login_demo::auth::refresh_token_text(&bytes, &other),
        format!(
            "{}{}",
            uuid::Uuid::from_slice(&bytes).unwrap().simple(),
            uuid::Uuid::from_slice(&other).unwrap().simple()
        )
    );
}
