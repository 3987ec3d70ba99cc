use notes_api::error::{ApiError, AuthError};
use notes_api::model::claims::{
    get_user_id_from_token, issue_token, resolve_claims, verify_token, Claims,
};
use notes_api::password::{hash_password, verify_password};
use notes_api::text::{i32_to_string, parse_i32, parse_u64, to_hex};

#[test]
fn decimal_text_of_ids() {
    assert_eq!(i32_to_string(0), "0");
    assert_eq!(i32_to_string(7), "7");
    assert_eq!(i32_to_string(-12), "-12");
    assert_eq!(i32_to_string(i32::MAX), "2147483647");
    assert_eq!(i32_to_string(i32::MIN), "-2147483648");
}

#[test]
fn decimal_text_is_read_back() {
    assert_eq!(parse_i32("42"), Some(42));
    assert_eq!(parse_i32("+42"), Some(42));
    assert_eq!(parse_i32("-42"), Some(-42));
    assert_eq!(parse_i32("007"), Some(7));
    assert_eq!(parse_i32("2147483647"), Some(i32::MAX));
    assert_eq!(parse_i32("-2147483648"), Some(i32::MIN));
    assert_eq!(parse_i32("2147483648"), None);
    assert_eq!(parse_i32("-2147483649"), None);
    assert_eq!(parse_i32(""), None);
    assert_eq!(parse_i32("-"), None);
    assert_eq!(parse_i32("+"), None);
    assert_eq!(parse_i32("1a"), None);
    assert_eq!(parse_i32(" 1"), None);
    assert_eq!(parse_i32("--1"), None);
    assert_eq!(parse_u64("18446744073709551615"), Some(u64::MAX));
    assert_eq!(parse_u64("18446744073709551616"), None);
    assert_eq!(parse_u64("-1"), None);
    assert_eq!(parse_u64("+5"), Some(5));
}

#[test]
fn decimal_agrees_with_std() {
    for i in [0, 1, -1, 9, 10, -10, 99, 100, 12345, -98765, i32::MAX, i32::MIN] {
        assert_eq!(i32_to_string(i), i.to_string());
        assert_eq!(parse_i32(&i.to_string()), Some(i));
    }
    for s in ["", "+", "-", "+0", "-0", "00", "1_000", "١٢", "3.5", "9999999999"] {
        assert_eq!(parse_i32(s), s.parse::<i32>().ok());
        assert_eq!(parse_u64(s), s.parse::<u64>().ok());
    }
}

#[test]
fn hex_text_of_bytes() {
    assert_eq!(to_hex(&[]), "");
    assert_eq!(to_hex(&[0x00, 0x0f, 0xa5, 0xff]), "000fa5ff");
}

#[test]
fn issued_token_resolves_to_its_user() {
    let token = issue_token(17, 1_000, 60, Some("secret")).unwrap();
    assert_eq!(verify_token(&token, 1_000, "secret"), Ok(17));
    assert_eq!(verify_token(&token, 1_059, "secret"), Ok(17));
}

#[test]
fn token_expires_at_its_expiry() {
    let token = issue_token(17, 1_000, 60, Some("secret")).unwrap();
    assert_eq!(verify_token(&token, 1_060, "secret"), Err(AuthError::Expired));
    assert_eq!(verify_token(&token, 5_000, "secret"), Err(AuthError::Expired));
}

#[test]
fn token_under_another_secret_is_invalid() {
    let token = issue_token(17, 1_000, 60, Some("secret")).unwrap();
    assert_eq!(verify_token(&token, 1_000, "other"), Err(AuthError::Invalid));
}

#[test]
fn malformed_token_is_invalid() {
    assert_eq!(verify_token("", 0, "secret"), Err(AuthError::Invalid));
    assert_eq!(verify_token("a.b.c", 0, "secret"), Err(AuthError::Invalid));
    assert_eq!(verify_token("not a token", 0, "secret"), Err(AuthError::Invalid));
}

#[test]
fn token_is_not_its_own_subject() {
    let claims = Claims::new(5, 10, 20);
    assert_eq!(claims.sub, "5");
    assert_eq!(claims.exp, 30);
    let token = claims.get_token("secret").unwrap();
    assert_ne!(token, claims.sub);
    assert_eq!(token.split('.').count(), 3);
}

#[test]
fn issuing_without_a_secret_is_a_configuration_error() {
    assert_eq!(issue_token(1, 0, 60, None), Err(ApiError::Config));
    assert_eq!(issue_token(1, u64::MAX, 1, Some("secret")), Err(ApiError::Config));
}

#[test]
fn password_digest_depends_on_password_and_salt() {
    let salt = [7u8; 16];
    let digest = hash_password("pw", &salt).unwrap();
    assert_eq!(digest.len(), 64);
    assert_ne!(digest, "pw");
    assert_eq!(hash_password("pw", &salt).unwrap(), digest);
    assert_ne!(hash_password("pw", &[8u8; 16]).unwrap(), digest);
    assert_ne!(hash_password("pW", &salt).unwrap(), digest);
    assert!(verify_password("pw", &salt, &digest));
    assert!(!verify_password("wrong", &salt, &digest));
    assert!(!verify_password("pw", &[8u8; 16], &digest));
}

#[test]
fn short_salt_is_rejected() {
    assert_eq!(hash_password("pw", &[1, 2, 3]), Err(ApiError::Validation));
    assert!(!verify_password("pw", &[1, 2, 3], ""));
}

#[test]
fn decoded_claims_are_resolved() {
    assert_eq!(resolve_claims(None, 0), Err(AuthError::Invalid));
    assert_eq!(resolve_claims(Some(("12".to_string(), 100)), 99), Ok(12));
    assert_eq!(resolve_claims(Some(("12".to_string(), 100)), 100), Err(AuthError::Expired));
    assert_eq!(resolve_claims(Some(("12".to_string(), 100)), 101), Err(AuthError::Expired));
    assert_eq!(resolve_claims(Some(("-3".to_string(), 100)), 0), Ok(-3));
    assert_eq!(resolve_claims(Some(("twelve".to_string(), 100)), 0), Err(AuthError::Invalid));
    assert_eq!(resolve_claims(Some(("twelve".to_string(), 100)), 100), Err(AuthError::Expired));
    assert_eq!(resolve_claims(Some(("".to_string(), u64::MAX)), 0), Err(AuthError::Invalid));
}

#[test]
fn both_ways_to_read_a_token_agree() {
    let token = issue_token(8, 10, 10, Some("k")).unwrap();
    assert_eq!(Claims::get_index(&token, "k", 19), Ok(8));
    assert_eq!(get_user_id_from_token(&token, "k", 19), Ok(8));
    assert_eq!(Claims::get_index(&token, "k", 20), Err(AuthError::Expired));
    assert_eq!(get_user_id_from_token(&token, "k", 20), Err(AuthError::Expired));
}

#[test]
fn digest_is_the_hex_of_argon2id() {
    let salt = [5u8; 16];
    let mut raw = [0u8; 32];
    argon2::Argon2::default().hash_password_into(b"pw", &salt, &mut raw).unwrap();
    assert_eq!(hash_password("pw", &salt).unwrap(), to_hex(&raw));
}

#[test]
fn issued_token_carries_subject_and_expiry() {
    let token = issue_token(-7, 1_000, 60, Some("secret")).unwrap();
    let mut validation = jsonwebtoken::Validation::default();
    validation.validate_exp = false;
    let key = jsonwebtoken::DecodingKey::from_secret(b"secret");
    let data = jsonwebtoken::decode::<serde_json::Value>(&token, &key, &validation).unwrap();
    assert_eq!(data.header.alg, jsonwebtoken::Algorithm::HS256);
    assert_eq!(data.claims["sub"].as_str(), Some("-7"));
    assert_eq!(data.claims["exp"].as_u64(), Some(1_060));
}

#[test]
fn token_without_a_numeric_subject_is_invalid() {
    let mut payload = serde_json::Map::new();
    payload.insert("sub".to_string(), serde_json::Value::from("somebody"));
    payload.insert("exp".to_string(), serde_json::Value::from(100u64));
    let key = jsonwebtoken::EncodingKey::from_secret(b"secret");
    let token = jsonwebtoken::encode(&jsonwebtoken::Header::default(), &payload, &key).unwrap();
    assert_eq!(verify_token(&token, 0, "secret"), Err(AuthError::Invalid));
    assert_eq!(verify_token(&token, 100, "secret"), Err(AuthError::Expired));

    let mut payload = serde_json::Map::new();
    payload.insert("sub".to_string(), serde_json::Value::from(4));
    payload.insert("exp".to_string(), serde_json::Value::from(100u64));
    let token = jsonwebtoken::encode(&jsonwebtoken::Header::default(), &payload, &key).unwrap();
    assert_eq!(verify_token(&token, 0, "secret"), Err(AuthError::Invalid));

    let mut payload = serde_json::Map::new();
    payload.insert("sub".to_string(), serde_json::Value::from("4"));
    let token = jsonwebtoken::encode(&jsonwebtoken::Header::default(), &payload, &key).unwrap();
    assert_eq!(verify_token(&token, 0, "secret"), Err(AuthError::Invalid));
}
