use argon2::password_hash::PasswordHasher;
use argon2::password_hash::SaltString;
use newsletter::auth::basic_authentication;
use newsletter::auth::validate_credentials;
use newsletter::auth::verify_password_hash;
use newsletter::auth::Credentials;
use newsletter::errors::AuthError;
use newsletter::errors::BasicAuthError;

fn hash_of(password: &str) -> String {
    let salt = SaltString::from_b64("c29tZXNhbHR2YWx1ZQ").unwrap();
    argon2::Argon2::default()
        .hash_password(password.as_bytes(), &salt)
        .unwrap()
        .to_string()
}

fn credentials(username: &str, password: &str) -> Credentials {
    Credentials { username: username.to_string(), password: password.to_string() }
}

#[test]
fn matching_password_is_accepted() {
    let phc = hash_of("hunter2-secret");
    let r = validate_credentials(&credentials("u", "hunter2-secret"), Some((42, phc)));
    assert_eq!(r, Ok(42));
}

#[test]
fn wrong_password_is_invalid_credentials() {
    let phc = hash_of("hunter2-secret");
    let r = validate_credentials(&credentials("u", "wrong-password"), Some((42, phc)));
    assert_eq!(r, Err(AuthError::InvalidCredentials));
}

#[test]
fn unknown_username_is_invalid_credentials() {
    let r = validate_credentials(&credentials("nobody", "anything"), None);
    assert_eq!(r, Err(AuthError::InvalidCredentials));
}

#[test]
fn unparseable_stored_hash_is_unexpected_error() {
    let r = validate_credentials(
        &credentials("u", "anything"),
        Some((42, "not a phc string".to_string())),
    );
    assert_eq!(r, Err(AuthError::UnexpectedError));
}

#[test]
fn verify_password_hash_distinguishes_failures() {
    let phc = hash_of("pw");
    assert!(verify_password_hash(&phc, "pw").is_ok());
    assert_eq!(verify_password_hash(&phc, "other"), Err(AuthError::InvalidCredentials));
    assert_eq!(verify_password_hash("garbage", "pw"), Err(AuthError::UnexpectedError));
}

#[test]
fn basic_authentication_extracts_credentials() {
    let encoded = base64::Engine::encode(
        &base64::engine::general_purpose::STANDARD,
        "alice:open sesame",
    );
    let header = format!("Basic {}", encoded);
    let c = basic_authentication(&header).unwrap();
    assert_eq!(c.username, "alice");
    assert_eq!(c.password, "open sesame");
}

#[test]
fn basic_authentication_allows_colons_in_password() {
    let encoded = base64::Engine::encode(
        &base64::engine::general_purpose::STANDARD,
        "alice:a:b:c",
    );
    let header = format!("Basic {}", encoded);
    let c = basic_authentication(&header).unwrap();
    assert_eq!(c.username, "alice");
    assert_eq!(c.password, "a:b:c");
}

#[test]
fn basic_authentication_rejects_malformed_headers() {
    assert!(matches!(basic_authentication("Bearer abcdef"), Err(BasicAuthError::NotBasic)));
    assert!(matches!(basic_authentication(""), Err(BasicAuthError::NotBasic)));
    assert!(matches!(basic_authentication("Basic !!!"), Err(BasicAuthError::BadBase64)));
    let encoded =
        base64::Engine::encode(&base64::engine::general_purpose::STANDARD, "no-colon-here");
    assert!(matches!(
        basic_authentication(&format!("Basic {}", encoded)),
        Err(BasicAuthError::NoColon)
    ));
    let encoded =
        base64::Engine::encode(&base64::engine::general_purpose::STANDARD, [0xffu8, 0xfe, b':']);
    assert!(matches!(
        basic_authentication(&format!("Basic {}", encoded)),
        Err(BasicAuthError::NotUtf8)
    ));
}
