use argon2::password_hash::PasswordHasher;
use argon2::password_hash::SaltString;
use newsletter::auth::Credentials;
use newsletter::errors::LoginError;
use newsletter::login::login;
use newsletter::login::login_error_location;
use newsletter::login::QueryParams;

const SECRET: &[u8] = b"super-secret-hmac-key";

fn hash_of(password: &str) -> String {
    let salt = SaltString::from_b64("c29tZXNhbHR2YWx1ZQ").unwrap();
    argon2::Argon2::default()
        .hash_password(password.as_bytes(), &salt)
        .unwrap()
        .to_string()
}

fn credentials(password: &str) -> Credentials {
    Credentials { username: "admin".to_string(), password: password.to_string() }
}

#[test]
fn successful_login_redirects_home() {
    let phc = hash_of("correct-horse");
    let (uid, resp) = login(&credentials("correct-horse"), Some((11, phc)), SECRET).unwrap();
    assert_eq!(uid, 11);
    assert_eq!(resp.status, 303);
    assert_eq!(resp.headers[0].1, b"/".to_vec());
}

#[test]
fn failed_login_redirects_with_signed_error() {
    let phc = hash_of("correct-horse");
    let (e, resp) = login(&credentials("wrong"), Some((11, phc)), SECRET).unwrap_err();
    assert_eq!(e, LoginError::AuthError);
    assert_eq!(resp.status, 303);
    let location = String::from_utf8(resp.headers[0].1.clone()).unwrap();
    assert!(location.starts_with("/login?error=Authentication%20field&tag="));

    // the tag in the location verifies against the same secret
    let tag = location.split("&tag=").nth(1).unwrap().to_string();
    let q = QueryParams { error: "Authentication field".to_string(), tag };
    assert_eq!(q.verify(SECRET).unwrap(), "Authentication field");
}

#[test]
fn unknown_user_login_fails_as_auth_error() {
    let (e, _resp) = login(&credentials("whatever"), None, SECRET).unwrap_err();
    assert_eq!(e, LoginError::AuthError);
}

#[test]
fn bad_stored_hash_login_fails_as_unexpected() {
    let (e, resp) = login(
        &credentials("whatever"),
        Some((11, "broken".to_string())),
        SECRET,
    )
    .unwrap_err();
    assert_eq!(e, LoginError::UnexpectedError);
    let location = String::from_utf8(resp.headers[0].1.clone()).unwrap();
    assert!(location.starts_with("/login?error=Something%20went%20wrong&tag="));
}

#[test]
fn tampered_tag_is_rejected() {
    let location =
        String::from_utf8(login_error_location("Authentication field", SECRET)).unwrap();
    let tag = location.split("&tag=").nth(1).unwrap();
    let mut tampered: String = tag.to_string();
    // flip the last hex digit
    let last = tampered.pop().unwrap();
    tampered.push(if last == '0' { '1' } else { '0' });
    let q = QueryParams { error: "Authentication field".to_string(), tag: tampered };
    assert!(q.verify(SECRET).is_err());
}

#[test]
fn tag_for_other_message_is_rejected() {
    let location = String::from_utf8(login_error_location("one message", SECRET)).unwrap();
    let tag = location.split("&tag=").nth(1).unwrap().to_string();
    let q = QueryParams { error: "another message".to_string(), tag };
    assert!(q.verify(SECRET).is_err());
}

#[test]
fn non_hex_tag_is_rejected() {
    let q = QueryParams { error: "msg".to_string(), tag: "zz".to_string() };
    assert!(q.verify(SECRET).is_err());
    let odd = QueryParams { error: "msg".to_string(), tag: "abc".to_string() };
    assert!(odd.verify(SECRET).is_err());
}

#[test]
fn location_matches_independent_hmac_computation() {
    // recompute the tag with the hmac and hex crates directly
    let query = "error=msg";
    let mut mac =
        <hmac::Hmac<sha2::Sha256> as hmac::Mac>::new_from_slice(SECRET).unwrap();
    hmac::Mac::update(&mut mac, query.as_bytes());
    let tag = hex::encode(hmac::Mac::finalize(mac).into_bytes());
    let expected = format!("/login?{}&tag={}", query, tag);
    let location = String::from_utf8(login_error_location("msg", SECRET)).unwrap();
    assert_eq!(location, expected);
}
