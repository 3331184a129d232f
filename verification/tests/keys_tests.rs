use newsletter::errors::KeyRejection;
use newsletter::keys::IdempotencyKey;

#[test]
fn empty_key_is_rejected() {
    let r = IdempotencyKey::try_new(String::new());
    assert!(matches!(r, Err(KeyRejection::Empty)));
}

#[test]
fn key_of_fifty_one_characters_is_rejected() {
    let r = IdempotencyKey::try_new("a".repeat(51));
    assert!(matches!(r, Err(KeyRejection::TooLong)));
}

#[test]
fn key_with_hash_sign_is_rejected() {
    let r = IdempotencyKey::try_new("abc#123".to_string());
    assert!(matches!(r, Err(KeyRejection::ForbiddenChar)));
}

#[test]
fn key_with_space_is_rejected() {
    let r = IdempotencyKey::try_new("abc 123".to_string());
    assert!(matches!(r, Err(KeyRejection::ForbiddenChar)));
}

#[test]
fn key_with_non_ascii_character_is_rejected() {
    let r = IdempotencyKey::try_new("abcé".to_string());
    assert!(matches!(r, Err(KeyRejection::ForbiddenChar)));
}

#[test]
fn key_of_fifty_alphanumerics_and_hyphens_is_accepted() {
    let text = "A1b2C3d4-A1b2C3d4-A1b2C3d4-A1b2C3d4-A1b2C3d4-12345";
    assert_eq!(text.len(), 50);
    let key = IdempotencyKey::try_new(text.to_string()).unwrap();
    assert_eq!(key.as_str(), text);
}

#[test]
fn key_survives_duplication() {
    let key = IdempotencyKey::try_new("abc-123".to_string()).unwrap();
    let copy = key.duplicate();
    assert!(key.same_key(&copy));
    assert_eq!(copy.as_str(), "abc-123");
}
