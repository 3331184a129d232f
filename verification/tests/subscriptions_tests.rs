use newsletter::subscriptions::confirmation_html_body;
use newsletter::subscriptions::confirmation_link;
use newsletter::subscriptions::confirmation_plain_body;
use newsletter::subscriptions::generate_subscription_token;
use newsletter::subscriptions::is_valid_name;
use newsletter::subscriptions::parse_confirmed_subscribers;
use newsletter::subscriptions::parse_subscriber;
use newsletter::subscriptions::SubscriberEmail;

#[test]
fn empty_and_whitespace_names_are_rejected() {
    assert!(!is_valid_name(""));
    assert!(!is_valid_name("   "));
    assert!(!is_valid_name("\t\n"));
    // non-breaking space is whitespace too
    assert!(!is_valid_name("\u{00a0}"));
}

#[test]
fn names_with_forbidden_characters_are_rejected() {
    for bad in ["a.b", "a(b", "a)b", "a\"b", "a<b", "a>b", "a\\b", "a{b", "a}b"] {
        assert!(!is_valid_name(bad), "{} should be rejected", bad);
    }
}

#[test]
fn name_length_is_counted_in_graphemes() {
    assert!(is_valid_name(&"a".repeat(256)));
    assert!(!is_valid_name(&"a".repeat(257)));
    // 256 graphemes of two characters each: valid despite 512 characters
    assert!(is_valid_name(&"e\u{0301}".repeat(256)));
    assert!(!is_valid_name(&"e\u{0301}".repeat(257)));
}

#[test]
fn ordinary_names_are_accepted() {
    assert!(is_valid_name("Ursula K. Le Guin".replace('.', "").as_str()));
    assert!(is_valid_name("Ada Lovelace"));
}

#[test]
fn emails_need_exactly_one_inner_at_sign() {
    assert!(SubscriberEmail::parse("a@b.io".to_string()).is_ok());
    assert!(SubscriberEmail::parse("".to_string()).is_err());
    assert!(SubscriberEmail::parse("no-at-sign".to_string()).is_err());
    assert!(SubscriberEmail::parse("@starts".to_string()).is_err());
    assert!(SubscriberEmail::parse("ends@".to_string()).is_err());
    assert!(SubscriberEmail::parse("two@@signs".to_string()).is_err());
    assert!(SubscriberEmail::parse("has space@x.io".to_string()).is_err());
}

#[test]
fn parse_subscriber_validates_both_fields() {
    let ok = parse_subscriber("Ada Lovelace".to_string(), "ada@example.com".to_string());
    let s = ok.unwrap();
    assert_eq!(s.name.as_str(), "Ada Lovelace");
    assert_eq!(s.email.as_str(), "ada@example.com");
    assert!(parse_subscriber("{bad}".to_string(), "ada@example.com".to_string()).is_err());
    assert!(parse_subscriber("Ada".to_string(), "not-an-email".to_string()).is_err());
}

#[test]
fn subscription_tokens_are_25_alphanumerics() {
    let t = generate_subscription_token();
    assert_eq!(t.chars().count(), 25);
    assert!(t.chars().all(|c| c.is_ascii_alphanumeric()));
}

#[test]
fn confirmation_texts_carry_the_link() {
    let link = confirmation_link("https://news.example.com", "mytoken");
    assert_eq!(
        link,
        "https://news.example.com/subscriptions/confirm?subscription_token=mytoken"
    );
    assert_eq!(
        confirmation_plain_body(&link),
        format!("Welcome to our newsletter!\nVisit {} to confirm your subscription.", link)
    );
    assert_eq!(
        confirmation_html_body(&link),
        format!(
            "Welcome to our newsletter!<br />Click <a href=\"{}\">here</a> to confirm your subscription.",
            link
        )
    );
}

#[test]
fn confirmed_subscriber_rows_are_sifted_not_fatal() {
    let rows = vec![
        "good@example.com".to_string(),
        "broken row".to_string(),
        "also-good@example.com".to_string(),
    ];
    let sifted = parse_confirmed_subscribers(&rows);
    assert_eq!(sifted.len(), 3);
    assert_eq!(sifted[0].as_ref().unwrap().as_str(), "good@example.com");
    assert!(sifted[1].is_err());
    assert_eq!(sifted[2].as_ref().unwrap().as_str(), "also-good@example.com");
}
