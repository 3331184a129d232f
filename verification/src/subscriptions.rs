//! Subscriber intake: validation of names and emails, the confirmation
//! email text, and the subscription token. The route around these —
//! form decoding, database writes, the actual send — stays outside the
//! library and calls in for every decision.

use vstd::prelude::*;
use vstd::string::StringExecFns;
use crate::errors::SubscribeError;
use crate::text::chars_vec;
use crate::text::string_from_chars;

verus! {

/// The base URL subscribers are sent back to in confirmation links.
pub struct ApplicationBaseUrl(pub String);

/// The number of characters counted by `grapheme_count` of a string: what
/// `unicode_segmentation` reports as its extended grapheme clusters.
pub uninterp spec fn grapheme_count(s: Seq<char>) -> nat;

/// Whether a character has Unicode's `White_Space` property, as
/// `char::is_whitespace` reports it.
pub uninterp spec fn is_unicode_whitespace(c: char) -> bool;

/// Relies on `unicode_segmentation`'s extended grapheme segmentation: the
/// segmentation depends on the characters alone, and every cluster holds
/// at least one character.
#[verifier::external_body]
fn count_graphemes(s: &str) -> (n: usize)
    ensures
        n == grapheme_count(s@) && n <= s@.len(),
{
    unicode_segmentation::UnicodeSegmentation::graphemes(s, true).count()
}

/// Relies on `char::is_whitespace`: the `White_Space` property of the
/// character alone.
#[verifier::external_body]
fn char_is_whitespace(c: char) -> (r: bool)
    ensures
        r == is_unicode_whitespace(c),
{
    c.is_whitespace()
}

/// The characters a subscriber name must not contain.
pub open spec fn forbidden_name_char(c: char) -> bool {
    ||| c == '.'
    ||| c == '('
    ||| c == ')'
    ||| c == '"'
    ||| c == '<'
    ||| c == '>'
    ||| c == '\\'
    ||| c == '{'
    ||| c == '}'
}

/// A valid subscriber name: not blank, at most 256 grapheme clusters, and
/// free of the forbidden characters.
pub open spec fn spec_is_valid_name(s: Seq<char>) -> bool {
    &&& exists|i: int| 0 <= i < s.len() && !is_unicode_whitespace(#[trigger] s[i])
    &&& grapheme_count(s) <= 256
    &&& forall|i: int| 0 <= i < s.len() ==> !forbidden_name_char(#[trigger] s[i])
}

/// Decides whether `s` may stand as a subscriber name.
pub fn is_valid_name(s: &str) -> (r: bool)
    ensures
        r == spec_is_valid_name(s@),
{
    let cs = chars_vec(s);
    let n = cs.len();
    let mut has_content = false;
    let mut i: usize = 0;
    while i < n
        invariant
            0 <= i <= n,
            n == cs@.len(),
            cs@ == s@,
            has_content == exists|j: int|
                0 <= j < i && !is_unicode_whitespace(#[trigger] s@[j]),
            forall|j: int| 0 <= j < i ==> !forbidden_name_char(#[trigger] s@[j]),
        decreases n - i,
    {
        let c = cs[i];
        if c == '.' || c == '(' || c == ')' || c == '"' || c == '<' || c == '>' || c == '\\'
            || c == '{' || c == '}' {
            return false;
        }
        if !char_is_whitespace(c) {
            has_content = true;
        }
        i += 1;
    }
    if !has_content {
        return false;
    }
    let graphemes = count_graphemes(s);
    graphemes <= 256
}

/// A subscriber name that passed validation; its view is the name's text.
pub struct SubscriberName {
    name: String,
}

impl View for SubscriberName {
    type V = Seq<char>;

    closed spec fn view(&self) -> Seq<char> {
        self.name@
    }
}

impl SubscriberName {
    /// Accepts exactly the valid subscriber names.
    pub fn parse(s: String) -> (r: Result<SubscriberName, String>)
        ensures
            r is Ok <==> spec_is_valid_name(s@),
            r matches Ok(n) ==> n@ == s@,
    {
        if is_valid_name(s.as_str()) {
            Ok(SubscriberName { name: s })
        } else {
            Err(String::from_str("not a valid subscriber name"))
        }
    }

    /// The name's text.
    pub fn as_str(&self) -> (r: &str)
        ensures
            r@ == self@,
    {
        &self.name
    }
}

/// A valid subscriber email: no whitespace, and exactly one `@` with text
/// on both sides.
pub open spec fn spec_is_valid_email(s: Seq<char>) -> bool {
    &&& forall|i: int| 0 <= i < s.len() ==> !is_unicode_whitespace(#[trigger] s[i])
    &&& exists|i: int| 0 < i < s.len() - 1 && #[trigger] s[i] == '@'
    &&& (forall|i: int, j: int|
        0 <= i < s.len() && 0 <= j < s.len() && #[trigger] s[i] == '@' && #[trigger] s[j] == '@'
            ==> i == j)
}

/// A subscriber email address that passed validation.
pub struct SubscriberEmail {
    email: String,
}

impl View for SubscriberEmail {
    type V = Seq<char>;

    closed spec fn view(&self) -> Seq<char> {
        self.email@
    }
}

impl SubscriberEmail {
    /// Accepts exactly the valid subscriber emails.
    pub fn parse(s: String) -> (r: Result<SubscriberEmail, String>)
        ensures
            r is Ok <==> spec_is_valid_email(s@),
            r matches Ok(e) ==> e@ == s@,
    {
        let cs = chars_vec(s.as_str());
        let n = cs.len();
        let mut at_pos: Option<usize> = None;
        let mut i: usize = 0;
        while i < n
            invariant
                0 <= i <= n,
                n == cs@.len(),
                cs@ == s@,
                forall|j: int| 0 <= j < i ==> !is_unicode_whitespace(#[trigger] s@[j]),
                match at_pos {
                    Some(p) => p < i && s@[p as int] == '@' && (forall|j: int|
                        0 <= j < i && j != p ==> #[trigger] s@[j] != '@'),
                    None => forall|j: int| 0 <= j < i ==> #[trigger] s@[j] != '@',
                },
            decreases n - i,
        {
            let c = cs[i];
            if char_is_whitespace(c) {
                return Err(String::from_str("not a valid subscriber email"));
            }
            if c == '@' {
                match at_pos {
                    Some(_) => {
                        return Err(String::from_str("not a valid subscriber email"));
                    },
                    None => {
                        at_pos = Some(i);
                    },
                }
            }
            i += 1;
        }
        match at_pos {
            Some(p) => {
                if p > 0 && p < n - 1 {
                    Ok(SubscriberEmail { email: s })
                } else {
                    Err(String::from_str("not a valid subscriber email"))
                }
            },
            None => Err(String::from_str("not a valid subscriber email")),
        }
    }

    /// The address text.
    pub fn as_str(&self) -> (r: &str)
        ensures
            r@ == self@,
    {
        &self.email
    }
}

/// A new subscriber whose details passed validation.
pub struct NewSubscriber {
    pub email: SubscriberEmail,
    pub name: SubscriberName,
}

/// Validates a subscription form's fields: the name first, then the email;
/// the first failure is reported.
pub fn parse_subscriber(name: String, email: String) -> (r: Result<NewSubscriber, String>)
    ensures
        r is Ok <==> spec_is_valid_name(name@) && spec_is_valid_email(email@),
        r matches Ok(s) ==> s.name@ == name@ && s.email@ == email@,
{
    let name = match SubscriberName::parse(name) {
        Ok(n) => n,
        Err(e) => {
            return Err(e);
        },
    };
    let email = match SubscriberEmail::parse(email) {
        Ok(e) => e,
        Err(e) => {
            return Err(e);
        },
    };
    Ok(NewSubscriber { email, name })
}

/// The same validation, surfaced as the subscribe route's error.
pub fn parse_subscriber_request(name: String, email: String) -> (r: Result<
    NewSubscriber,
    SubscribeError,
>)
    ensures
        r is Ok <==> spec_is_valid_name(name@) && spec_is_valid_email(email@),
        r matches Ok(s) ==> s.name@ == name@ && s.email@ == email@,
        r matches Err(e) ==> e is ValidationError,
{
    match parse_subscriber(name, email) {
        Ok(s) => Ok(s),
        Err(e) => Err(SubscribeError::ValidationError(e)),
    }
}

/// How long a subscription token is, in characters.
pub const SUBSCRIPTION_TOKEN_LEN: usize = 25;

/// An ASCII letter or digit, as a byte.
pub open spec fn is_alphanumeric_byte(b: u8) -> bool {
    ||| 48 <= b <= 57
    ||| 65 <= b <= 90
    ||| 97 <= b <= 122
}

/// The thread-local random generator of `rand`, opaque to the library.
#[verifier::external_type_specification]
#[verifier::external_body]
pub struct ExThreadRng(rand::rngs::ThreadRng);

/// Relies on `rand::thread_rng`: a handle to the thread-local generator.
#[verifier::external_body]
fn fresh_rng() -> rand::rngs::ThreadRng {
    rand::thread_rng()
}

/// Relies on `rand`'s `Alphanumeric` distribution: every sample is an
/// ASCII letter or digit. Nothing else is promised of a random draw.
#[verifier::external_body]
fn sample_alphanumeric(rng: &mut rand::rngs::ThreadRng) -> (b: u8)
    ensures
        is_alphanumeric_byte(b),
{
    rand::Rng::sample(rng, rand::distributions::Alphanumeric)
}

/// A randomly drawn subscription token: 25 ASCII letters and digits.
/// Which ones is up to the generator; every caller must be correct for
/// any such token.
pub fn generate_subscription_token() -> (t: String)
    ensures
        t@.len() == SUBSCRIPTION_TOKEN_LEN,
        forall|i: int| 0 <= i < t@.len() ==> is_alphanumeric_byte(#[trigger] t@[i] as u8),
{
    let mut rng = fresh_rng();
    let mut chars: Vec<char> = Vec::new();
    let mut i: usize = 0;
    while i < SUBSCRIPTION_TOKEN_LEN
        invariant
            0 <= i <= SUBSCRIPTION_TOKEN_LEN,
            chars@.len() == i,
            forall|j: int| 0 <= j < i ==> is_alphanumeric_byte(#[trigger] chars@[j] as u8),
        decreases SUBSCRIPTION_TOKEN_LEN - i,
    {
        let b = sample_alphanumeric(&mut rng);
        let c = b as char;
        proof {
            assert(c as u8 == b);
        }
        chars.push(c);
        i += 1;
    }
    string_from_chars(&chars)
}


/// The link a new subscriber must visit to confirm the subscription.
pub fn confirmation_link(base_url: &str, subscription_token: &str) -> (r: String)
    ensures
        r@ == base_url@ + "/subscriptions/confirm?subscription_token="@ + subscription_token@,
{
    let mut s = base_url.to_owned();
    s.append("/subscriptions/confirm?subscription_token=");
    s.append(subscription_token);
    s
}

/// The plain-text body of the confirmation email.
pub fn confirmation_plain_body(link: &str) -> (r: String)
    ensures
        r@ == "Welcome to our newsletter!\nVisit "@ + link@ + " to confirm your subscription."@,
{
    let mut s = String::from_str("Welcome to our newsletter!\nVisit ");
    s.append(link);
    s.append(" to confirm your subscription.");
    s
}

/// The HTML body of the confirmation email.
pub fn confirmation_html_body(link: &str) -> (r: String)
    ensures
        r@ == "Welcome to our newsletter!<br />Click <a href=\""@ + link@
            + "\">here</a> to confirm your subscription."@,
{
    let mut s = String::from_str("Welcome to our newsletter!<br />Click <a href=\"");
    s.append(link);
    s.append("\">here</a> to confirm your subscription.");
    s
}


/// Sifts the stored rows of confirmed subscriber emails: each row either
/// parses into an address to deliver to, or is reported with the reason —
/// a row that went bad in storage is skipped, not fatal.
pub fn parse_confirmed_subscribers(rows: &Vec<String>) -> (r: Vec<Result<SubscriberEmail, String>>)
    ensures
        r@.len() == rows@.len(),
        forall|i: int|
            0 <= i < rows@.len() ==> ((#[trigger] r@[i]) is Ok <==> spec_is_valid_email(
                rows@[i]@,
            )) && (r@[i] matches Ok(e) ==> e@ == rows@[i]@),
{
    let n = rows.len();
    let mut out: Vec<Result<SubscriberEmail, String>> = Vec::new();
    let mut i: usize = 0;
    while i < n
        invariant
            0 <= i <= n,
            n == rows@.len(),
            out@.len() == i,
            forall|j: int|
                0 <= j < i ==> ((#[trigger] out@[j]) is Ok <==> spec_is_valid_email(
                    rows@[j]@,
                )) && (out@[j] matches Ok(e) ==> e@ == rows@[j]@),
        decreases n - i,
    {
        let row = rows[i].clone();
        out.push(SubscriberEmail::parse(row));
        i += 1;
    }
    out
}

} // verus!
