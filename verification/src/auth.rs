//! Credential validation. The caller looks the username up in its user
//! store and hands over what it found; the decision — including verifying
//! against a fallback hash when the username is unknown, so that unknown
//! and known usernames take comparable time — lives here.

use vstd::prelude::*;
use vstd::string::StringSliceAdditionalSpecFns;
use vstd::utf8::decode_utf8;
use vstd::utf8::valid_utf8;
use crate::errors::AuthError;
use crate::errors::BasicAuthError;
use crate::text::chars_vec;
use crate::text::string_from_chars;
use crate::text::string_from_utf8;

verus! {

/// Login credentials as submitted: a username and the password candidate.
pub struct Credentials {
    pub username: String,
    pub password: String,
}

/// Whether `argon2` can parse this string in PHC format.
pub uninterp spec fn phc_well_formed(phc: Seq<char>) -> bool;

/// Whether the password matches the PHC hash under `argon2`'s
/// recomputation; a function of the two strings alone.
pub uninterp spec fn argon2_matches(phc: Seq<char>, password: Seq<char>) -> bool;

/// What checking a password against a stored PHC string can yield.
#[derive(Clone, Copy, Debug, PartialEq, Eq, Structural)]
enum PasswordCheck {
    Match,
    Mismatch,
    BadHash,
}

/// Relies on `argon2`'s `PasswordHash::new` — whether the stored string
/// parses as PHC — and `Argon2::verify_password` — whether recomputing the
/// hash of the candidate reproduces it. Both depend on the two strings
/// alone.
#[verifier::external_body]
fn check_password(phc: &str, password: &str) -> (r: PasswordCheck)
    ensures
        (r == PasswordCheck::BadHash <==> !phc_well_formed(phc@)),
        phc_well_formed(phc@) ==> (r == PasswordCheck::Match <==> argon2_matches(
            phc@,
            password@,
        )),
{
    match argon2::PasswordHash::new(phc) {
        Err(_) => PasswordCheck::BadHash,
        Ok(parsed) => {
            match argon2::PasswordVerifier::verify_password(
                &argon2::Argon2::default(),
                password.as_bytes(),
                &parsed,
            ) {
                Ok(()) => PasswordCheck::Match,
                Err(_) => PasswordCheck::Mismatch,
            }
        },
    }
}

/// Checks a password candidate against a stored PHC-format hash: a hash
/// that does not parse is an unexpected error, a parseable one admits the
/// password exactly when `argon2` reproduces it.
pub fn verify_password_hash(expected_password_hash: &str, password_candidate: &str) -> (r: Result<
    (),
    AuthError,
>)
    ensures
        !phc_well_formed(expected_password_hash@) <==> r == Err::<(), AuthError>(
            AuthError::UnexpectedError,
        ),
        r is Ok <==> phc_well_formed(expected_password_hash@) && argon2_matches(
            expected_password_hash@,
            password_candidate@,
        ),
{
    match check_password(expected_password_hash, password_candidate) {
        PasswordCheck::Match => Ok(()),
        PasswordCheck::Mismatch => Err(AuthError::InvalidCredentials),
        PasswordCheck::BadHash => Err(AuthError::UnexpectedError),
    }
}

/// The PHC string a lookup miss is verified against, so that an unknown
/// username costs as much time as a known one.
pub const FALLBACK_PASSWORD_HASH: &'static str = "$argon2id$v=19$m=15000,t=2,p=1$\
        gZiV/M1gPc22ElAH/Jh1Hw$\
        CWOrkoo7oJBQ/iyh7uJ0LO2aLEfrHwTWllSAxT0zRno";

/// Decides a login attempt from the submitted credentials and the stored
/// `(user id, password hash)` row for that username, if one exists. An
/// unknown username still runs a hash verification — against the fallback
/// hash — before being turned away as invalid.
pub fn validate_credentials(credentials: &Credentials, stored: Option<(u128, String)>) -> (r:
    Result<u128, AuthError>)
    ensures
        match stored {
            None => r == Err::<u128, AuthError>(AuthError::InvalidCredentials),
            Some((uid, phc)) => {
                if !phc_well_formed(phc@) {
                    r == Err::<u128, AuthError>(AuthError::UnexpectedError)
                } else if argon2_matches(phc@, credentials.password@) {
                    r == Ok::<u128, AuthError>(uid)
                } else {
                    r == Err::<u128, AuthError>(AuthError::InvalidCredentials)
                }
            },
        },
{
    match stored {
        Some((uid, phc)) => {
            match verify_password_hash(phc.as_str(), credentials.password.as_str()) {
                Ok(()) => Ok(uid),
                Err(e) => Err(e),
            }
        },
        None => {
            let _ = verify_password_hash(
                FALLBACK_PASSWORD_HASH,
                credentials.password.as_str(),
            );
            Err(AuthError::InvalidCredentials)
        },
    }
}

/// What decoding a string with `base64`'s standard, padded alphabet
/// yields; a function of the input alone.
pub uninterp spec fn base64_standard_decoded(s: Seq<char>) -> Option<Seq<u8>>;

/// Relies on `base64`'s `Engine::decode` with the `STANDARD` engine:
/// canonical, padded decoding, a function of the input alone.
#[verifier::external_body]
fn base64_decode_standard(s: &str) -> (r: Option<Vec<u8>>)
    ensures
        match r {
            Some(v) => base64_standard_decoded(s@) == Some(v@),
            None => base64_standard_decoded(s@) is None,
        },
{
    match base64::Engine::decode(&base64::engine::general_purpose::STANDARD, s) {
        Ok(v) => Some(v),
        Err(_) => None,
    }
}

/// The first position of `c` in `s`, if any.
pub open spec fn spec_find_char(s: Seq<char>, c: char) -> Option<int>
    decreases s.len(),
{
    if s.len() == 0 {
        None
    } else if s[0] == c {
        Some(0)
    } else {
        match spec_find_char(s.drop_first(), c) {
            Some(i) => Some(i + 1),
            None => None,
        }
    }
}

/// What a well-formed `Authorization` header value must decode to:
/// `Basic <base64 of "user:password">`.
pub open spec fn spec_basic_auth(header: Seq<char>) -> Option<(Seq<char>, Seq<char>)> {
    if !(header.len() >= 6 && header.take(6) == "Basic "@) {
        None
    } else {
        match base64_standard_decoded(header.skip(6)) {
            None => None,
            Some(bytes) => {
                if !valid_utf8(bytes) {
                    None
                } else {
                    let text = decode_utf8(bytes);
                    match spec_find_char(text, ':') {
                        None => None,
                        Some(i) => Some((text.take(i), text.skip(i + 1))),
                    }
                }
            },
        }
    }
}

/// Which rejection an ill-formed header value earns: the checks run in
/// the order scheme, base64, UTF-8, separator.
pub open spec fn spec_basic_auth_error(header: Seq<char>) -> BasicAuthError {
    if !(header.len() >= 6 && header.take(6) == "Basic "@) {
        BasicAuthError::NotBasic
    } else {
        match base64_standard_decoded(header.skip(6)) {
            None => BasicAuthError::BadBase64,
            Some(bytes) => {
                if !valid_utf8(bytes) {
                    BasicAuthError::NotUtf8
                } else {
                    BasicAuthError::NoColon
                }
            },
        }
    }
}

/// Extracts the credentials from a `Basic` `Authorization` header value:
/// the scheme prefix, base64 decoding, UTF-8, and the `user:password`
/// split, each failure rejected in turn and named.
pub fn basic_authentication(header_value: &str) -> (r: Result<Credentials, BasicAuthError>)
    ensures
        match r {
            Ok(c) => spec_basic_auth(header_value@) == Some((c.username@, c.password@)),
            Err(e) => spec_basic_auth(header_value@) is None && e == spec_basic_auth_error(
                header_value@,
            ),
        },
{
    let hs = chars_vec(header_value);
    if hs.len() < 6 {
        proof {
            reveal_strlit("Basic ");
        }
        return Err(BasicAuthError::NotBasic);
    }
    let prefix_ok = hs[0] == 'B' && hs[1] == 'a' && hs[2] == 's' && hs[3] == 'i' && hs[4] == 'c'
        && hs[5] == ' ';
    proof {
        reveal_strlit("Basic ");
        if prefix_ok {
            assert(header_value@.take(6) =~= "Basic "@);
        } else {
            if header_value@.take(6) =~= "Basic "@ {
                assert(forall|k: int|
                    0 <= k < 6 ==> #[trigger] header_value@.take(6)[k] == header_value@[k]);
                assert("Basic "@[0] == 'B' && "Basic "@[1] == 'a' && "Basic "@[2] == 's'
                    && "Basic "@[3] == 'i' && "Basic "@[4] == 'c' && "Basic "@[5] == ' ');
                assert(header_value@[0] == 'B' && header_value@[1] == 'a' && header_value@[2]
                    == 's' && header_value@[3] == 'i' && header_value@[4] == 'c'
                    && header_value@[5] == ' ');
                assert(false);
            }
        }
    }
    if !prefix_ok {
        return Err(BasicAuthError::NotBasic);
    }
    let mut rest: Vec<char> = Vec::new();
    let n = hs.len();
    let mut i: usize = 6;
    while i < n
        invariant
            6 <= i <= n,
            n == hs@.len(),
            hs@ == header_value@,
            rest@ =~= header_value@.subrange(6, i as int),
        decreases n - i,
    {
        rest.push(hs[i]);
        i += 1;
    }
    proof {
        assert(rest@ =~= header_value@.skip(6));
    }
    let encoded = string_from_chars(&rest);
    let decoded_bytes = match base64_decode_standard(encoded.as_str()) {
        Some(v) => v,
        None => {
            return Err(BasicAuthError::BadBase64);
        },
    };
    let text = match string_from_utf8(decoded_bytes) {
        Some(t) => t,
        None => {
            return Err(BasicAuthError::NotUtf8);
        },
    };
    let ts = chars_vec(text.as_str());
    let m = ts.len();
    let mut colon: Option<usize> = None;
    let mut j: usize = 0;
    while j < m
        invariant
            0 <= j <= m,
            m == ts@.len(),
            ts@ == text@,
            match colon {
                Some(p) => p < j && text@[p as int] == ':' && (forall|q: int|
                    0 <= q < p ==> #[trigger] text@[q] != ':'),
                None => forall|q: int| 0 <= q < j ==> #[trigger] text@[q] != ':',
            },
        decreases m - j,
    {
        if colon.is_none() && ts[j] == ':' {
            colon = Some(j);
        }
        j += 1;
    }
    let p = match colon {
        Some(p) => p,
        None => {
            proof {
                lemma_find_char_none(text@, ':');
            }
            return Err(BasicAuthError::NoColon);
        },
    };
    proof {
        lemma_find_char_at(text@, ':', p as int);
    }
    let mut user: Vec<char> = Vec::new();
    let mut k: usize = 0;
    while k < p
        invariant
            0 <= k <= p < m,
            m == ts@.len(),
            ts@ == text@,
            user@ =~= text@.subrange(0, k as int),
        decreases p - k,
    {
        user.push(ts[k]);
        k += 1;
    }
    let mut pass: Vec<char> = Vec::new();
    let mut k2: usize = p + 1;
    while k2 < m
        invariant
            p + 1 <= k2 <= m,
            m == ts@.len(),
            ts@ == text@,
            pass@ =~= text@.subrange(p + 1, k2 as int),
        decreases m - k2,
    {
        pass.push(ts[k2]);
        k2 += 1;
    }
    proof {
        assert(user@ =~= text@.take(p as int));
        assert(pass@ =~= text@.skip(p + 1));
    }
    Ok(
        Credentials {
            username: string_from_chars(&user),
            password: string_from_chars(&pass),
        },
    )
}

/// If no position holds `c`, the search comes up empty.
proof fn lemma_find_char_none(s: Seq<char>, c: char)
    requires
        forall|i: int| 0 <= i < s.len() ==> #[trigger] s[i] != c,
    ensures
        spec_find_char(s, c) is None,
    decreases s.len(),
{
    if s.len() > 0 {
        assert(forall|i: int|
            0 <= i < s.drop_first().len() ==> s.drop_first()[i] == s[i + 1]);
        lemma_find_char_none(s.drop_first(), c);
    }
}

/// The search finds the first position that holds `c`.
proof fn lemma_find_char_at(s: Seq<char>, c: char, p: int)
    requires
        0 <= p < s.len(),
        s[p] == c,
        forall|i: int| 0 <= i < p ==> #[trigger] s[i] != c,
    ensures
        spec_find_char(s, c) == Some(p),
    decreases s.len(),
{
    if p > 0 {
        assert(forall|i: int|
            0 <= i < s.drop_first().len() ==> s.drop_first()[i] == s[i + 1]);
        lemma_find_char_at(s.drop_first(), c, p - 1);
    }
}

} // verus!
