//! The login route's decisions: checking credentials, building the signed
//! error redirect, and verifying the signature when the error message
//! comes back on the login form's query string.

use vstd::prelude::*;
use vstd::slice::slice_to_vec;
use vstd::string::StringSliceAdditionalSpecFns;
use vstd::utf8::encode_utf8;
use crate::auth::Credentials;
use crate::auth::argon2_matches;
use crate::auth::phc_well_formed;
use crate::auth::validate_credentials;
use crate::errors::AuthError;
use crate::errors::LoginError;
use crate::errors::TagError;
use crate::response::SavedResponse;
use crate::response::spec_see_other;

verus! {

/// The HMAC-SHA-256 tag of a message under a key, as `hmac` computes it;
/// a function of key and message alone.
pub uninterp spec fn hmac_sha256(key: Seq<u8>, msg: Seq<u8>) -> Seq<u8>;

/// Relies on `hmac`'s `Hmac<Sha256>`: `new_from_slice` accepts keys of any
/// length, and the finalized tag depends on key and message alone and is
/// 32 bytes long.
#[verifier::external_body]
fn hmac_sha256_tag(key: &[u8], msg: &[u8]) -> (r: Vec<u8>)
    ensures
        r@ == hmac_sha256(key@, msg@) && r@.len() == 32,
{
    let mut mac = <hmac::Hmac<sha2::Sha256> as hmac::Mac>::new_from_slice(key).unwrap();
    hmac::Mac::update(&mut mac, msg);
    let out = hmac::Mac::finalize(mac).into_bytes();
    out.as_slice().to_vec()
}

/// What `urlencoding` makes of a string; a function of the input alone.
pub uninterp spec fn url_encoded(s: Seq<char>) -> Seq<char>;

/// Relies on `urlencoding::encode`: percent-encodes every byte except
/// ASCII letters, digits and `-`, `.`, `_`, `~`.
#[verifier::external_body]
fn url_encode(s: &str) -> (r: String)
    ensures
        r@ == url_encoded(s@),
{
    urlencoding::encode(s).into_owned()
}

/// The value of an ASCII hex digit, upper or lower case.
pub open spec fn hex_digit_value(b: u8) -> Option<u8> {
    if 48 <= b <= 57 {
        Some((b - 48) as u8)
    } else if 65 <= b <= 70 {
        Some((b - 55) as u8)
    } else if 97 <= b <= 102 {
        Some((b - 87) as u8)
    } else {
        None
    }
}

/// Hex decoding over bytes: even length, two digits a byte.
pub open spec fn spec_hex_decode(b: Seq<u8>) -> Option<Seq<u8>>
    decreases b.len(),
{
    if b.len() % 2 != 0 {
        None
    } else if b.len() == 0 {
        Some(Seq::empty())
    } else {
        match (hex_digit_value(b[0]), hex_digit_value(b[1])) {
            (Some(hi), Some(lo)) => match spec_hex_decode(b.skip(2)) {
                Some(rest) => Some(seq![(hi * 16 + lo) as u8] + rest),
                None => None,
            },
            _ => None,
        }
    }
}

/// Relies on `hex::decode`: accepts exactly even-length strings of hex
/// digits, upper and lower case alike, two digits a byte.
#[verifier::external_body]
fn hex_decode(s: &str) -> (r: Option<Vec<u8>>)
    ensures
        match r {
            Some(v) => spec_hex_decode(s.spec_bytes()) == Some(v@),
            None => spec_hex_decode(s.spec_bytes()) is None,
        },
{
    match hex::decode(s) {
        Ok(v) => Some(v),
        Err(_) => None,
    }
}

/// The lower-case hex digit for a value below 16, as a byte.
pub open spec fn hex_lower_digit(n: u8) -> u8 {
    if n < 10 {
        (48 + n) as u8
    } else {
        (87 + n) as u8
    }
}

/// Lower-case hex of a byte sequence, two digits for each byte.
pub open spec fn spec_hex_lower(b: Seq<u8>) -> Seq<u8> {
    Seq::new(
        2 * b.len(),
        |i: int|
            if i % 2 == 0 {
                hex_lower_digit(b[i / 2] >> 4)
            } else {
                hex_lower_digit(b[i / 2] & 15)
            },
    )
}

/// Writes bytes as lower-case hex.
pub fn hex_lower(bytes: &Vec<u8>) -> (r: Vec<u8>)
    ensures
        r@ =~= spec_hex_lower(bytes@),
{
    let n = bytes.len();
    let mut out: Vec<u8> = Vec::new();
    let mut i: usize = 0;
    while i < n
        invariant
            0 <= i <= n,
            n == bytes@.len(),
            out@.len() == 2 * i,
            forall|j: int| 0 <= j < 2 * i ==> out@[j] == spec_hex_lower(bytes@)[j],
        decreases n - i,
    {
        let b = bytes[i];
        let hi = b >> 4;
        let lo = b & 15;
        proof {
            assert(hi < 16 && lo < 16) by (bit_vector)
                requires
                    hi == b >> 4,
                    lo == b & 15,
            ;
        }
        let dh = if hi < 10 {
            48 + hi
        } else {
            87 + hi
        };
        let dl = if lo < 10 {
            48 + lo
        } else {
            87 + lo
        };
        out.push(dh);
        out.push(dl);
        proof {
            assert(out@[2 * i as int] == spec_hex_lower(bytes@)[2 * i as int]);
            assert(out@[2 * i as int + 1] == spec_hex_lower(bytes@)[2 * i as int + 1]);
        }
        i += 1;
    }
    out
}

/// The query string whose tag the login flow signs: `error=<urlencoded>`.
pub open spec fn spec_login_error_query(e: Seq<char>) -> Seq<u8> {
    encode_utf8("error="@) + encode_utf8(url_encoded(e))
}

/// The location a failed login redirects to: the signed query followed by
/// its tag in lower-case hex.
pub open spec fn spec_login_error_location(e: Seq<char>, secret: Seq<u8>) -> Seq<u8> {
    encode_utf8("/login?"@) + spec_login_error_query(e) + encode_utf8("&tag="@)
        + spec_hex_lower(hmac_sha256(secret, spec_login_error_query(e)))
}

/// Builds the signed query for an error message.
fn login_error_query(error_message: &str) -> (q: Vec<u8>)
    ensures
        q@ =~= spec_login_error_query(error_message@),
{
    let encoded = url_encode(error_message);
    let mut q: Vec<u8> = slice_to_vec("error=".as_bytes());
    q.extend_from_slice(encoded.as_str().as_bytes());
    proof {
        assert(q@ =~= spec_login_error_query(error_message@));
    }
    q
}

/// Builds the failed-login redirect location, tag included.
pub fn login_error_location(error_message: &str, secret: &[u8]) -> (loc: Vec<u8>)
    ensures
        loc@ =~= spec_login_error_location(error_message@, secret@),
{
    let q = login_error_query(error_message);
    let tag = hmac_sha256_tag(secret, q.as_slice());
    let hexed = hex_lower(&tag);
    let mut loc: Vec<u8> = slice_to_vec("/login?".as_bytes());
    loc.extend_from_slice(q.as_slice());
    loc.extend_from_slice("&tag=".as_bytes());
    loc.extend_from_slice(hexed.as_slice());
    proof {
        assert(loc@ =~= spec_login_error_location(error_message@, secret@));
    }
    loc
}

/// Each login failure's user-facing message.
pub open spec fn spec_login_error_message(e: LoginError) -> Seq<char> {
    match e {
        LoginError::AuthError => "Authentication field"@,
        LoginError::UnexpectedError => "Something went wrong"@,
    }
}

impl LoginError {
    /// The message shown for this failure.
    pub fn message(&self) -> (m: &'static str)
        ensures
            m@ == spec_login_error_message(*self),
    {
        match self {
            LoginError::AuthError => "Authentication field",
            LoginError::UnexpectedError => "Something went wrong",
        }
    }

    /// The redirect a failed login answers with: back to the login form,
    /// with this failure's message and its tag in the query string.
    pub fn error_response(&self, secret: &[u8]) -> (r: SavedResponse)
        ensures
            r@ =~= spec_see_other(
                spec_login_error_location(spec_login_error_message(*self), secret@),
            ),
    {
        let loc = login_error_location(self.message(), secret);
        SavedResponse::see_other_raw(loc)
    }
}

/// Decides the login route's outcome from the submitted credentials and
/// the stored row for that username: a successful check redirects home;
/// any failure redirects back to the login form, carrying the failure's
/// message and its HMAC tag under `secret`.
pub fn login(credentials: &Credentials, stored: Option<(u128, String)>, secret: &[u8]) -> (r:
    Result<(u128, SavedResponse), (LoginError, SavedResponse)>)
    ensures
        match stored {
            None => r matches Err((e, resp)) && e == LoginError::AuthError && resp@
                =~= spec_see_other(
                spec_login_error_location(spec_login_error_message(e), secret@),
            ),
            Some((uid, phc)) => {
                if !phc_well_formed(phc@) {
                    r matches Err((e, resp)) && e == LoginError::UnexpectedError && resp@
                        =~= spec_see_other(
                        spec_login_error_location(spec_login_error_message(e), secret@),
                    )
                } else if argon2_matches(phc@, credentials.password@) {
                    r matches Ok((u, resp)) && u == uid && resp@ =~= spec_see_other(
                        encode_utf8("/"@),
                    )
                } else {
                    r matches Err((e, resp)) && e == LoginError::AuthError && resp@
                        =~= spec_see_other(
                        spec_login_error_location(spec_login_error_message(e), secret@),
                    )
                }
            },
        },
{
    match validate_credentials(credentials, stored) {
        Ok(user_id) => Ok((user_id, SavedResponse::see_other("/"))),
        Err(e) => {
            let login_error = match e {
                AuthError::InvalidCredentials => LoginError::AuthError,
                AuthError::UnexpectedError => LoginError::UnexpectedError,
            };
            let resp = login_error.error_response(secret);
            Err((login_error, resp))
        },
    }
}

/// The query parameters the login form receives back after a failure.
pub struct QueryParams {
    pub error: String,
    pub tag: String,
}

impl QueryParams {
    /// Accepts exactly when `tag` is the lower-case hex of the HMAC tag of
    /// the signed query for `error` under `secret`, and hands the error
    /// message back; a rejection names whether the tag failed as hex or
    /// as a signature.
    pub fn verify(self, secret: &[u8]) -> (r: Result<String, TagError>)
        ensures
            match r {
                Ok(e) => e@ == self.error@ && (match spec_hex_decode(
                    encode_utf8(self.tag@),
                ) {
                    Some(t) => t == hmac_sha256(secret@, spec_login_error_query(self.error@)),
                    None => false,
                }),
                Err(TagError::NotHex) => spec_hex_decode(encode_utf8(self.tag@)) is None,
                Err(TagError::Mismatch) => (match spec_hex_decode(encode_utf8(self.tag@)) {
                    Some(t) => t != hmac_sha256(secret@, spec_login_error_query(self.error@)),
                    None => false,
                }),
            },
    {
        let tag_bytes = match hex_decode(self.tag.as_str()) {
            Some(v) => v,
            None => {
                return Err(TagError::NotHex);
            },
        };
        let q = login_error_query(self.error.as_str());
        let expected = hmac_sha256_tag(secret, q.as_slice());
        if tag_bytes == expected {
            proof {
                assert(tag_bytes@ =~= expected@);
            }
            Ok(self.error)
        } else {
            proof {
                if tag_bytes@ == expected@ {
                    assert(tag_bytes@ =~= expected@);
                    assert(false);
                }
            }
            Err(TagError::Mismatch)
        }
    }
}

} // verus!
