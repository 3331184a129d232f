//! Tagged error types, one per component, and their mapping to
//! transport-level status codes at the boundary.

use vstd::prelude::*;
use crate::response::RespV;
use crate::response::SavedResponse;

verus! {

/// Why an idempotency key was rejected before any storage access.
#[derive(Clone, Copy, Debug, PartialEq, Eq, Structural)]
pub enum KeyRejection {
    /// The key is empty.
    Empty,
    /// The key contains a character outside ASCII letters, digits and `-`.
    ForbiddenChar,
    /// The key is longer than the accepted maximum.
    TooLong,
}

/// Errors of the publish admission path: key validation and the
/// idempotency-record race.
#[derive(Clone, Copy, Debug, PartialEq, Eq, Structural)]
pub enum PublishFlowError {
    /// The idempotency key failed syntactic validation; a client error.
    Validation(KeyRejection),
    /// Another request holds the same key and has not finished yet; the
    /// caller may retry with backoff.
    ConcurrencyConflict,
}

impl PublishFlowError {
    /// Transport status for each error: validation is a client error,
    /// a duplicate in flight is reported as a conflict.
    pub fn transport_status(&self) -> (s: u16)
        ensures
            s == (match self {
                PublishFlowError::Validation(_) => 400u16,
                PublishFlowError::ConcurrencyConflict => 409u16,
            }),
    {
        match self {
            PublishFlowError::Validation(_) => 400,
            PublishFlowError::ConcurrencyConflict => 409,
        }
    }
}

/// A delivery failure at the email transport: expected and routine, never
/// surfaced to the end user; the worker rolls back and the task is
/// retried on a later dequeue.
#[derive(Clone, Copy, Debug, PartialEq, Eq, Structural)]
pub enum DeliveryError {
    /// The transport reported a failure; the cause is opaque.
    SendFailed,
}

/// Why a `Basic` `Authorization` header value was rejected.
#[derive(Clone, Copy, Debug, PartialEq, Eq, Structural)]
pub enum BasicAuthError {
    /// The value does not start with the `Basic ` scheme.
    NotBasic,
    /// The part after the scheme is not valid base64.
    BadBase64,
    /// The decoded bytes are not UTF-8.
    NotUtf8,
    /// The decoded text has no `:` separating user and password.
    NoColon,
}

/// Why a signed error tag on the login form's query was rejected.
#[derive(Clone, Copy, Debug, PartialEq, Eq, Structural)]
pub enum TagError {
    /// The tag is not an even-length string of hex digits.
    NotHex,
    /// The tag does not match the message under the secret.
    Mismatch,
}

/// Credential validation failures.
#[derive(Clone, Copy, Debug, PartialEq, Eq, Structural)]
pub enum AuthError {
    /// The username is unknown or the password does not match.
    InvalidCredentials,
    /// The stored password hash could not be used.
    UnexpectedError,
}

/// Login failures, derived from `AuthError` at the login route.
#[derive(Clone, Copy, Debug, PartialEq, Eq, Structural)]
pub enum LoginError {
    AuthError,
    UnexpectedError,
}

impl LoginError {
    /// The login route always answers with a redirect.
    pub fn status_code(&self) -> (s: u16)
        ensures
            s == 303u16,
    {
        303
    }
}

/// Failures of the publish route.
#[derive(Clone, Copy, Debug, PartialEq, Eq, Structural)]
pub enum PublishError {
    AuthError,
    UnexpectedError,
}

/// The transport response for each publish failure: an authentication
/// failure answers 401 with a `WWW-Authenticate` challenge, anything
/// unexpected a bare 500.
pub open spec fn spec_publish_error_response(e: PublishError) -> RespV {
    match e {
        PublishError::AuthError => RespV {
            status: 401,
            headers: seq![
                (
                    vstd::utf8::encode_utf8("WWW-Authenticate"@),
                    vstd::utf8::encode_utf8("Basic realm=\"publish\""@),
                ),
            ],
            body: Seq::empty(),
        },
        PublishError::UnexpectedError => RespV {
            status: 500,
            headers: Seq::empty(),
            body: Seq::empty(),
        },
    }
}

impl PublishError {
    /// The response this failure is reported with.
    pub fn error_response(&self) -> (r: SavedResponse)
        ensures
            r@ =~= spec_publish_error_response(*self),
    {
        match self {
            PublishError::AuthError => {
                let name: Vec<u8> = vstd::slice::slice_to_vec("WWW-Authenticate".as_bytes());
                let value: Vec<u8> = vstd::slice::slice_to_vec(
                    "Basic realm=\"publish\"".as_bytes(),
                );
                let mut headers: Vec<(Vec<u8>, Vec<u8>)> = Vec::new();
                headers.push((name, value));
                SavedResponse { status: 401, headers, body: Vec::new() }
            },
            PublishError::UnexpectedError => SavedResponse {
                status: 500,
                headers: Vec::new(),
                body: Vec::new(),
            },
        }
    }

    pub fn status_code(&self) -> (s: u16)
        ensures
            s == (match self {
                PublishError::AuthError => 401u16,
                PublishError::UnexpectedError => 500u16,
            }),
    {
        match self {
            PublishError::AuthError => 401,
            PublishError::UnexpectedError => 500,
        }
    }
}

/// Failures of the subscribe route.
#[derive(Debug)]
pub enum SubscribeError {
    /// The submitted subscriber data was rejected, with the reason.
    ValidationError(String),
    UnexpectedError,
}

impl SubscribeError {
    pub fn status_code(&self) -> (s: u16)
        ensures
            s == (match self {
                SubscribeError::ValidationError(_) => 400u16,
                SubscribeError::UnexpectedError => 500u16,
            }),
    {
        match self {
            SubscribeError::ValidationError(_) => 400,
            SubscribeError::UnexpectedError => 500,
        }
    }
}

impl From<String> for SubscribeError {
    fn from(e: String) -> Self {
        SubscribeError::ValidationError(e)
    }
}

impl vstd::std_specs::convert::FromSpecImpl<String> for SubscribeError {
    open spec fn obeys_from_spec() -> bool {
        true
    }

    open spec fn from_spec(e: String) -> Self {
        SubscribeError::ValidationError(e)
    }
}

} // verus!
