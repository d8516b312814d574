//! Classified failures of the remote store and the messages shown for them.
use vstd::prelude::*;

use crate::text::{cat, str_equal};

verus! {

/// What went wrong, whatever the operation.
#[derive(Clone, Copy, Debug, PartialEq, Eq, Structural)]
pub enum ErrorKind {
    NotFound,
    AlreadyExists,
    InvalidParameter,
    LimitExceeded,
    NetworkDispatchFailure,
    Timeout,
    Unclassified,
    MalformedBase64,
}

/// A failure of an operation: its kind and the text shown for it.
pub struct SecretError {
    pub kind: ErrorKind,
    pub message: String,
}

/// How a call to the remote store failed, as plain values: the service's
/// error code and message, or a rendering of a transport failure.
pub enum SdkFailure {
    Service { code: Option<String>, message: Option<String> },
    Dispatch(String),
    Timeout(String),
    Other(String),
}

/// The error code, or nothing.
pub open spec fn code_of(code: Option<String>) -> Seq<char> {
    match code {
        Some(c) => c@,
        None => Seq::empty(),
    }
}

pub open spec fn message_of(message: Option<String>) -> Seq<char> {
    match message {
        Some(m) => m@,
        None => "Unknown service error"@,
    }
}

/// The kind of a failure of reading, creating or updating a secret.
pub open spec fn kind_of(e: SdkFailure) -> ErrorKind {
    match e {
        SdkFailure::Service { code, .. } => {
            let c = code_of(code);
            if c == "ResourceNotFoundException"@ {
                ErrorKind::NotFound
            } else if c == "ResourceExistsException"@ {
                ErrorKind::AlreadyExists
            } else if c == "InvalidParameterException"@ {
                ErrorKind::InvalidParameter
            } else if c == "LimitExceededException"@ {
                ErrorKind::LimitExceeded
            } else {
                ErrorKind::Unclassified
            }
        },
        SdkFailure::Dispatch(_) => ErrorKind::NetworkDispatchFailure,
        SdkFailure::Timeout(_) => ErrorKind::Timeout,
        SdkFailure::Other(_) => ErrorKind::Unclassified,
    }
}

/// The message for a failure that no operation explains better.
pub open spec fn generic_message(e: SdkFailure) -> Seq<char> {
    match e {
        SdkFailure::Service { message, .. } => "Error: "@ + message_of(message),
        SdkFailure::Dispatch(d) => "Error: Network/dispatch error: "@ + d@,
        SdkFailure::Timeout(t) => "Error: Request timed out: "@ + t@,
        SdkFailure::Other(o) => "Error: SDK error: "@ + o@,
    }
}

pub open spec fn get_message(e: SdkFailure, secret_id: Seq<char>) -> Seq<char> {
    match kind_of(e) {
        ErrorKind::NotFound => "Error: Secret '"@ + secret_id + "' does not exist"@,
        ErrorKind::InvalidParameter => "Error: Invalid parameter when getting secret"@,
        _ => generic_message(e),
    }
}

pub open spec fn create_message(e: SdkFailure, secret_id: Seq<char>) -> Seq<char> {
    match kind_of(e) {
        ErrorKind::AlreadyExists => "Error: Secret '"@ + secret_id
            + "' already exists. Use Edit or choose another ID."@,
        ErrorKind::InvalidParameter => "Error: Invalid parameter when creating secret"@,
        ErrorKind::LimitExceeded => "Error: Secrets Manager resource limit exceeded"@,
        _ => generic_message(e),
    }
}

pub open spec fn update_message(e: SdkFailure) -> Seq<char> {
    match kind_of(e) {
        ErrorKind::NotFound => "Error: Secret does not exist for update"@,
        ErrorKind::InvalidParameter => "Error: Invalid parameter when updating secret"@,
        _ => generic_message(e),
    }
}

pub open spec fn delete_message(e: SdkFailure, secret_id: Seq<char>) -> Seq<char> {
    match kind_of(e) {
        ErrorKind::NotFound => "Error: Secret '"@ + secret_id + "' does not exist"@,
        ErrorKind::InvalidParameter => "Error: Invalid parameter when deleting secret"@,
        _ => generic_message(e),
    }
}

/// The kind of a failure.
pub fn classify(e: &SdkFailure) -> (r: ErrorKind)
    ensures
        r == kind_of(*e),
{
    match e {
        SdkFailure::Service { code, .. } => {
            let c: &str = match code {
                Some(c) => c.as_str(),
                None => "",
            };
            assert(c@ == code_of(*code)) by {
                if code.is_none() {
                    assert(""@.len() == 0) by {
                        reveal_strlit("");
                    }
                    assert(c@ =~= Seq::<char>::empty());
                }
            }
            if str_equal(c, "ResourceNotFoundException") {
                ErrorKind::NotFound
            } else if str_equal(c, "ResourceExistsException") {
                ErrorKind::AlreadyExists
            } else if str_equal(c, "InvalidParameterException") {
                ErrorKind::InvalidParameter
            } else if str_equal(c, "LimitExceededException") {
                ErrorKind::LimitExceeded
            } else {
                ErrorKind::Unclassified
            }
        },
        SdkFailure::Dispatch(_) => ErrorKind::NetworkDispatchFailure,
        SdkFailure::Timeout(_) => ErrorKind::Timeout,
        SdkFailure::Other(_) => ErrorKind::Unclassified,
    }
}

fn generic_error_message(e: &SdkFailure) -> (r: String)
    ensures
        r@ == generic_message(*e),
{
    match e {
        SdkFailure::Service { message, .. } => match message {
            Some(m) => cat("Error: ", m.as_str()),
            None => cat("Error: ", "Unknown service error"),
        },
        SdkFailure::Dispatch(d) => cat("Error: Network/dispatch error: ", d.as_str()),
        SdkFailure::Timeout(t) => cat("Error: Request timed out: ", t.as_str()),
        SdkFailure::Other(o) => cat("Error: SDK error: ", o.as_str()),
    }
}

/// The message shown when reading `secret_id` failed.
pub fn format_get_error(e: &SdkFailure, secret_id: &str) -> (r: String)
    ensures
        r@ == get_message(*e, secret_id@),
{
    match classify(e) {
        ErrorKind::NotFound => {
            let head = cat("Error: Secret '", secret_id);
            cat(head.as_str(), "' does not exist")
        },
        ErrorKind::InvalidParameter => String::from_str("Error: Invalid parameter when getting secret"),
        _ => generic_error_message(e),
    }
}

/// The message shown when creating `secret_id` failed.
pub fn format_create_error(e: &SdkFailure, secret_id: &str) -> (r: String)
    ensures
        r@ == create_message(*e, secret_id@),
{
    match classify(e) {
        ErrorKind::AlreadyExists => {
            let head = cat("Error: Secret '", secret_id);
            cat(head.as_str(), "' already exists. Use Edit or choose another ID.")
        },
        ErrorKind::InvalidParameter => String::from_str("Error: Invalid parameter when creating secret"),
        ErrorKind::LimitExceeded => String::from_str("Error: Secrets Manager resource limit exceeded"),
        _ => generic_error_message(e),
    }
}

/// The message shown when updating a secret failed.
pub fn format_update_error(e: &SdkFailure, _secret_id: &str) -> (r: String)
    ensures
        r@ == update_message(*e),
{
    match classify(e) {
        ErrorKind::NotFound => String::from_str("Error: Secret does not exist for update"),
        ErrorKind::InvalidParameter => String::from_str("Error: Invalid parameter when updating secret"),
        _ => generic_error_message(e),
    }
}

/// The message shown when deleting `secret_id` failed.
pub fn format_delete_error(e: &SdkFailure, secret_id: &str) -> (r: String)
    ensures
        r@ == delete_message(*e, secret_id@),
{
    match classify(e) {
        ErrorKind::NotFound => {
            let head = cat("Error: Secret '", secret_id);
            cat(head.as_str(), "' does not exist")
        },
        ErrorKind::InvalidParameter => String::from_str("Error: Invalid parameter when deleting secret"),
        _ => generic_error_message(e),
    }
}

/// The message shown when listing secrets failed.
pub fn format_list_error(e: &SdkFailure) -> (r: String)
    ensures
        r@ == generic_message(*e),
{
    generic_error_message(e)
}

/// A classified failure of reading `secret_id`.
pub fn get_error(e: &SdkFailure, secret_id: &str) -> (r: SecretError)
    ensures
        r.kind == kind_of(*e),
        r.message@ == get_message(*e, secret_id@),
{
    SecretError { kind: classify(e), message: format_get_error(e, secret_id) }
}

/// A classified failure of creating `secret_id`.
pub fn create_error(e: &SdkFailure, secret_id: &str) -> (r: SecretError)
    ensures
        r.kind == kind_of(*e),
        r.message@ == create_message(*e, secret_id@),
{
    SecretError { kind: classify(e), message: format_create_error(e, secret_id) }
}

/// A classified failure of updating `secret_id`.
pub fn update_error(e: &SdkFailure, secret_id: &str) -> (r: SecretError)
    ensures
        r.kind == kind_of(*e),
        r.message@ == update_message(*e),
{
    SecretError { kind: classify(e), message: format_update_error(e, secret_id) }
}

/// A classified failure of deleting `secret_id`.
pub fn delete_error(e: &SdkFailure, secret_id: &str) -> (r: SecretError)
    ensures
        r.kind == kind_of(*e),
        r.message@ == delete_message(*e, secret_id@),
{
    SecretError { kind: classify(e), message: format_delete_error(e, secret_id) }
}

/// A classified failure of listing secrets.
pub fn list_error(e: &SdkFailure) -> (r: SecretError)
    ensures
        r.kind == kind_of(*e),
        r.message@ == generic_message(*e),
{
    SecretError { kind: classify(e), message: format_list_error(e) }
}

pub open spec fn identity_message(e: SdkFailure) -> Seq<char> {
    "SSO invalid or expired: "@ + match e {
        SdkFailure::Service { code, message } => code_of(code) + ": "@ + message_of(message),
        SdkFailure::Dispatch(d) => "Network/dispatch error: "@ + d@,
        SdkFailure::Timeout(t) => "Request timed out: "@ + t@,
        SdkFailure::Other(o) => "SDK error: "@ + o@,
    }
}

/// The message shown when the identity of a profile could not be
/// confirmed.
pub fn format_identity_error(e: &SdkFailure) -> (r: String)
    ensures
        r@ == identity_message(*e),
{
    let detail = match e {
        SdkFailure::Service { code, message } => {
            let c: &str = match code {
                Some(c) => c.as_str(),
                None => "",
            };
            assert(c@ == code_of(*code)) by {
                if code.is_none() {
                    assert(""@.len() == 0) by {
                        reveal_strlit("");
                    }
                    assert(c@ =~= Seq::<char>::empty());
                }
            }
            let m: &str = match message {
                Some(m) => m.as_str(),
                None => "Unknown service error",
            };
            let head = cat(c, ": ");
            cat(head.as_str(), m)
        },
        SdkFailure::Dispatch(d) => cat("Network/dispatch error: ", d.as_str()),
        SdkFailure::Timeout(t) => cat("Request timed out: ", t.as_str()),
        SdkFailure::Other(o) => cat("SDK error: ", o.as_str()),
    };
    cat("SSO invalid or expired: ", detail.as_str())
}

} // verus!
