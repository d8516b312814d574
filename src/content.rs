//! What a fetched secret looks like in the editor, and what a saved one is
//! sent as.
use vstd::prelude::*;

use crate::errors::{ErrorKind, SecretError};
use crate::text::cat;

verus! {

/// What the remote store holds for a secret: text, bytes, or neither.
pub enum FetchedSecret {
    Text(String),
    Binary(Vec<u8>),
    Empty,
}

/// What is sent to the remote store when a secret is saved.
pub enum SecretValue {
    Text(String),
    Binary(Vec<u8>),
}

/// A secret as handed to a front end: its text, or its bytes in base64.
pub struct SecretContent {
    pub string: Option<String>,
    pub binary_base64: Option<String>,
}

/// A listed secret; whether it is binary is known only once it is fetched.
pub struct SecretMetadata {
    pub name: String,
    pub is_binary: bool,
}

/// The canonical pretty-printed form of a JSON text, or `None` where the
/// text is no JSON.
pub uninterp spec fn pretty_json_of(s: Seq<char>) -> Option<Seq<char>>;

/// The standard, padded base64 encoding of some bytes.
pub uninterp spec fn base64_of(b: Seq<u8>) -> Seq<char>;

/// The bytes that a standard, padded base64 text decodes to, or `None`
/// where the text is malformed.
pub uninterp spec fn base64_decoded(s: Seq<char>) -> Option<Seq<u8>>;

/// Relies on `serde_json::from_str` into a `serde_json::Value` and on
/// `serde_json::to_string_pretty` of that value: the pretty form of a JSON
/// text, `None` where it does not parse.
#[verifier::external_body]
fn pretty_json(text: &str) -> (r: Option<String>)
    ensures
        r matches Some(p) ==> pretty_json_of(text@) == Some(p@),
        r is None ==> pretty_json_of(text@) is None,
{
    let value: serde_json::Value = serde_json::from_str(text).ok()?;
    serde_json::to_string_pretty(&value).ok()
}

/// Relies on `base64::Engine::encode` of the standard engine, which panics
/// only where the encoded length overflows `usize`.
#[verifier::external_body]
fn encode_base64(bytes: &[u8]) -> (r: String)
    requires
        bytes@.len() <= usize::MAX / 2,
    ensures
        r@ == base64_of(bytes@),
{
    base64::Engine::encode(&base64::engine::general_purpose::STANDARD, bytes)
}

/// The error `base64` reports for malformed input.
#[verifier::external_type_specification]
#[verifier::external_body]
pub struct ExDecodeError(base64::DecodeError);

/// Relies on `base64::Engine::decode` of the standard engine.
#[verifier::external_body]
fn decode_base64(text: &str) -> (r: Result<Vec<u8>, base64::DecodeError>)
    ensures
        r matches Ok(v) ==> base64_decoded(text@) == Some(v@),
        r is Err ==> base64_decoded(text@) is None,
{
    base64::Engine::decode(&base64::engine::general_purpose::STANDARD, text)
}

/// Relies on the `Display` of `base64::DecodeError`: a description of what
/// was wrong with the input. Nothing is assumed of its text.
#[verifier::external_body]
fn decode_error_text(e: &base64::DecodeError) -> (r: String) {
    e.to_string()
}

/// The message for malformed base64: a fixed lead-in, then the decoder's
/// own description.
pub open spec fn decode_failure(message: Seq<char>) -> bool {
    exists|detail: Seq<char>| message == "Failed to decode base64: "@ + detail
}

/// What the editor shows for a fetched secret.
pub struct Presentation {
    /// The new editor text, or `None` to leave it as it is.
    pub content: Option<String>,
    pub is_binary: bool,
    pub status: String,
    pub log: String,
}

pub open spec fn text_shown(text: Seq<char>) -> Seq<char> {
    match pretty_json_of(text) {
        Some(p) => p,
        None => text,
    }
}

/// A fetched text, given what pretty-printing it as JSON gave: the pretty
/// form where it parsed, else the text itself.
pub fn present_text(text: String, pretty: Option<String>) -> (r: Presentation)
    ensures
        r.content is Some,
        r.content->0@ == (match pretty {
            Some(p) => p@,
            None => text@,
        }),
        !r.is_binary,
        r.status@ == "Fetched string secret"@,
        r.log@ == (if pretty is Some {
            "Fetched secret: JSON string"@
        } else {
            "Fetched secret: plain string"@
        }),
{
    let status = String::from_str("Fetched string secret");
    match pretty {
        Some(p) => Presentation {
            content: Some(p),
            is_binary: false,
            status,
            log: String::from_str("Fetched secret: JSON string"),
        },
        None => Presentation {
            content: Some(text),
            is_binary: false,
            status,
            log: String::from_str("Fetched secret: plain string"),
        },
    }
}

/// Fetched bytes, given their base64 text.
pub fn present_binary(encoded: String) -> (r: Presentation)
    ensures
        r.content == Some(encoded),
        r.is_binary,
        r.status@ == "Fetched binary secret (base64)"@,
        r.log@ == "Fetched secret: binary (base64)"@,
{
    Presentation {
        content: Some(encoded),
        is_binary: true,
        status: String::from_str("Fetched binary secret (base64)"),
        log: String::from_str("Fetched secret: binary (base64)"),
    }
}

/// A secret that holds neither text nor bytes: a status, and no error.
pub fn present_empty(was_binary: bool) -> (r: Presentation)
    ensures
        r.content is None,
        r.is_binary == was_binary,
        r.status@ == "Empty secret"@,
        r.log@ == "Fetched secret: empty"@,
{
    Presentation {
        content: None,
        is_binary: was_binary,
        status: String::from_str("Empty secret"),
        log: String::from_str("Fetched secret: empty"),
    }
}

/// Bytes whose base64 length fits in `usize`.
pub open spec fn fits(b: Seq<u8>) -> bool {
    b.len() <= usize::MAX / 2
}

/// How a fetched secret is shown, given whether the editor showed bytes
/// before: the new editor text (or none), whether it is base64, the status
/// and the log line.
pub open spec fn presented(fetched: FetchedSecret, was_binary: bool) -> (Option<Seq<char>>, bool, Seq<char>, Seq<char>) {
    match fetched {
        FetchedSecret::Text(t) => (
            Some(text_shown(t@)),
            false,
            "Fetched string secret"@,
            if pretty_json_of(t@) is Some {
                "Fetched secret: JSON string"@
            } else {
                "Fetched secret: plain string"@
            },
        ),
        FetchedSecret::Binary(b) => if fits(b@) {
            (
                Some(base64_of(b@)),
                true,
                "Fetched binary secret (base64)"@,
                "Fetched secret: binary (base64)"@,
            )
        } else {
            (None, was_binary, "Secret too large to display"@, "Fetched secret: too large to display"@)
        },
        FetchedSecret::Empty => (None, was_binary, "Empty secret"@, "Fetched secret: empty"@),
    }
}

pub open spec fn opt_view(o: Option<String>) -> Option<Seq<char>> {
    match o {
        Some(s) => Some(s@),
        None => None,
    }
}

/// How a fetched secret is shown: text pretty-printed where it is JSON,
/// bytes as base64, and an empty secret as a status of its own.
pub fn present_fetched(fetched: FetchedSecret, was_binary: bool) -> (r: Presentation)
    ensures
        (opt_view(r.content), r.is_binary, r.status@, r.log@) == presented(fetched, was_binary),
{
    match fetched {
        FetchedSecret::Text(t) => {
            let pretty = pretty_json(t.as_str());
            present_text(t, pretty)
        },
        FetchedSecret::Binary(b) => {
            if b.len() > usize::MAX / 2 {
                return Presentation {
                    content: None,
                    is_binary: was_binary,
                    status: String::from_str("Secret too large to display"),
                    log: String::from_str("Fetched secret: too large to display"),
                };
            }
            let encoded = encode_base64(b.as_slice());
            present_binary(encoded)
        },
        FetchedSecret::Empty => present_empty(was_binary),
    }
}

/// What is sent for the editor's text: the text itself, or, for a binary
/// secret, the bytes its base64 decodes to.
pub fn value_to_send(content: &str, is_binary: bool) -> (r: Result<SecretValue, SecretError>)
    ensures
        !is_binary ==> (r matches Ok(SecretValue::Text(t)) && t@ == content@),
        is_binary ==> match base64_decoded(content@) {
            Some(bytes) => (r matches Ok(SecretValue::Binary(b)) && b@ == bytes),
            None => (r matches Err(e) && e.kind == ErrorKind::MalformedBase64
                && decode_failure(e.message@)),
        },
{
    if !is_binary {
        return Ok(SecretValue::Text(String::from_str(content)));
    }
    match decode_base64(content) {
        Ok(bytes) => Ok(SecretValue::Binary(bytes)),
        Err(e) => {
            let detail = decode_error_text(&e);
            let message = cat("Failed to decode base64: ", detail.as_str());
            Err(SecretError { kind: ErrorKind::MalformedBase64, message })
        },
    }
}

impl SecretContent {
    /// The content handed out for a fetched secret; `None` for one that
    /// holds neither text nor bytes.
    pub fn from_fetched(fetched: FetchedSecret) -> (r: Option<SecretContent>)
        requires
            fetched matches FetchedSecret::Binary(b) ==> fits(b@),
        ensures
            match fetched {
                FetchedSecret::Text(t) => r is Some && r->0.string == Some(t)
                    && r->0.binary_base64 is None,
                FetchedSecret::Binary(b) => r is Some && r->0.string is None
                    && r->0.binary_base64 is Some && r->0.binary_base64->0@ == base64_of(b@),
                FetchedSecret::Empty => r is None,
            },
    {
        match fetched {
            FetchedSecret::Text(t) => Some(SecretContent { string: Some(t), binary_base64: None }),
            FetchedSecret::Binary(b) => {
                let encoded = encode_base64(b.as_slice());
                Some(SecretContent { string: None, binary_base64: Some(encoded) })
            },
            FetchedSecret::Empty => None,
        }
    }
}

/// One entry per listed name, none of them known to be binary yet.
pub fn metadata_for_names(names: &[String]) -> (r: Vec<SecretMetadata>)
    ensures
        r@.len() == names@.len(),
        forall|i: int| 0 <= i < r@.len() ==> (#[trigger] r@[i]).name == names@[i] && !r@[i].is_binary,
{
    let mut r: Vec<SecretMetadata> = Vec::new();
    let mut i: usize = 0;
    while i < names.len()
        invariant
            i <= names@.len(),
            r@.len() == i,
            forall|j: int| 0 <= j < i ==> (#[trigger] r@[j]).name == names@[j] && !r@[j].is_binary,
        decreases names.len() - i,
    {
        r.push(SecretMetadata { name: names[i].clone(), is_binary: false });
        i += 1;
    }
    r
}

/// The names of listed secrets, in order.
pub fn names_of(metadata: &[SecretMetadata]) -> (r: Vec<String>)
    ensures
        r@.len() == metadata@.len(),
        forall|i: int| 0 <= i < r@.len() ==> #[trigger] r@[i] == metadata@[i].name,
{
    let mut r: Vec<String> = Vec::new();
    let mut i: usize = 0;
    while i < metadata.len()
        invariant
            i <= metadata@.len(),
            r@.len() == i,
            forall|j: int| 0 <= j < i ==> #[trigger] r@[j] == metadata@[j].name,
        decreases metadata.len() - i,
    {
        r.push(metadata[i].name.clone());
        i += 1;
    }
    r
}

} // verus!
