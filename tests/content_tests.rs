use secmanager::content::{
    metadata_for_names, names_of, present_fetched, value_to_send, FetchedSecret, SecretContent,
    SecretValue,
};
use secmanager::errors::ErrorKind;

#[test]
fn fetched_json_text_is_pretty_printed() {
    let p = present_fetched(FetchedSecret::Text("{\"a\":1}".to_string()), false);
    assert_eq!(p.content.as_deref(), Some("{\n  \"a\": 1\n}"));
    assert!(!p.is_binary);
    assert_eq!(p.status, "Fetched string secret");
    assert_eq!(p.log, "Fetched secret: JSON string");
}

#[test]
fn fetched_plain_text_is_shown_verbatim() {
    let p = present_fetched(FetchedSecret::Text("hunter2 {".to_string()), true);
    assert_eq!(p.content.as_deref(), Some("hunter2 {"));
    assert!(!p.is_binary);
    assert_eq!(p.log, "Fetched secret: plain string");
}

#[test]
fn fetched_bytes_are_shown_as_base64() {
    let p = present_fetched(FetchedSecret::Binary(vec![1, 2, 3]), false);
    assert_eq!(p.content.as_deref(), Some("AQID"));
    assert!(p.is_binary);
    assert_eq!(p.status, "Fetched binary secret (base64)");
    assert_eq!(p.log, "Fetched secret: binary (base64)");
    let p = present_fetched(FetchedSecret::Binary(b"hello".to_vec()), false);
    assert_eq!(p.content.as_deref(), Some("aGVsbG8="));
}

#[test]
fn fetched_nothing_is_an_empty_secret() {
    let p = present_fetched(FetchedSecret::Empty, false);
    assert!(p.content.is_none());
    assert!(!p.is_binary);
    assert_eq!(p.status, "Empty secret");
    assert_eq!(p.log, "Fetched secret: empty");
}

#[test]
fn text_is_sent_as_text() {
    match value_to_send("plain", false) {
        Ok(SecretValue::Text(t)) => assert_eq!(t, "plain"),
        _ => panic!("expected text"),
    }
}

#[test]
fn base64_is_decoded_before_sending() {
    match value_to_send("AQID", true) {
        Ok(SecretValue::Binary(b)) => assert_eq!(b, vec![1, 2, 3]),
        _ => panic!("expected bytes"),
    }
}

#[test]
fn malformed_base64_is_a_decode_error() {
    match value_to_send("not base64!", true) {
        Err(e) => {
            assert_eq!(e.kind, ErrorKind::MalformedBase64);
            assert!(e.message.starts_with("Failed to decode base64: "));
        }
        _ => panic!("expected an error"),
    }
}

#[test]
fn content_from_fetched() {
    let c = SecretContent::from_fetched(FetchedSecret::Text("t".to_string())).unwrap();
    assert_eq!(c.string.as_deref(), Some("t"));
    assert!(c.binary_base64.is_none());
    let c = SecretContent::from_fetched(FetchedSecret::Binary(vec![0xff])).unwrap();
    assert!(c.string.is_none());
    assert_eq!(c.binary_base64.as_deref(), Some("/w=="));
    assert!(SecretContent::from_fetched(FetchedSecret::Empty).is_none());
}

#[test]
fn metadata_round_trip() {
    let ids = vec!["a".to_string(), "b/c".to_string()];
    let m = metadata_for_names(&ids);
    assert_eq!(m.len(), 2);
    assert!(m.iter().all(|x| !x.is_binary));
    assert_eq!(names_of(&m), ids);
}
