use secmanager::errors::{
    classify, create_error, delete_error, format_create_error, format_delete_error,
    format_get_error, format_identity_error, format_list_error, format_update_error, get_error,
    list_error, update_error,
    ErrorKind, SdkFailure,
};

fn service(code: Option<&str>, message: Option<&str>) -> SdkFailure {
    SdkFailure::Service {
        code: code.map(|s| s.to_string()),
        message: message.map(|s| s.to_string()),
    }
}

#[test]
fn get_error_not_found() {
    let e = service(Some("ResourceNotFoundException"), Some("nope"));
    assert_eq!(classify(&e), ErrorKind::NotFound);
    assert_eq!(format_get_error(&e, "db/pw"), "Error: Secret 'db/pw' does not exist");
}

#[test]
fn get_error_invalid_parameter() {
    let e = service(Some("InvalidParameterException"), None);
    assert_eq!(classify(&e), ErrorKind::InvalidParameter);
    assert_eq!(format_get_error(&e, "x"), "Error: Invalid parameter when getting secret");
}

#[test]
fn get_error_other_code_uses_message() {
    let e = service(Some("AccessDeniedException"), Some("denied"));
    assert_eq!(classify(&e), ErrorKind::Unclassified);
    assert_eq!(format_get_error(&e, "x"), "Error: denied");
    let e = service(None, None);
    assert_eq!(format_get_error(&e, "x"), "Error: Unknown service error");
}

#[test]
fn create_error_messages() {
    let e = service(Some("ResourceExistsException"), None);
    assert_eq!(classify(&e), ErrorKind::AlreadyExists);
    assert_eq!(
        format_create_error(&e, "k"),
        "Error: Secret 'k' already exists. Use Edit or choose another ID."
    );
    let e = service(Some("LimitExceededException"), None);
    assert_eq!(classify(&e), ErrorKind::LimitExceeded);
    assert_eq!(format_create_error(&e, "k"), "Error: Secrets Manager resource limit exceeded");
    let e = service(Some("InvalidParameterException"), None);
    assert_eq!(format_create_error(&e, "k"), "Error: Invalid parameter when creating secret");
}

#[test]
fn update_error_messages() {
    let e = service(Some("ResourceNotFoundException"), None);
    assert_eq!(format_update_error(&e, "k"), "Error: Secret does not exist for update");
    let e = service(Some("InvalidParameterException"), None);
    assert_eq!(format_update_error(&e, "k"), "Error: Invalid parameter when updating secret");
    let e = service(Some("ResourceExistsException"), Some("exists"));
    assert_eq!(format_update_error(&e, "k"), "Error: exists");
}

#[test]
fn transport_errors() {
    let e = SdkFailure::Dispatch("conn refused".to_string());
    assert_eq!(classify(&e), ErrorKind::NetworkDispatchFailure);
    assert_eq!(format_get_error(&e, "k"), "Error: Network/dispatch error: conn refused");
    let e = SdkFailure::Timeout("5s".to_string());
    assert_eq!(classify(&e), ErrorKind::Timeout);
    assert_eq!(format_create_error(&e, "k"), "Error: Request timed out: 5s");
    let e = SdkFailure::Other("boom".to_string());
    assert_eq!(classify(&e), ErrorKind::Unclassified);
    assert_eq!(format_update_error(&e, "k"), "Error: SDK error: boom");
}

#[test]
fn delete_and_list_errors() {
    let e = service(Some("ResourceNotFoundException"), None);
    assert_eq!(format_delete_error(&e, "gone"), "Error: Secret 'gone' does not exist");
    let d = delete_error(&e, "gone");
    assert_eq!(d.kind, ErrorKind::NotFound);
    let e = service(Some("InvalidParameterException"), None);
    assert_eq!(format_delete_error(&e, "k"), "Error: Invalid parameter when deleting secret");
    let e = service(Some("ThrottlingException"), Some("slow down"));
    assert_eq!(format_list_error(&e), "Error: slow down");
    assert_eq!(list_error(&e).kind, ErrorKind::Unclassified);
}

#[test]
fn classified_errors_carry_messages() {
    let e = service(Some("ResourceExistsException"), None);
    let c = create_error(&e, "k");
    assert_eq!(c.kind, ErrorKind::AlreadyExists);
    assert_eq!(c.message, "Error: Secret 'k' already exists. Use Edit or choose another ID.");
    let g = get_error(&SdkFailure::Timeout("t".to_string()), "k");
    assert_eq!(g.kind, ErrorKind::Timeout);
    assert_eq!(g.message, "Error: Request timed out: t");
    let u = update_error(&service(Some("ResourceNotFoundException"), None), "k");
    assert_eq!(u.kind, ErrorKind::NotFound);
}

#[test]
fn identity_error_messages() {
    let e = service(Some("ExpiredToken"), Some("token expired"));
    assert_eq!(format_identity_error(&e), "SSO invalid or expired: ExpiredToken: token expired");
    let e = service(None, None);
    assert_eq!(format_identity_error(&e), "SSO invalid or expired: : Unknown service error");
    let e = SdkFailure::Dispatch("dns".to_string());
    assert_eq!(format_identity_error(&e), "SSO invalid or expired: Network/dispatch error: dns");
}
