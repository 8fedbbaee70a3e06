use mixtape::server::error::{BuildError, ServerError};

#[test]
fn test_server_error_agent_variant() {
    let server_error = ServerError::Agent("No response from model".to_string());
    assert_eq!(server_error.status_code(), 500);
}

#[test]
fn test_server_error_permission_variant() {
    let error = ServerError::Permission("Access denied".to_string());
    assert_eq!(error.status_code(), 403);
}

#[test]
fn test_server_error_invalid_request_variant() {
    let error = ServerError::InvalidRequest("Bad input".to_string());
    assert_eq!(error.status_code(), 400);
}

#[test]
fn test_server_error_internal_variant() {
    let error = ServerError::Internal("Something went wrong".to_string());
    assert_eq!(error.status_code(), 500);
}

#[test]
fn test_server_error_display() {
    let cases = [
        (ServerError::Permission("denied".to_string()), "Permission error: denied"),
        (ServerError::InvalidRequest("bad".to_string()), "Invalid request: bad"),
        (ServerError::Internal("oops".to_string()), "Internal error: oops"),
    ];

    for (error, expected) in cases {
        assert_eq!(error.message(), expected);
    }
}

#[test]
fn test_server_error_permission_with_empty_message() {
    let error = ServerError::Permission("".to_string());
    assert_eq!(error.status_code(), 403);
    assert_eq!(error.body_message(), "");
}

#[test]
fn test_server_error_invalid_request_with_special_characters() {
    let error = ServerError::InvalidRequest("Bad input: \"value\"\n\t".to_string());
    assert_eq!(error.status_code(), 400);
    assert_eq!(error.body_message(), "Bad input: \"value\"\n\t");
}

#[test]
fn test_server_error_with_very_long_message() {
    let long_message = "x".repeat(10_000);
    let error = ServerError::Internal(long_message.clone());
    assert_eq!(error.status_code(), 500);
    assert_eq!(error.body_message(), long_message);
}

#[test]
fn test_server_error_with_unicode() {
    let error = ServerError::InvalidRequest("错误的输入 🚫".to_string());
    assert_eq!(error.status_code(), 400);
    assert_eq!(error.message(), "Invalid request: 错误的输入 🚫");
}

#[test]
fn test_status_code_correctness() {
    let test_cases = [
        (ServerError::Permission("".to_string()), 403),
        (ServerError::InvalidRequest("".to_string()), 400),
        (ServerError::Internal("".to_string()), 500),
    ];

    for (error, expected_code) in test_cases {
        assert_eq!(error.status_code(), expected_code);
    }
}

#[test]
fn test_agent_error_conversion_preserves_message() {
    let server_error = ServerError::Agent("Tool execution denied: Permission denied".to_string());
    let display = server_error.message();
    assert!(
        display.contains("Tool execution denied") || display.contains("Permission denied"),
        "Error message should be preserved"
    );
}

#[test]
fn test_error_types_are_send_sync() {
    fn is_send<T: Send>() {}
    fn is_sync<T: Sync>() {}

    is_send::<ServerError>();
    is_sync::<ServerError>();
}

#[test]
fn test_multiple_permission_errors() {
    let errors = vec![
        ServerError::Permission("Error 1".to_string()),
        ServerError::Permission("Error 2".to_string()),
        ServerError::Permission("Error 3".to_string()),
    ];

    for error in errors {
        assert_eq!(error.status_code(), 403);
    }
}

#[test]
fn test_error_debug_output() {
    let error = ServerError::InvalidRequest("test".to_string());
    let debug_str = format!("{:?}", error);

    assert!(debug_str.contains("InvalidRequest"));
    assert!(debug_str.contains("test"));
}

#[test]
fn test_error_nested_quotes() {
    let error = ServerError::InvalidRequest(r#"Field "name" has invalid value "test""#.to_string());
    assert_eq!(error.status_code(), 400);
    assert_eq!(error.body_message(), r#"Field "name" has invalid value "test""#);
}

#[test]
fn build_error_message_names_the_fix() {
    assert_eq!(
        BuildError::NoEndpoints.message(),
        "No endpoints configured. Call .with_agui() before .build()"
    );
}
