use mixtape::tools::aws::response_text;
use mixtape::tools::aws::{call_error, CallStage};
use mixtape::tools::aws::{
    default_service_targets, get_endpoint, is_mutative_operation, parse_output_header,
};

#[test]
fn test_is_mutative_operation_create() {
    assert!(is_mutative_operation("CreateBucket"));
    assert!(is_mutative_operation("CreateTable"));
}

#[test]
fn test_is_mutative_operation_delete() {
    assert!(is_mutative_operation("DeleteBucket"));
    assert!(is_mutative_operation("DeleteItem"));
}

#[test]
fn test_is_mutative_operation_update() {
    assert!(is_mutative_operation("UpdateItem"));
    assert!(is_mutative_operation("UpdateTable"));
}

#[test]
fn test_is_mutative_operation_put() {
    assert!(is_mutative_operation("PutObject"));
    assert!(is_mutative_operation("PutItem"));
}

#[test]
fn test_is_mutative_operation_terminate() {
    assert!(is_mutative_operation("TerminateInstances"));
}

#[test]
fn test_is_mutative_operation_non_mutative() {
    assert!(!is_mutative_operation("GetCallerIdentity"));
    assert!(!is_mutative_operation("ListBuckets"));
    assert!(!is_mutative_operation("DescribeInstances"));
    assert!(!is_mutative_operation("Scan"));
    assert!(!is_mutative_operation("Query"));
}

#[test]
fn test_get_endpoint_standard_service() {
    let endpoint = get_endpoint("dynamodb", "us-east-1");
    assert_eq!(endpoint, "https://dynamodb.us-east-1.amazonaws.com");
}

#[test]
fn test_get_endpoint_sts_us_east_1() {
    let endpoint = get_endpoint("sts", "us-east-1");
    assert_eq!(endpoint, "https://sts.amazonaws.com");
}

#[test]
fn test_get_endpoint_sts_other_region() {
    let endpoint = get_endpoint("sts", "us-west-2");
    assert_eq!(endpoint, "https://sts.us-west-2.amazonaws.com");
}

#[test]
fn test_get_endpoint_iam() {
    let endpoint = get_endpoint("iam", "us-east-1");
    assert_eq!(endpoint, "https://iam.amazonaws.com");
}

#[test]
fn test_get_endpoint_s3() {
    let endpoint = get_endpoint("s3", "us-west-2");
    assert_eq!(endpoint, "https://s3.us-west-2.amazonaws.com");
}

#[test]
fn test_default_service_targets_contains_dynamodb() {
    let targets = default_service_targets();
    assert_eq!(
        targets.get("dynamodb"),
        Some(&"DynamoDB_20120810".to_string())
    );
}

#[test]
fn test_default_service_targets_contains_sts() {
    let targets = default_service_targets();
    assert_eq!(
        targets.get("sts"),
        Some(&"AWSSecurityTokenServiceV20110615".to_string())
    );
}

#[test]
fn test_default_service_targets_contains_lambda() {
    let targets = default_service_targets();
    assert_eq!(targets.get("lambda"), Some(&"AWSLambda".to_string()));
}

#[test]
fn test_parse_output_header_complete() {
    let output = "Service: sts\nOperation: GetCallerIdentity\nRegion: us-east-1\nLabel: Get identity\n\n---\n\n{\"Account\": \"123456789\"}";
    let (metadata, content) = parse_output_header(output);

    assert_eq!(metadata.len(), 4);
    assert_eq!(metadata[0], ("Service", "sts"));
    assert_eq!(metadata[1], ("Operation", "GetCallerIdentity"));
    assert_eq!(metadata[2], ("Region", "us-east-1"));
    assert_eq!(metadata[3], ("Label", "Get identity"));
    assert!(content.contains("Account"));
}

#[test]
fn test_parse_output_header_no_separator() {
    let output = "Just plain content";
    let (metadata, content) = parse_output_header(output);

    assert!(metadata.is_empty());
    assert_eq!(content, output);
}

#[test]
fn test_parse_output_header_with_warning() {
    let output = "Service: s3\nOperation: DeleteBucket\nWarning: This was a mutative operation\n\n---\n\n{}";
    let (metadata, _content) = parse_output_header(output);

    assert_eq!(metadata.len(), 3);
    assert_eq!(metadata[2], ("Warning", "This was a mutative operation"));
}

use core::time::Duration;
use mixtape::tools::aws::{
    parse_aws_error, validate_input, JsonKind, JsonParameters, UseAwsInput, UseAwsTool,
    UseAwsToolBuilder,
};

fn input(service: &str, operation: &str, region: &str, kind: JsonKind, text: &str) -> UseAwsInput {
    UseAwsInput {
        service_name: service.to_string(),
        operation_name: operation.to_string(),
        parameters: JsonParameters { kind, text: text.to_string() },
        region: region.to_string(),
        label: None,
        profile_name: None,
    }
}

#[test]
fn test_builder_default() {
    let builder = UseAwsToolBuilder::default();
    assert!(builder.profile.is_none());
    assert!(builder.timeout.is_none());
    assert!(builder.custom_service_targets.is_empty());
}

#[test]
fn test_builder_profile() {
    let builder = UseAwsTool::builder().profile("my-profile");
    assert_eq!(builder.profile, Some("my-profile".to_string()));
}

#[test]
fn test_builder_timeout() {
    let builder = UseAwsTool::builder().timeout(Duration::from_secs(120));
    assert_eq!(builder.timeout, Some(Duration::from_secs(120)));
}

#[test]
fn test_builder_custom_service_target() {
    let builder = UseAwsTool::builder().with_service_target("custom", "CustomService_20240101");
    assert_eq!(
        builder.custom_service_targets.get("custom"),
        Some(&"CustomService_20240101".to_string())
    );
}

#[test]
fn test_validate_input_empty_service() {
    let input = input("", "GetCallerIdentity", "us-east-1", JsonKind::Object, "{}");
    let result = validate_input(&input);
    assert!(result.is_err());
    assert!(result.unwrap_err().contains("service_name"));
}

#[test]
fn test_validate_input_empty_operation() {
    let input = input("sts", "", "us-east-1", JsonKind::Object, "{}");
    let result = validate_input(&input);
    assert!(result.is_err());
    assert!(result.unwrap_err().contains("operation_name"));
}

#[test]
fn test_validate_input_empty_region() {
    let input = input("sts", "GetCallerIdentity", "", JsonKind::Object, "{}");
    let result = validate_input(&input);
    assert!(result.is_err());
    assert!(result.unwrap_err().contains("region"));
}

#[test]
fn test_validate_input_parameters_not_object() {
    let input = input("sts", "GetCallerIdentity", "us-east-1", JsonKind::Array, "[1,2,3]");
    let result = validate_input(&input);
    assert!(result.is_err());
    assert!(result.unwrap_err().contains("array"));
}

#[test]
fn test_validate_input_success() {
    let input = input("sts", "GetCallerIdentity", "us-east-1", JsonKind::Object, "{}");
    assert!(validate_input(&input).is_ok());
}

#[test]
fn test_parse_aws_error_with_type() {
    let body = r#"{"__type": "ValidationException", "message": "Invalid input"}"#;
    let status = reqwest::StatusCode::BAD_REQUEST.to_string();
    let msg = parse_aws_error("dynamodb", "PutItem", "us-east-1", &status, body);

    assert!(msg.contains("dynamodb.PutItem"));
    assert!(msg.contains("us-east-1"));
    assert!(msg.contains("ValidationException"));
    assert!(msg.contains("Invalid input"));
}

#[test]
fn test_parse_aws_error_with_nested_error() {
    let body = r#"{"Error": {"Code": "AccessDenied", "Message": "Access denied"}}"#;
    let status = reqwest::StatusCode::FORBIDDEN.to_string();
    let msg = parse_aws_error("s3", "GetObject", "us-west-2", &status, body);

    assert!(msg.contains("s3.GetObject"));
    assert!(msg.contains("AccessDenied"));
    assert!(msg.contains("Access denied"));
}

#[test]
fn test_parse_aws_error_plain_text() {
    let body = "Service unavailable";
    let status = reqwest::StatusCode::SERVICE_UNAVAILABLE.to_string();
    let msg = parse_aws_error("sts", "GetCallerIdentity", "us-east-1", &status, body);

    assert!(msg.contains("sts.GetCallerIdentity"));
    assert!(msg.contains("us-east-1"));
    assert!(msg.contains("Service unavailable"));
}

#[test]
fn parse_aws_error_exact_messages() {
    assert_eq!(
        parse_aws_error("sts", "GetCallerIdentity", "us-east-1", "503 Service Unavailable", "down"),
        "AWS API error for sts.GetCallerIdentity in us-east-1 (HTTP 503 Service Unavailable): down"
    );
    // A present but non-string type gives "Unknown"; a missing message gives the body.
    let body = r#"{"__type": 7, "Error": {"Code": "X"}}"#;
    assert_eq!(
        parse_aws_error("s", "o", "r", "400 Bad Request", body),
        format!("AWS API error for s.o in r (HTTP 400 Bad Request): Unknown - {}", body)
    );
}

#[test]
fn validate_input_reports_each_kind() {
    for (kind, name) in [
        (JsonKind::Null, "null"),
        (JsonKind::Bool, "boolean"),
        (JsonKind::Number, "number"),
        (JsonKind::String, "string"),
        (JsonKind::Array, "array"),
    ] {
        let err = validate_input(&input("sts", "Op", "r", kind, "")).unwrap_err();
        assert_eq!(err, format!("parameters must be a JSON object, got: {}", name));
    }
}

#[test]
fn build_merges_custom_targets_over_defaults() {
    let tool = UseAwsTool::builder()
        .with_service_target("dynamodb", "Custom_1")
        .with_service_target("custom", "Custom_2")
        .build();
    assert_eq!(tool.get_service_target("dynamodb"), "Custom_1");
    assert_eq!(tool.get_service_target("custom"), "Custom_2");
    assert_eq!(tool.get_service_target("lambda"), "AWSLambda");
    assert_eq!(tool.get_service_target("unknown-service"), "unknown-service");
    assert_eq!(tool.timeout, Duration::from_secs(60));
}

#[test]
fn result_text_reads_back_through_the_formatters() {
    let mut inp = input("s3", "DeleteBucket", "us-east-1", JsonKind::Object, "{}");
    inp.label = Some("Remove bucket".to_string());
    let text = mixtape::tools::aws::build_result(&inp, "{\n  \"ok\": true\n}");
    let (fields, content) = parse_output_header(&text);
    assert_eq!(
        fields,
        vec![
            ("Service", "s3"),
            ("Operation", "DeleteBucket"),
            ("Region", "us-east-1"),
            ("Label", "Remove bucket"),
            ("Warning", "This was a mutative operation"),
        ]
    );
    assert_eq!(content, "{\n  \"ok\": true\n}");
    let tool = UseAwsTool::builder().build();
    let md = tool.format_output_markdown(&text);
    assert!(md.starts_with("## Remove bucket\n\n- **Service**: s3\n"));
    assert!(md.ends_with("```json\n{\n  \"ok\": true\n}\n```"));
}

#[test]
fn request_plan_lists_the_signed_headers() {
    let tool = UseAwsTool::builder().build();
    let (endpoint, headers) = tool.request_plan("sts", "GetCallerIdentity", "us-east-1", None).unwrap();
    assert_eq!(endpoint, "https://sts.amazonaws.com");
    assert_eq!(
        headers,
        vec![
            ("host".to_string(), "sts.amazonaws.com".to_string()),
            ("content-type".to_string(), "application/x-amz-json-1.1; charset=utf-8".to_string()),
            ("x-amz-target".to_string(), "AWSSecurityTokenServiceV20110615.GetCallerIdentity".to_string()),
        ]
    );
    let (endpoint, headers) = tool.request_plan("dynamodb", "ListTables", "eu-west-1", Some("tok")).unwrap();
    assert_eq!(endpoint, "https://dynamodb.eu-west-1.amazonaws.com");
    assert_eq!(headers.len(), 4);
    assert_eq!(headers[2].1, "DynamoDB_20120810.ListTables");
    assert_eq!(headers[3], ("x-amz-security-token".to_string(), "tok".to_string()));
}

#[test]
fn request_plan_refuses_endpoints_that_do_not_parse() {
    let tool = UseAwsTool::builder().build();
    let err = tool.request_plan("bad service", "Op", "us-east-1", None).unwrap_err();
    assert!(err.starts_with("Invalid endpoint URL: "), "{}", err);
}

#[test]
fn header_values_reject_control_characters() {
    let tool = UseAwsTool::builder().build();
    assert!(tool.can_send("sts", "GetCallerIdentity", Some("token")));
    assert!(!tool.can_send("sts", "Get\nCallerIdentity", None));
    assert!(!tool.can_send("sts", "GetCallerIdentity", Some("a\u{7f}")));
    assert!(tool.can_send("sts", "Tab\tOk", None));
}

#[test]
fn responses_are_pretty_printed() {
    assert_eq!(response_text("{\"Account\":\"123\"}"), "{\n  \"Account\": \"123\"\n}");
    assert_eq!(response_text("[1,2]"), "[\n  1,\n  2\n]");
    assert_eq!(response_text("not json"), "{\n  \"raw_response\": \"not json\"\n}");
}

#[test]
fn call_errors_name_the_stage() {
    let input = UseAwsInput {
        service_name: "sts".to_string(),
        operation_name: "GetCallerIdentity".to_string(),
        parameters: mixtape::tools::aws::JsonParameters { kind: mixtape::tools::aws::JsonKind::Object, text: "{}".to_string() },
        region: "us-east-1".to_string(),
        label: None,
        profile_name: None,
    };
    assert_eq!(
        call_error(CallStage::Build, &input, "boom"),
        "Failed to build request for sts.GetCallerIdentity in us-east-1: boom"
    );
    assert_eq!(
        call_error(CallStage::Send, &input, "timeout"),
        "AWS request failed for sts.GetCallerIdentity in us-east-1: timeout"
    );
    assert_eq!(call_error(CallStage::Read, &input, "eof"), "Failed to read response from sts.GetCallerIdentity: eof");
}

#[test]
fn custom_targets_override_defaults_in_order() {
    let targets = mixtape::tools::aws::merge_service_targets(vec![
        ("dynamodb".to_string(), "First".to_string()),
        ("myservice".to_string(), "MyService_2024".to_string()),
        ("dynamodb".to_string(), "Second".to_string()),
    ]);
    assert_eq!(mixtape::tools::aws::target_header(&targets, "dynamodb", "ListTables"), "Second.ListTables");
    assert_eq!(mixtape::tools::aws::target_header(&targets, "myservice", "Run"), "MyService_2024.Run");
    assert_eq!(mixtape::tools::aws::target_header(&targets, "unknown", "Op"), "unknown.Op");
    let defaults = default_service_targets();
    assert_eq!(mixtape::tools::aws::target_header(&defaults, "dynamodb", "ListTables"), "DynamoDB_20120810.ListTables");
}
