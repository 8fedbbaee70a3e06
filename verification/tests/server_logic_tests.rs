use mixtape::server::agentcore::ping_response;
use mixtape::server::agui::{authorization_for, AuthorizationResponse, GrantScope, InterruptRequest, InterruptResponse, Scope};
use mixtape::server::error::ServerError;

fn request(response: InterruptResponse, hash: Option<&str>) -> InterruptRequest {
    InterruptRequest {
        interrupt_id: "int-1".to_string(),
        tool_name: "write_file".to_string(),
        params_hash: hash.map(|h| h.to_string()),
        response,
    }
}

#[test]
fn ping_reports_healthy_at_the_given_time() {
    let p = ping_response(1_700_000_000);
    assert_eq!(p.status, "Healthy");
    assert_eq!(p.time_of_last_update, 1_700_000_000);
}

#[test]
fn approve_once_is_a_single_approval() {
    assert!(matches!(authorization_for(request(InterruptResponse::ApproveOnce, None)), Ok(AuthorizationResponse::Once)));
}

#[test]
fn trusting_a_tool_grants_the_tool() {
    match authorization_for(request(InterruptResponse::TrustTool { scope: GrantScope::Persistent }, Some("h"))) {
        Ok(AuthorizationResponse::Trust { grant }) => {
            assert_eq!(grant.tool, "write_file");
            assert_eq!(grant.params_hash, None);
            assert_eq!(grant.scope, Scope::Persistent);
        }
        _ => panic!("expected a grant"),
    }
}

#[test]
fn trusting_an_exact_call_needs_its_hash() {
    match authorization_for(request(InterruptResponse::TrustExact { scope: GrantScope::Session }, Some("abc"))) {
        Ok(AuthorizationResponse::Trust { grant }) => {
            assert_eq!(grant.tool, "write_file");
            assert_eq!(grant.params_hash, Some("abc".to_string()));
            assert_eq!(grant.scope, Scope::Session);
        }
        _ => panic!("expected a grant"),
    }
    match authorization_for(request(InterruptResponse::TrustExact { scope: GrantScope::Session }, None)) {
        Err(ServerError::InvalidRequest(m)) => assert_eq!(m, "params_hash required for TrustExact"),
        _ => panic!("expected an invalid request"),
    }
}

#[test]
fn denial_keeps_its_reason() {
    match authorization_for(request(InterruptResponse::Deny { reason: Some("no".to_string()) }, None)) {
        Ok(AuthorizationResponse::Deny { reason }) => assert_eq!(reason, Some("no".to_string())),
        _ => panic!("expected a denial"),
    }
}
