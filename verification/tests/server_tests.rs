use mixtape::server::agui::{convert_scope, GrantScope, Scope};
use mixtape::server::error::BuildError;
use mixtape::server::router::{MixtapeRouter, RoutePlan};
use mixtape::server::agentcore::{ConversionContext, SESSION_ID_HEADER, USER_ID_HEADER};
use mixtape::server::agui::{ConversionContext as AguiContext, RunOptions};

#[test]
fn test_context_starts_not_streaming() {
    let ctx = ConversionContext::new();
    assert!(!ctx.in_text_stream());
}

#[test]
fn test_session_id_header_constant() {
    assert_eq!(
        SESSION_ID_HEADER,
        "x-amzn-bedrock-agentcore-runtime-session-id"
    );
}

#[test]
fn test_user_id_header_constant() {
    assert_eq!(USER_ID_HEADER, "x-amzn-bedrock-agentcore-runtime-user-id");
}

#[test]
fn test_conversion_context_message_id_operations() {
    let mut ctx = AguiContext::new("t1".to_string(), "r1".to_string());

    // Initially no message ID
    assert!(ctx.current_message_id().is_none());

    // Set message ID
    ctx.set_current_message_id("msg-1".to_string());
    assert_eq!(ctx.current_message_id(), Some("msg-1"));

    // Take message ID (removes it)
    let id = ctx.take_current_message_id();
    assert_eq!(id, Some("msg-1".to_string()));
    assert!(ctx.current_message_id().is_none());

    // Take from empty returns None
    let id = ctx.take_current_message_id();
    assert!(id.is_none());
}

#[test]
fn test_run_options_default() {
    let options = RunOptions::default();
    assert!(options.stream);
}

#[test]
fn test_router_path_types() {
    // Test that path methods accept Into<String>
    fn _test_with_agui<S: Into<String>>(path: S) {
        drop(path.into());
    }

    _test_with_agui("/api/stream");
    _test_with_agui(String::from("/api/stream"));
    _test_with_agui("api/stream"); // No leading slash
}

#[test]
fn test_router_builder_type_signature() {
    fn _accepts_agent_owned(_: impl FnOnce(String) -> MixtapeRouter<String>) {}
    fn _accepts_agent_arc(_: impl FnOnce(std::sync::Arc<String>) -> MixtapeRouter<std::sync::Arc<String>>) {}

    _accepts_agent_owned(MixtapeRouter::new);
    _accepts_agent_arc(MixtapeRouter::from_arc);
}

#[test]
fn test_router_builder_fluent_api() {
    fn _test_chaining<F>(f: F)
    where
        F: FnOnce(MixtapeRouter<String>) -> Result<RoutePlan<String>, BuildError>,
    {
        drop(f);
    }

    _test_chaining(|builder| builder.with_agui("/api/stream").interrupt_path("/api/interrupt").build());
    _test_chaining(|builder| builder.with_agui("/api").build());
}

#[test]
fn test_router_into_variants() {
    fn _returns_result(_: impl FnOnce(MixtapeRouter<String>) -> Result<RoutePlan<String>, BuildError>) {}

    _returns_result(|b| b.with_agui("/api").build());
    _returns_result(|b| b.with_agui("/api").build_nested("/prefix"));
}

#[test]
fn test_router_builder_consumes_self() {
    fn _consume_builder<F>(f: F)
    where
        F: FnOnce(MixtapeRouter<String>),
    {
        drop(f);
    }

    _consume_builder(|router| {
        let _app = router.with_agui("/api").build();
    });
}

#[test]
fn test_scope_conversion_all_variants() {
    let cases = [(GrantScope::Session, Scope::Session), (GrantScope::Persistent, Scope::Persistent)];
    for (agui_scope, core_scope) in cases {
        let converted = convert_scope(agui_scope);
        assert!(
            matches!((&converted, &core_scope), (Scope::Session, Scope::Session) | (Scope::Persistent, Scope::Persistent)),
            "Scope conversion failed for {:?}",
            agui_scope
        );
    }
}
