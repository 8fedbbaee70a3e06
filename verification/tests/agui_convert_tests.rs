use mixtape::server::agui::{convert_event, resolve_run_ids, AguiEvent, ConversionContext};
use mixtape::server::events::AgentEvent;

fn model_started(message_count: usize, tool_count: usize) -> AgentEvent {
    AgentEvent::ModelCallStarted { message_count, tool_count }
}

fn context() -> ConversionContext {
    ConversionContext::new("thread-1".to_string(), "run-1".to_string())
}

#[test]
fn test_multiple_sequential_model_calls() {
    let mut ctx = context();

    // First model call
    let events = convert_event(&model_started(1, 0), &mut ctx);
    assert_eq!(events.len(), 1);
    let _first_msg_id = if let AguiEvent::TextMessageStart { message_id, .. } = &events[0] {
        message_id.clone()
    } else {
        panic!("Expected TextMessageStart");
    };

    // Second model call only starts a new message
    let events = convert_event(&model_started(2, 0), &mut ctx);
    assert_eq!(events.len(), 1);
    assert!(matches!(&events[0], AguiEvent::TextMessageStart { .. }));
}

#[test]
fn test_tool_requested_ends_current_message() {
    let mut ctx = context();

    convert_event(&model_started(1, 0), &mut ctx);
    assert!(ctx.current_message_id().is_some());

    let tool_req = AgentEvent::ToolRequested {
        tool_use_id: "tc-1".to_string(),
        name: "echo".to_string(),
        input: r#"{"text":"hello"}"#.to_string(),
    };
    let events = convert_event(&tool_req, &mut ctx);

    // Should end message, then emit 3 tool events
    assert!(events.len() >= 4);
    assert!(matches!(&events[0], AguiEvent::TextMessageEnd { .. }));
    assert!(matches!(&events[1], AguiEvent::ToolCallStart { .. }));
    assert!(ctx.current_message_id().is_none());
}

#[test]
fn test_tool_requested_without_current_message() {
    let mut ctx = context();

    let tool_req = AgentEvent::ToolRequested {
        tool_use_id: "tc-1".to_string(),
        name: "echo".to_string(),
        input: r#"{"text":"hello"}"#.to_string(),
    };
    let events = convert_event(&tool_req, &mut ctx);

    // Should only emit tool events, no TextMessageEnd
    assert_eq!(events.len(), 3); // Start, Args, End
    assert!(matches!(&events[0], AguiEvent::ToolCallStart { .. }));
    assert!(matches!(&events[1], AguiEvent::ToolCallArgs { .. }));
    assert!(matches!(&events[2], AguiEvent::ToolCallEnd { .. }));
}

#[test]
fn test_run_completed_ends_current_message() {
    let mut ctx = context();

    convert_event(&model_started(1, 0), &mut ctx);
    assert!(ctx.current_message_id().is_some());

    let completed = AgentEvent::RunCompleted { output: "Done".to_string(), duration_ms: 1000 };
    let events = convert_event(&completed, &mut ctx);

    assert_eq!(events.len(), 2);
    assert!(matches!(&events[0], AguiEvent::TextMessageEnd { .. }));
    assert!(matches!(&events[1], AguiEvent::RunFinished { .. }));
    assert!(ctx.current_message_id().is_none());
}

#[test]
fn test_run_completed_without_current_message() {
    let mut ctx = context();

    let completed = AgentEvent::RunCompleted { output: "Done".to_string(), duration_ms: 1000 };
    let events = convert_event(&completed, &mut ctx);

    assert_eq!(events.len(), 1);
    assert!(matches!(&events[0], AguiEvent::RunFinished { .. }));
}

#[test]
fn test_streaming_without_current_message() {
    let mut ctx = context();

    let streaming = AgentEvent::ModelCallStreaming { delta: "Hello".to_string(), accumulated_length: 5 };
    let events = convert_event(&streaming, &mut ctx);

    assert_eq!(events.len(), 0);
}

#[test]
fn test_empty_streaming_delta() {
    let mut ctx = context();

    convert_event(&model_started(1, 0), &mut ctx);

    let streaming = AgentEvent::ModelCallStreaming { delta: "".to_string(), accumulated_length: 0 };
    let events = convert_event(&streaming, &mut ctx);

    assert_eq!(events.len(), 1);
    if let AguiEvent::TextMessageContent { delta, .. } = &events[0] {
        assert_eq!(delta, "");
    } else {
        panic!("Expected TextMessageContent");
    }
}

#[test]
fn test_tool_completed_with_different_result_types() {
    let test_cases = [
        ("Success", "Success"),
        (r#"{"count":42,"status":"ok"}"#, r#"{"count":42,"status":"ok"}"#),
        ("[Image: Png, 4 bytes]", "[Image: Png, 4 bytes]"),
        ("[Document: Pdf, report.pdf, 4 bytes]", "[Document: Pdf, report.pdf, 4 bytes]"),
        ("[Document: Txt, unnamed, 2 bytes]", "[Document: Txt, unnamed, 2 bytes]"),
    ];

    for (result, expected_content) in test_cases {
        let mut ctx = context();

        let event = AgentEvent::ToolCompleted {
            tool_use_id: "tc-1".to_string(),
            name: "test_tool".to_string(),
            output: result.to_string(),
            duration_ms: 100,
        };

        let events = convert_event(&event, &mut ctx);
        assert_eq!(events.len(), 1);

        if let AguiEvent::ToolCallResult { content, .. } = &events[0] {
            assert_eq!(content, expected_content);
        } else {
            panic!("Expected ToolCallResult");
        }
    }
}

#[test]
fn test_tool_failed_error_formatting() {
    let mut ctx = context();

    let event = AgentEvent::ToolFailed {
        tool_use_id: "tc-1".to_string(),
        name: "dangerous_tool".to_string(),
        error: "Permission denied".to_string(),
        duration_ms: 10,
    };

    let events = convert_event(&event, &mut ctx);
    assert_eq!(events.len(), 1);

    if let AguiEvent::ToolCallResult { content, .. } = &events[0] {
        assert_eq!(content, "Error: Permission denied");
    } else {
        panic!("Expected ToolCallResult");
    }
}

#[test]
fn test_tool_call_args_with_complex_json() {
    let mut ctx = context();

    let complex_input = r#"{"boolean":true,"nested":{"array":[1,2,3],"object":{"key":"value"}},"null":null,"number":42,"string":"test"}"#;

    let event = AgentEvent::ToolRequested {
        tool_use_id: "tc-1".to_string(),
        name: "complex_tool".to_string(),
        input: complex_input.to_string(),
    };

    let events = convert_event(&event, &mut ctx);

    let args_event = events.iter().find(|e| matches!(e, AguiEvent::ToolCallArgs { .. }));
    assert!(args_event.is_some());

    if let AguiEvent::ToolCallArgs { delta, .. } = args_event.unwrap() {
        let parsed: serde_json::Value = serde_json::from_str(delta).unwrap();
        let expected: serde_json::Value = serde_json::from_str(complex_input).unwrap();
        assert_eq!(parsed, expected);
    }
}

#[test]
fn test_tool_call_args_serialization_fallback() {
    let mut ctx = context();

    let event = AgentEvent::ToolRequested {
        tool_use_id: "tc-1".to_string(),
        name: "tool".to_string(),
        input: r#"{"key":"value"}"#.to_string(),
    };

    let events = convert_event(&event, &mut ctx);

    let args_event = events.iter().find(|e| matches!(e, AguiEvent::ToolCallArgs { .. }));
    if let Some(AguiEvent::ToolCallArgs { delta, .. }) = args_event {
        assert!(serde_json::from_str::<serde_json::Value>(delta).is_ok());
    }
}

#[test]
fn test_permission_required_with_special_characters_in_params() {
    let mut ctx = context();

    let params = r#"{"cmd":"echo \"Hello\\nWorld\"","special":"chars: \t\r\n"}"#;
    let event = AgentEvent::PermissionRequired {
        proposal_id: "prop-1".to_string(),
        tool_name: "shell".to_string(),
        params: params.to_string(),
        params_hash: "hash123".to_string(),
    };

    let events = convert_event(&event, &mut ctx);
    assert_eq!(events.len(), 1);

    if let AguiEvent::Interrupt { data, .. } = &events[0] {
        // Verify special characters are preserved
        let parsed: serde_json::Value = serde_json::from_str(&data.params).unwrap();
        assert_eq!(parsed["cmd"], "echo \"Hello\\nWorld\"");
        assert_eq!(parsed["special"], "chars: \t\r\n");
    } else {
        panic!("Expected Interrupt event");
    }
}

#[test]
fn agui_test_multiple_tools_in_sequence() {
    let mut ctx = context();

    convert_event(&model_started(1, 2), &mut ctx);

    let tool1 = AgentEvent::ToolRequested { tool_use_id: "tc-1".to_string(), name: "tool1".to_string(), input: "{}".to_string() };
    convert_event(&tool1, &mut ctx);
    assert!(ctx.current_message_id().is_none()); // Message ended by tool

    let complete1 = AgentEvent::ToolCompleted {
        tool_use_id: "tc-1".to_string(),
        name: "tool1".to_string(),
        output: "Result 1".to_string(),
        duration_ms: 100,
    };
    convert_event(&complete1, &mut ctx);

    let tool2 = AgentEvent::ToolRequested { tool_use_id: "tc-2".to_string(), name: "tool2".to_string(), input: "{}".to_string() };
    let events = convert_event(&tool2, &mut ctx);

    let has_message_end = events.iter().any(|e| matches!(e, AguiEvent::TextMessageEnd { .. }));
    assert!(!has_message_end, "Should not emit TextMessageEnd when no message is active");
}

#[test]
fn test_silent_events_produce_no_output() {
    let mut ctx = context();

    let silent_events = vec![
        AgentEvent::ToolExecuting { tool_use_id: "tc-1".to_string(), name: "tool".to_string() },
        AgentEvent::ModelCallCompleted { response_content: "Done".to_string(), stop_reason: None },
        AgentEvent::PermissionGranted { tool_use_id: "tc-1".to_string(), tool_name: "tool".to_string() },
        AgentEvent::PermissionDenied {
            tool_use_id: "tc-1".to_string(),
            tool_name: "tool".to_string(),
            reason: "denied".to_string(),
        },
    ];

    for event in silent_events {
        let events = convert_event(&event, &mut ctx);
        assert_eq!(events.len(), 0, "Event should produce no AG-UI events");
    }
}

#[test]
fn test_context_thread_and_run_ids() {
    let mut ctx = ConversionContext::new("custom-thread".to_string(), "custom-run".to_string());

    let event = AgentEvent::RunStarted { input: "test".to_string() };

    let events = convert_event(&event, &mut ctx);

    if let AguiEvent::RunStarted { thread_id, run_id } = &events[0] {
        assert_eq!(thread_id, "custom-thread");
        assert_eq!(run_id, "custom-run");
    } else {
        panic!("Expected RunStarted");
    }
}

#[test]
fn run_ids_keep_given_and_draw_missing() {
    let (t, r) = resolve_run_ids(Some("thread-1".to_string()), Some("run-1".to_string()));
    assert_eq!(t, "thread-1");
    assert_eq!(r, "run-1");
    let (t, r) = resolve_run_ids(None, None);
    assert_eq!(t.len(), 36);
    assert_eq!(r.len(), 36);
    assert_ne!(t, r);
}

fn uuid_v4_shaped(s: &str) -> bool {
    let b = s.as_bytes();
    b.len() == 36
        && b.iter().enumerate().all(|(i, c)| {
            if i == 8 || i == 13 || i == 18 || i == 23 {
                *c == b'-'
            } else {
                c.is_ascii_digit() || (b'a'..=b'f').contains(c)
            }
        })
        && b[14] == b'4'
}

#[test]
fn drawn_run_ids_are_version_four_uuids() {
    let (t, r) = resolve_run_ids(None, Some("run-2".to_string()));
    assert!(uuid_v4_shaped(&t));
    assert_eq!(r, "run-2");
    let (t, r) = resolve_run_ids(Some("thread-2".to_string()), None);
    assert_eq!(t, "thread-2");
    assert!(uuid_v4_shaped(&r));
}
