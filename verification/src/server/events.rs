use vstd::prelude::*;

verus! {

/// An event emitted by an agent while it runs.
///
/// Every payload is held as a plain value: a tool's JSON input and a
/// permission request's parameters are held as their JSON text, and a tool's
/// result as its text.
#[derive(Debug)]
pub enum AgentEvent {
    /// The agent started working on an input.
    RunStarted { input: String },
    /// The agent finished a run with the given output.
    RunCompleted { output: String, duration_ms: u64 },
    /// The agent run failed.
    RunFailed { error: String, duration_ms: u64 },
    /// A model call started.
    ModelCallStarted { message_count: usize, tool_count: usize },
    /// A chunk of model output arrived.
    ModelCallStreaming { delta: String, accumulated_length: usize },
    /// A model call finished.
    ModelCallCompleted { response_content: String, stop_reason: Option<String> },
    /// The model asked for a tool call; `input` is its JSON text.
    ToolRequested { tool_use_id: String, name: String, input: String },
    /// A tool began executing.
    ToolExecuting { tool_use_id: String, name: String },
    /// A tool finished; `output` is its result as text.
    ToolCompleted { tool_use_id: String, name: String, output: String, duration_ms: u64 },
    /// A tool failed.
    ToolFailed { tool_use_id: String, name: String, error: String, duration_ms: u64 },
    /// A tool call needs the user's permission; `params` is its JSON text.
    PermissionRequired {
        proposal_id: String,
        tool_name: String,
        params: String,
        params_hash: String,
    },
    /// The user granted a permission request.
    PermissionGranted { tool_use_id: String, tool_name: String },
    /// The user denied a permission request.
    PermissionDenied { tool_use_id: String, tool_name: String, reason: String },
}

} // verus!
