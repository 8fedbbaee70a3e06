//! AgentCore runtime protocol: streaming event types and their conversion
//! from agent events.

use vstd::prelude::*;
use crate::server::events::AgentEvent;

verus! {

/// AgentCore session ID header injected by the platform.
pub const SESSION_ID_HEADER: &'static str = "x-amzn-bedrock-agentcore-runtime-session-id";

/// AgentCore user ID header injected by the platform.
pub const USER_ID_HEADER: &'static str = "x-amzn-bedrock-agentcore-runtime-user-id";

/// Events streamed to AgentCore callers during a run.
#[derive(Debug)]
pub enum AgentCoreEvent {
    /// Agent execution started.
    RunStarted,
    /// Agent execution finished with the complete response text.
    RunFinished { response: String },
    /// Agent execution failed.
    RunError { message: String },
    /// Incremental text content.
    ContentDelta { text: String },
    /// A tool call has been requested.
    ToolCallStart { tool_call_id: String, name: String },
    /// The complete input of a tool call, as JSON text.
    ToolCallInput { tool_call_id: String, input: String },
    /// The arguments of a tool call are complete.
    ToolCallEnd { tool_call_id: String },
    /// A tool call succeeded.
    ToolCallResult { tool_call_id: String, content: String },
    /// A tool call failed.
    ToolCallError { tool_call_id: String, error: String },
}

/// Request body of the invocations endpoint.
pub struct InvocationRequest {
    /// The prompt to send to the agent.
    pub prompt: String,
}

/// Response body of the health check endpoint.
pub struct PingResponse {
    /// `"Healthy"` when ready.
    pub status: String,
    /// Unix timestamp of the last health update.
    pub time_of_last_update: i64,
}

/// The health check answer for the given time.
pub fn ping_response(now: i64) -> (r: PingResponse)
    ensures
        r.status@ == "Healthy"@,
        r.time_of_last_update == now,
{
    PingResponse { status: "Healthy".to_string(), time_of_last_update: now }
}

/// State carried across conversions: whether text is being streamed.
pub struct ConversionContext {
    in_text_stream: bool,
}

impl View for ConversionContext {
    type V = bool;

    open spec fn view(&self) -> bool {
        self.spec_in_text_stream()
    }
}

impl ConversionContext {
    /// Whether text is being streamed, in specifications.
    pub closed spec fn spec_in_text_stream(&self) -> bool {
        self.in_text_stream
    }

    /// A new context, not streaming text.
    pub fn new() -> (ctx: Self)
        ensures
            !ctx@,
    {
        ConversionContext { in_text_stream: false }
    }

    /// Whether text is currently being streamed.
    pub fn in_text_stream(&self) -> (b: bool)
        ensures
            b == self@,
    {
        self.in_text_stream
    }
}

/// The AgentCore events that one agent event becomes, given whether text
/// was being streamed.
pub open spec fn core_events_for(event: AgentEvent, streaming: bool) -> Seq<AgentCoreEvent> {
    match event {
        AgentEvent::RunStarted { .. } => seq![AgentCoreEvent::RunStarted],
        AgentEvent::RunCompleted { output, .. } => seq![AgentCoreEvent::RunFinished { response: output }],
        AgentEvent::RunFailed { error, .. } => seq![AgentCoreEvent::RunError { message: error }],
        AgentEvent::ModelCallStreaming { delta, .. } => if streaming {
            seq![AgentCoreEvent::ContentDelta { text: delta }]
        } else {
            seq![]
        },
        AgentEvent::ToolRequested { tool_use_id, name, input } => seq![
            AgentCoreEvent::ToolCallStart { tool_call_id: tool_use_id, name: name },
            AgentCoreEvent::ToolCallInput { tool_call_id: tool_use_id, input: input },
            AgentCoreEvent::ToolCallEnd { tool_call_id: tool_use_id },
        ],
        AgentEvent::ToolCompleted { tool_use_id, output, .. } => seq![
            AgentCoreEvent::ToolCallResult { tool_call_id: tool_use_id, content: output },
        ],
        AgentEvent::ToolFailed { tool_use_id, error, .. } => seq![
            AgentCoreEvent::ToolCallError { tool_call_id: tool_use_id, error: error },
        ],
        _ => seq![],
    }
}

/// Whether text is being streamed after an agent event.
pub open spec fn streaming_after(event: AgentEvent, streaming: bool) -> bool {
    match event {
        AgentEvent::RunCompleted { .. } => false,
        AgentEvent::RunFailed { .. } => false,
        AgentEvent::ModelCallStarted { .. } => true,
        AgentEvent::ToolRequested { .. } => false,
        _ => streaming,
    }
}

/// Convert an agent event to AgentCore streaming events, updating the
/// streaming state.
pub fn convert_event(event: &AgentEvent, ctx: &mut ConversionContext) -> (r: Vec<AgentCoreEvent>)
    ensures
        r@ == core_events_for(*event, old(ctx)@),
        final(ctx)@ == streaming_after(*event, old(ctx)@),
{
    match event {
        AgentEvent::RunStarted { .. } => vec![AgentCoreEvent::RunStarted],
        AgentEvent::RunCompleted { output, .. } => {
            ctx.in_text_stream = false;
            vec![AgentCoreEvent::RunFinished { response: output.clone() }]
        },
        AgentEvent::RunFailed { error, .. } => {
            ctx.in_text_stream = false;
            vec![AgentCoreEvent::RunError { message: error.clone() }]
        },
        AgentEvent::ModelCallStarted { .. } => {
            ctx.in_text_stream = true;
            vec![]
        },
        AgentEvent::ModelCallStreaming { delta, .. } => {
            if ctx.in_text_stream() {
                vec![AgentCoreEvent::ContentDelta { text: delta.clone() }]
            } else {
                vec![]
            }
        },
        AgentEvent::ModelCallCompleted { .. } => vec![],
        AgentEvent::ToolRequested { tool_use_id, name, input } => {
            ctx.in_text_stream = false;
            vec![
                AgentCoreEvent::ToolCallStart { tool_call_id: tool_use_id.clone(), name: name.clone() },
                AgentCoreEvent::ToolCallInput { tool_call_id: tool_use_id.clone(), input: input.clone() },
                AgentCoreEvent::ToolCallEnd { tool_call_id: tool_use_id.clone() },
            ]
        },
        AgentEvent::ToolExecuting { .. } => vec![],
        AgentEvent::ToolCompleted { tool_use_id, output, .. } => {
            vec![AgentCoreEvent::ToolCallResult { tool_call_id: tool_use_id.clone(), content: output.clone() }]
        },
        AgentEvent::ToolFailed { tool_use_id, error, .. } => {
            vec![AgentCoreEvent::ToolCallError { tool_call_id: tool_use_id.clone(), error: error.clone() }]
        },
        AgentEvent::PermissionRequired { .. } => vec![],
        AgentEvent::PermissionGranted { .. } => vec![],
        AgentEvent::PermissionDenied { .. } => vec![],
    }
}

/// The AgentCore events that a stream of agent events becomes, converted one
/// at a time with one shared context that starts with the given state.
pub open spec fn core_stream(events: Seq<AgentEvent>, streaming: bool) -> Seq<AgentCoreEvent>
    decreases events.len(),
{
    if events.len() == 0 {
        seq![]
    } else {
        core_events_for(events[0], streaming) + core_stream(
            events.drop_first(),
            streaming_after(events[0], streaming),
        )
    }
}

/// Whether an event is a content delta.
pub open spec fn is_content_delta(e: AgentCoreEvent) -> bool {
    e is ContentDelta
}

/// Whether an agent event is a model chunk.
pub open spec fn is_model_chunk(e: AgentEvent) -> bool {
    e is ModelCallStreaming
}

/// The text of a model chunk as a content delta.
pub open spec fn delta_of(e: AgentEvent) -> AgentCoreEvent {
    match e {
        AgentEvent::ModelCallStreaming { delta, .. } => AgentCoreEvent::ContentDelta { text: delta },
        _ => AgentCoreEvent::RunStarted,
    }
}

/// A tool request becomes exactly a start, an input and an end event, in
/// that order, all carrying the request's id, and it closes the text stream.
pub proof fn law_tool_request_triple(tool_use_id: String, name: String, input: String, streaming: bool)
    ensures
        ({
            let ev = AgentEvent::ToolRequested { tool_use_id, name, input };
            &&& core_events_for(ev, streaming) == seq![
                AgentCoreEvent::ToolCallStart { tool_call_id: tool_use_id, name: name },
                AgentCoreEvent::ToolCallInput { tool_call_id: tool_use_id, input: input },
                AgentCoreEvent::ToolCallEnd { tool_call_id: tool_use_id },
            ]
            &&& !streaming_after(ev, streaming)
        }),
{
}

/// Without a model call starting, no text is forwarded: a stream of agent
/// events that holds no model-call start, converted from a context that is
/// not streaming, yields no content delta.
pub proof fn law_no_text_without_model_call(events: Seq<AgentEvent>)
    requires
        forall|i: int| 0 <= i < events.len() ==> !(#[trigger] events[i] is ModelCallStarted),
    ensures
        forall|j: int|
            0 <= j < core_stream(events, false).len() ==> !is_content_delta(
                #[trigger] core_stream(events, false)[j],
            ),
    decreases events.len(),
{
    if events.len() > 0 {
        let rest = events.drop_first();
        assert forall|i: int| 0 <= i < rest.len() implies !(#[trigger] rest[i] is ModelCallStarted) by {
            assert(rest[i] == events[i + 1]);
        }
        law_no_text_without_model_call(rest);
        assert(!(events[0] is ModelCallStarted));
        assert(streaming_after(events[0], false) == false);
        let head = core_events_for(events[0], false);
        let tail = core_stream(rest, false);
        assert(core_stream(events, false) == head + tail);
        assert forall|j: int| 0 <= j < head.len() implies !is_content_delta(#[trigger] head[j]) by {}
        assert forall|j: int| 0 <= j < (head + tail).len() implies !is_content_delta(
            #[trigger] (head + tail)[j],
        ) by {
            if j < head.len() {
                assert((head + tail)[j] == head[j]);
            } else {
                assert((head + tail)[j] == tail[j - head.len()]);
            }
        }
    }
}

/// Once a model call has started, its chunks are forwarded in order as
/// content deltas, one per chunk.
pub proof fn law_chunks_forwarded_in_order(chunks: Seq<AgentEvent>)
    requires
        forall|i: int| 0 <= i < chunks.len() ==> is_model_chunk(#[trigger] chunks[i]),
    ensures
        core_stream(chunks, true) == chunks.map_values(|e: AgentEvent| delta_of(e)),
    decreases chunks.len(),
{
    if chunks.len() > 0 {
        let rest = chunks.drop_first();
        assert forall|i: int| 0 <= i < rest.len() implies is_model_chunk(#[trigger] rest[i]) by {
            assert(rest[i] == chunks[i + 1]);
        }
        law_chunks_forwarded_in_order(rest);
        assert(is_model_chunk(chunks[0]));
        assert(chunks.map_values(|e: AgentEvent| delta_of(e)) =~= seq![delta_of(chunks[0])]
            + rest.map_values(|e: AgentEvent| delta_of(e)));
    }
}

/// A run's end closes the text stream, whatever state came before.
pub proof fn law_run_end_closes_stream(event: AgentEvent, streaming: bool)
    requires
        event is RunCompleted || event is RunFailed,
    ensures
        !streaming_after(event, streaming),
        core_events_for(event, streaming).len() == 1,
{
}

/// The run lifecycle in the AgentCore stream: an agent event gives a
/// run-finished event exactly when the run completes, carrying its
/// output, and a run-error event exactly when it fails, carrying its
/// error; a tool's result or error is reported under the tool use's id
/// with the tool's output or error text.
pub proof fn law_core_run_lifecycle(event: AgentEvent, streaming: bool)
    ensures
        (exists|k: int|
            0 <= k < core_events_for(event, streaming).len() && #[trigger] core_events_for(event, streaming)[k] is RunFinished)
            <==> event is RunCompleted,
        (exists|k: int|
            0 <= k < core_events_for(event, streaming).len() && #[trigger] core_events_for(event, streaming)[k] is RunError)
            <==> event is RunFailed,
        (exists|k: int|
            0 <= k < core_events_for(event, streaming).len() && #[trigger] core_events_for(event, streaming)[k] is RunStarted)
            <==> event is RunStarted,
        event matches AgentEvent::RunCompleted { output, .. } ==> core_events_for(event, streaming) == seq![
            AgentCoreEvent::RunFinished { response: output },
        ],
        event matches AgentEvent::RunFailed { error, .. } ==> core_events_for(event, streaming) == seq![
            AgentCoreEvent::RunError { message: error },
        ],
        event matches AgentEvent::ToolCompleted { tool_use_id, output, .. } ==> core_events_for(event, streaming) == seq![
            AgentCoreEvent::ToolCallResult { tool_call_id: tool_use_id, content: output },
        ],
        event matches AgentEvent::ToolFailed { tool_use_id, error, .. } ==> core_events_for(event, streaming) == seq![
            AgentCoreEvent::ToolCallError { tool_call_id: tool_use_id, error: error },
        ],
        (event is ToolExecuting || event is ModelCallCompleted || event is ModelCallStarted
            || event is PermissionRequired || event is PermissionGranted || event is PermissionDenied)
            ==> core_events_for(event, streaming).len() == 0,
{
    let r = core_events_for(event, streaming);
    match event {
        AgentEvent::RunStarted { .. } => {
            assert(r[0] is RunStarted);
        },
        AgentEvent::RunCompleted { .. } => {
            assert(r[0] is RunFinished);
        },
        AgentEvent::RunFailed { .. } => {
            assert(r[0] is RunError);
        },
        _ => {},
    }
}

} // verus!
