//! AG-UI protocol: event types, their conversion from agent events, and the
//! decisions behind the run and interrupt endpoints.

use vstd::prelude::*;
use crate::server::error::ServerError;
use crate::server::events::AgentEvent;
use crate::text::concat_str;

verus! {

/// Message author role.
#[derive(Debug, Clone, Copy, PartialEq, Eq, Structural)]
pub enum MessageRole {
    User,
    Assistant,
    System,
    Tool,
}

/// Type of interrupt.
#[derive(Debug, Clone, Copy, PartialEq, Eq, Structural)]
pub enum InterruptType {
    /// Tool requires user approval before execution.
    ToolApproval,
}

/// Data associated with an interrupt; `params` is JSON text.
#[derive(Debug)]
pub struct InterruptData {
    pub tool_use_id: String,
    pub tool_name: String,
    pub params: String,
    pub params_hash: String,
}

/// Scope for permission grants.
#[derive(Debug, Clone, Copy, PartialEq, Eq, Structural)]
pub enum GrantScope {
    /// Grant lives in memory only.
    Session,
    /// Grant persists to storage.
    Persistent,
}

/// Response to an interrupt from the client.
#[derive(Debug)]
pub enum InterruptResponse {
    /// Approve this single call without saving a grant.
    ApproveOnce,
    /// Trust this tool entirely and save a grant.
    TrustTool { scope: GrantScope },
    /// Trust this exact call (matching parameters) and save a grant.
    TrustExact { scope: GrantScope },
    /// Deny the request.
    Deny { reason: Option<String> },
}

/// JSON Patch operation (RFC 6902); `value` is JSON text.
#[derive(Debug)]
pub struct JsonPatchOp {
    pub op: String,
    pub path: String,
    pub value: Option<String>,
}

/// AG-UI protocol events.
#[allow(inconsistent_fields)]
#[derive(Debug)]
pub enum AguiEvent {
    RunStarted { thread_id: String, run_id: String },
    RunFinished { thread_id: String, run_id: String },
    RunError { message: String, code: Option<String> },
    TextMessageStart { message_id: String, role: MessageRole },
    TextMessageContent { message_id: String, delta: String },
    TextMessageEnd { message_id: String },
    ToolCallStart { tool_call_id: String, tool_call_name: String, parent_message_id: Option<String> },
    ToolCallArgs { tool_call_id: String, delta: String },
    ToolCallEnd { tool_call_id: String },
    ToolCallResult {
        message_id: String,
        tool_call_id: String,
        content: String,
        role: Option<MessageRole>,
    },
    /// A complete state snapshot, as JSON text.
    StateSnapshot { snapshot: String },
    StateDelta { delta: Vec<JsonPatchOp> },
    Interrupt { interrupt_id: String, interrupt_type: InterruptType, data: InterruptData },
}

/// State carried across conversions: the ids of the thread and the run, and
/// the id of the text message being streamed, if any.
pub struct ConversionContext {
    /// Thread ID for conversation continuity.
    pub thread_id: String,
    /// Run ID for this execution.
    pub run_id: String,
    current_message_id: Option<String>,
}

impl ConversionContext {
    /// The id of the text message being streamed, in specifications.
    pub closed spec fn current(&self) -> Option<String> {
        self.current_message_id
    }

    /// The thread id, in specifications.
    pub closed spec fn thread(&self) -> String {
        self.thread_id
    }

    /// The run id, in specifications.
    pub closed spec fn run(&self) -> String {
        self.run_id
    }

    /// A new context with no message being streamed.
    pub fn new(thread_id: String, run_id: String) -> (ctx: Self)
        ensures
            ctx.thread() == thread_id,
            ctx.run() == run_id,
            ctx.current() is None,
    {
        ConversionContext { thread_id, run_id, current_message_id: None }
    }

    /// The current message id, if any.
    pub fn current_message_id(&self) -> (r: Option<&str>)
        ensures
            r is None <==> self.current() is None,
            r is Some ==> r->0@ == self.current()->0@,
    {
        match &self.current_message_id {
            Some(id) => Some(id.as_str()),
            None => None,
        }
    }

    /// Set the current message id.
    pub fn set_current_message_id(&mut self, id: String)
        ensures
            final(self).current() == Some(id),
            final(self).thread() == old(self).thread(),
            final(self).run() == old(self).run(),
    {
        self.current_message_id = Some(id);
    }

    /// Clear and return the current message id.
    pub fn take_current_message_id(&mut self) -> (r: Option<String>)
        ensures
            r == old(self).current(),
            final(self).current() is None,
            final(self).thread() == old(self).thread(),
            final(self).run() == old(self).run(),
    {
        self.current_message_id.take()
    }
}

/// A vector holding just `e`.
fn one(e: AguiEvent) -> (r: Vec<AguiEvent>)
    ensures
        r@ == seq![e],
{
    let mut r = Vec::new();
    r.push(e);
    proof {
        assert(r@ =~= seq![e]);
    }
    r
}

/// Whether `r` is the sequence of AG-UI events that one agent event
/// becomes, given the context's ids, the message being streamed, and a fresh
/// id for the events that need one.
pub open spec fn is_agui_conversion(
    r: Seq<AguiEvent>,
    event: AgentEvent,
    thread_id: String,
    run_id: String,
    current: Option<String>,
    fresh: String,
) -> bool {
    match event {
        AgentEvent::RunStarted { .. } => r == seq![AguiEvent::RunStarted { thread_id, run_id }],
        AgentEvent::RunCompleted { .. } => match current {
            Some(m) => r == seq![
                AguiEvent::TextMessageEnd { message_id: m },
                AguiEvent::RunFinished { thread_id, run_id },
            ],
            None => r == seq![AguiEvent::RunFinished { thread_id, run_id }],
        },
        AgentEvent::RunFailed { error, .. } => r == seq![
            AguiEvent::RunError { message: error, code: None },
        ],
        AgentEvent::ModelCallStarted { .. } => r == seq![
            AguiEvent::TextMessageStart { message_id: fresh, role: MessageRole::Assistant },
        ],
        AgentEvent::ModelCallStreaming { delta, .. } => match current {
            Some(m) => r == seq![AguiEvent::TextMessageContent { message_id: m, delta }],
            None => r == Seq::<AguiEvent>::empty(),
        },
        AgentEvent::ToolRequested { tool_use_id, name, input } => {
            let calls = seq![
                AguiEvent::ToolCallStart {
                    tool_call_id: tool_use_id,
                    tool_call_name: name,
                    parent_message_id: None,
                },
                AguiEvent::ToolCallArgs { tool_call_id: tool_use_id, delta: input },
                AguiEvent::ToolCallEnd { tool_call_id: tool_use_id },
            ];
            match current {
                Some(m) => r == seq![AguiEvent::TextMessageEnd { message_id: m }] + calls,
                None => r == calls,
            }
        },
        AgentEvent::ToolCompleted { tool_use_id, output, .. } => r == seq![
            AguiEvent::ToolCallResult {
                message_id: fresh,
                tool_call_id: tool_use_id,
                content: output,
                role: Some(MessageRole::Tool),
            },
        ],
        AgentEvent::ToolFailed { tool_use_id, error, .. } => {
            &&& r.len() == 1
            &&& r[0] matches AguiEvent::ToolCallResult { message_id, tool_call_id, content, role }
            &&& message_id == fresh
            &&& tool_call_id == tool_use_id
            &&& content@ == "Error: "@ + error@
            &&& role == Some(MessageRole::Tool)
        },
        AgentEvent::PermissionRequired { proposal_id, tool_name, params, params_hash } => r == seq![
            AguiEvent::Interrupt {
                interrupt_id: proposal_id,
                interrupt_type: InterruptType::ToolApproval,
                data: InterruptData { tool_use_id: proposal_id, tool_name, params, params_hash },
            },
        ],
        _ => r == Seq::<AguiEvent>::empty(),
    }
}

/// The message being streamed after an agent event.
pub open spec fn current_after(event: AgentEvent, current: Option<String>, fresh: String) -> Option<String> {
    match event {
        AgentEvent::RunCompleted { .. } => None,
        AgentEvent::ModelCallStarted { .. } => Some(fresh),
        AgentEvent::ToolRequested { .. } => None,
        _ => current,
    }
}

/// Convert an agent event to AG-UI events, using `fresh` as the id of a new
/// text message or tool result where one is needed.
pub fn convert_event_with_id(event: &AgentEvent, ctx: &mut ConversionContext, fresh: String) -> (r: Vec<AguiEvent>)
    ensures
        is_agui_conversion(r@, *event, old(ctx).thread(), old(ctx).run(), old(ctx).current(), fresh),
        final(ctx).current() == current_after(*event, old(ctx).current(), fresh),
        final(ctx).thread() == old(ctx).thread(),
        final(ctx).run() == old(ctx).run(),
{
    match event {
        AgentEvent::RunStarted { .. } => {
            one(AguiEvent::RunStarted { thread_id: ctx.thread_id.clone(), run_id: ctx.run_id.clone() })
        },
        AgentEvent::RunCompleted { .. } => {
            let mut events: Vec<AguiEvent> = Vec::new();
            if let Some(msg_id) = ctx.take_current_message_id() {
                events.push(AguiEvent::TextMessageEnd { message_id: msg_id });
            }
            events.push(AguiEvent::RunFinished { thread_id: ctx.thread_id.clone(), run_id: ctx.run_id.clone() });
            proof {
                match old(ctx).current() {
                    Some(m) => {
                        assert(events@ =~= seq![
                            AguiEvent::TextMessageEnd { message_id: m },
                            AguiEvent::RunFinished { thread_id: old(ctx).thread(), run_id: old(ctx).run() },
                        ]);
                    },
                    None => {
                        assert(events@ =~= seq![
                            AguiEvent::RunFinished { thread_id: old(ctx).thread(), run_id: old(ctx).run() },
                        ]);
                    },
                }
            }
            events
        },
        AgentEvent::RunFailed { error, .. } => {
            one(AguiEvent::RunError { message: error.clone(), code: None })
        },
        AgentEvent::ModelCallStarted { .. } => {
            ctx.set_current_message_id(fresh.clone());
            one(AguiEvent::TextMessageStart { message_id: fresh, role: MessageRole::Assistant })
        },
        AgentEvent::ModelCallStreaming { delta, .. } => {
            match &ctx.current_message_id {
                Some(message_id) => one(AguiEvent::TextMessageContent { message_id: message_id.clone(), delta: delta.clone() }),
                None => Vec::new(),
            }
        },
        AgentEvent::ModelCallCompleted { .. } => Vec::new(),
        AgentEvent::ToolRequested { tool_use_id, name, input } => {
            let mut events: Vec<AguiEvent> = Vec::new();
            if let Some(msg_id) = ctx.take_current_message_id() {
                events.push(AguiEvent::TextMessageEnd { message_id: msg_id });
            }
            events.push(AguiEvent::ToolCallStart {
                tool_call_id: tool_use_id.clone(),
                tool_call_name: name.clone(),
                parent_message_id: None,
            });
            events.push(AguiEvent::ToolCallArgs { tool_call_id: tool_use_id.clone(), delta: input.clone() });
            events.push(AguiEvent::ToolCallEnd { tool_call_id: tool_use_id.clone() });
            proof {
                let calls = seq![
                    AguiEvent::ToolCallStart {
                        tool_call_id: *tool_use_id,
                        tool_call_name: *name,
                        parent_message_id: None,
                    },
                    AguiEvent::ToolCallArgs { tool_call_id: *tool_use_id, delta: *input },
                    AguiEvent::ToolCallEnd { tool_call_id: *tool_use_id },
                ];
                match old(ctx).current() {
                    Some(m) => {
                        assert(events@ =~= seq![AguiEvent::TextMessageEnd { message_id: m }] + calls);
                    },
                    None => {
                        assert(events@ =~= calls);
                    },
                }
            }
            events
        },
        AgentEvent::ToolExecuting { .. } => Vec::new(),
        AgentEvent::ToolCompleted { tool_use_id, output, .. } => {
            one(AguiEvent::ToolCallResult {
                message_id: fresh,
                tool_call_id: tool_use_id.clone(),
                content: output.clone(),
                role: Some(MessageRole::Tool),
            })
        },
        AgentEvent::ToolFailed { tool_use_id, error, .. } => {
            one(AguiEvent::ToolCallResult {
                message_id: fresh,
                tool_call_id: tool_use_id.clone(),
                content: concat_str("Error: ", error.as_str()),
                role: Some(MessageRole::Tool),
            })
        },
        AgentEvent::PermissionRequired { proposal_id, tool_name, params, params_hash } => {
            one(AguiEvent::Interrupt {
                interrupt_id: proposal_id.clone(),
                interrupt_type: InterruptType::ToolApproval,
                data: InterruptData {
                    tool_use_id: proposal_id.clone(),
                    tool_name: tool_name.clone(),
                    params: params.clone(),
                    params_hash: params_hash.clone(),
                },
            })
        },
        AgentEvent::PermissionGranted { .. } => Vec::new(),
        AgentEvent::PermissionDenied { .. } => Vec::new(),
    }
}

/// Whether `c` is a lowercase hexadecimal digit.
pub open spec fn is_lower_hex(c: char) -> bool {
    ('0' <= c && c <= '9') || ('a' <= c && c <= 'f')
}

/// The hyphenated text of a version 4 UUID: 36 characters, hyphens at 8,
/// 13, 18 and 23, lowercase hexadecimal digits elsewhere, the version
/// digit `4` at 14 and a variant digit `8`, `9`, `a` or `b` at 19.
pub open spec fn is_uuid_v4_text(s: Seq<char>) -> bool {
    &&& s.len() == 36
    &&& forall|i: int|
        0 <= i < 36 ==> if i == 8 || i == 13 || i == 18 || i == 23 {
            #[trigger] s[i] == '-'
        } else {
            is_lower_hex(s[i])
        }
    &&& s[14] == '4'
    &&& (s[19] == '8' || s[19] == '9' || s[19] == 'a' || s[19] == 'b')
}

/// A new random message id: `uuid::Uuid::new_v4()` in its hyphenated text
/// form (`Display` of `Uuid` is the lowercase hyphenated form; `new_v4`
/// sets the version and variant bits). Which id is drawn is random; only
/// its form is promised.
#[verifier::external_body]
fn new_message_id() -> (r: String)
    ensures
        is_uuid_v4_text(r@),
{
    uuid::Uuid::new_v4().to_string()
}

/// Whether converting an event draws a fresh id.
pub open spec fn draws_id(event: AgentEvent) -> bool {
    event is ModelCallStarted || event is ToolCompleted || event is ToolFailed
}

/// Convert an agent event to AG-UI events. New text messages and tool
/// results get a random id; whatever id was drawn, the result is the
/// conversion with that id.
pub fn convert_event(event: &AgentEvent, ctx: &mut ConversionContext) -> (r: Vec<AguiEvent>)
    ensures
        exists|fresh: String|
            (draws_id(*event) ==> is_uuid_v4_text(fresh@))
            && is_agui_conversion(r@, *event, old(ctx).thread(), old(ctx).run(), old(ctx).current(), fresh)
            && final(ctx).current() == current_after(*event, old(ctx).current(), fresh),
        final(ctx).thread() == old(ctx).thread(),
        final(ctx).run() == old(ctx).run(),
{
    let fresh = match event {
        AgentEvent::ModelCallStarted { .. } => new_message_id(),
        AgentEvent::ToolCompleted { .. } => new_message_id(),
        AgentEvent::ToolFailed { .. } => new_message_id(),
        _ => String::new(),
    };
    convert_event_with_id(event, ctx, fresh)
}

/// Ids for a run: those the request gave, or new random version 4 UUIDs.
pub fn resolve_run_ids(thread_id: Option<String>, run_id: Option<String>) -> (r: (String, String))
    ensures
        thread_id is Some ==> r.0 == thread_id->0,
        run_id is Some ==> r.1 == run_id->0,
        thread_id is None ==> is_uuid_v4_text(r.0@),
        run_id is None ==> is_uuid_v4_text(r.1@),
{
    let t = match thread_id {
        Some(t) => t,
        None => new_message_id(),
    };
    let r = match run_id {
        Some(r) => r,
        None => new_message_id(),
    };
    (t, r)
}

/// The error event sent when an agent run fails with the given message.
pub fn run_error_event(message: String) -> (e: AguiEvent)
    ensures
        e == (AguiEvent::RunError { message, code: None }),
{
    AguiEvent::RunError { message, code: None }
}

/// Options for an agent run.
#[derive(Debug)]
pub struct RunOptions {
    /// Whether to stream responses (always true for AG-UI).
    pub stream: bool,
}

/// The default of a flag that is on unless the client says otherwise.
pub fn default_true() -> (b: bool)
    ensures
        b,
{
    true
}

impl RunOptions {
    /// Streaming is on by default.
    pub fn default() -> (o: Self)
        ensures
            o.stream,
    {
        RunOptions { stream: default_true() }
    }
}

/// Request body for running an agent.
pub struct AgentRequest {
    /// User message to send to the agent.
    pub message: String,
    /// Thread ID for conversation continuity.
    pub thread_id: Option<String>,
    /// Run ID for this specific run.
    pub run_id: Option<String>,
    /// Run options.
    pub options: RunOptions,
}

/// Request body for responding to an interrupt.
pub struct InterruptRequest {
    /// The interrupt ID to respond to.
    pub interrupt_id: String,
    /// Tool name (from interrupt data).
    pub tool_name: String,
    /// Params hash (from interrupt data, for exact grants).
    pub params_hash: Option<String>,
    /// The response action.
    pub response: InterruptResponse,
}

/// Where a permission grant lives.
#[derive(Debug, Clone, Copy, PartialEq, Eq, Structural)]
pub enum Scope {
    /// In memory, for this session.
    Session,
    /// Saved to storage.
    Persistent,
}

/// A permission grant: a tool, optionally limited to one parameter hash.
pub struct Grant {
    pub tool: String,
    pub params_hash: Option<String>,
    pub scope: Scope,
}

/// The agent's answer to a permission request.
pub enum AuthorizationResponse {
    /// Approve this call once.
    Once,
    /// Approve and save a grant.
    Trust { grant: Grant },
    /// Deny the call.
    Deny { reason: Option<String> },
}

/// The grant scope that an AG-UI scope stands for.
pub open spec fn spec_convert_scope(scope: GrantScope) -> Scope {
    match scope {
        GrantScope::Session => Scope::Session,
        GrantScope::Persistent => Scope::Persistent,
    }
}

/// Convert an AG-UI grant scope to a grant scope.
pub fn convert_scope(scope: GrantScope) -> (s: Scope)
    ensures
        s == spec_convert_scope(scope),
{
    match scope {
        GrantScope::Session => Scope::Session,
        GrantScope::Persistent => Scope::Persistent,
    }
}

/// A grant is kept where the user asked: a session grant in memory for
/// the session, a persistent one in storage; no two scopes are confused.
pub proof fn law_scope_kept(scope: GrantScope)
    ensures
        spec_convert_scope(scope) == Scope::Session <==> scope == GrantScope::Session,
        spec_convert_scope(scope) == Scope::Persistent <==> scope == GrantScope::Persistent,
{
}

/// The message of the error answering an exact grant without a hash.
pub open spec fn missing_hash_message() -> Seq<char> {
    "params_hash required for TrustExact"@
}

/// The authorization that an interrupt request asks for. An exact grant
/// needs the parameter hash; without one the request is invalid.
pub fn authorization_for(request: InterruptRequest) -> (r: Result<AuthorizationResponse, ServerError>)
    ensures
        r is Err <==> (request.response is TrustExact && request.params_hash is None),
        r matches Err(e) ==> e matches ServerError::InvalidRequest(m) && m@ == missing_hash_message(),
        request.response is ApproveOnce ==> r == Ok::<AuthorizationResponse, ServerError>(AuthorizationResponse::Once),
        request.response matches InterruptResponse::Deny { reason }
            ==> r == Ok::<AuthorizationResponse, ServerError>(AuthorizationResponse::Deny { reason }),
        request.response matches InterruptResponse::TrustTool { scope } ==> r == Ok::<AuthorizationResponse, ServerError>(
            AuthorizationResponse::Trust {
                grant: Grant { tool: request.tool_name, params_hash: None, scope: spec_convert_scope(scope) },
            },
        ),
        request.response matches InterruptResponse::TrustExact { scope } ==> request.params_hash is Some
            ==> r == Ok::<AuthorizationResponse, ServerError>(AuthorizationResponse::Trust {
                grant: Grant {
                    tool: request.tool_name,
                    params_hash: request.params_hash,
                    scope: spec_convert_scope(scope),
                },
            }),
{
    match request.response {
        InterruptResponse::ApproveOnce => Ok(AuthorizationResponse::Once),
        InterruptResponse::TrustTool { scope } => Ok(AuthorizationResponse::Trust {
            grant: Grant { tool: request.tool_name, params_hash: None, scope: convert_scope(scope) },
        }),
        InterruptResponse::TrustExact { scope } => match request.params_hash {
            Some(hash) => Ok(AuthorizationResponse::Trust {
                grant: Grant { tool: request.tool_name, params_hash: Some(hash), scope: convert_scope(scope) },
            }),
            None => Err(ServerError::InvalidRequest("params_hash required for TrustExact".to_string())),
        },
        InterruptResponse::Deny { reason } => Ok(AuthorizationResponse::Deny { reason }),
    }
}

/// The text message open after one AG-UI event.
pub open spec fn step_open(e: AguiEvent, open: Option<String>) -> Option<String> {
    match e {
        AguiEvent::TextMessageStart { message_id, .. } => Some(message_id),
        AguiEvent::TextMessageEnd { .. } => None,
        _ => open,
    }
}

/// The text message open after a stream of AG-UI events.
pub open spec fn open_after(out: Seq<AguiEvent>, open: Option<String>) -> Option<String>
    decreases out.len(),
{
    if out.len() == 0 {
        open
    } else {
        open_after(out.drop_first(), step_open(out[0], open))
    }
}

/// Whether every content and end event of a stream belongs to the text
/// message that is open at that point.
pub open spec fn respects_open(out: Seq<AguiEvent>, open: Option<String>) -> bool
    decreases out.len(),
{
    if out.len() == 0 {
        true
    } else {
        &&& match out[0] {
            AguiEvent::TextMessageContent { message_id, .. } => open == Some(message_id),
            AguiEvent::TextMessageEnd { message_id } => open == Some(message_id),
            _ => true,
        }
        &&& respects_open(out.drop_first(), step_open(out[0], open))
    }
}

proof fn lemma_respects_open_concat(a: Seq<AguiEvent>, b: Seq<AguiEvent>, open: Option<String>)
    ensures
        respects_open(a + b, open) == (respects_open(a, open) && respects_open(b, open_after(a, open))),
        open_after(a + b, open) == open_after(b, open_after(a, open)),
    decreases a.len(),
{
    if a.len() > 0 {
        assert((a + b).drop_first() =~= a.drop_first() + b);
        assert((a + b)[0] == a[0]);
        lemma_respects_open_concat(a.drop_first(), b, step_open(a[0], open));
    } else {
        assert(a + b =~= b);
    }
}

/// Message boundaries are kept: converting any agent event, text content
/// and message ends refer to the message the context has open, and the
/// context afterwards names exactly the message left open in the stream.
pub proof fn law_message_boundaries(
    r: Seq<AguiEvent>,
    event: AgentEvent,
    thread_id: String,
    run_id: String,
    current: Option<String>,
    fresh: String,
)
    requires
        is_agui_conversion(r, event, thread_id, run_id, current, fresh),
    ensures
        respects_open(r, current),
        open_after(r, current) == current_after(event, current, fresh),
{
    reveal_with_fuel(respects_open, 5);
    reveal_with_fuel(open_after, 5);
    match event {
        AgentEvent::ToolRequested { tool_use_id, name, input } => {
            let calls = seq![
                AguiEvent::ToolCallStart {
                    tool_call_id: tool_use_id,
                    tool_call_name: name,
                    parent_message_id: None,
                },
                AguiEvent::ToolCallArgs { tool_call_id: tool_use_id, delta: input },
                AguiEvent::ToolCallEnd { tool_call_id: tool_use_id },
            ];
            match current {
                Some(m) => {
                    let end = seq![AguiEvent::TextMessageEnd { message_id: m }];
                    lemma_respects_open_concat(end, calls, current);
                },
                None => {},
            }
        },
        _ => {},
    }
}

/// The run lifecycle as a client sees it: an agent event gives a
/// run-started event exactly when the run starts, a run-finished event
/// exactly when it completes, and a run-error event exactly when it
/// fails; both run events carry the context's thread and run ids, and a
/// failed run becomes that one run-error event alone, with the run's
/// error text and no code.
pub proof fn law_run_lifecycle(
    r: Seq<AguiEvent>,
    event: AgentEvent,
    thread_id: String,
    run_id: String,
    current: Option<String>,
    fresh: String,
)
    requires
        is_agui_conversion(r, event, thread_id, run_id, current, fresh),
    ensures
        (exists|k: int| 0 <= k < r.len() && #[trigger] r[k] is RunStarted) <==> event is RunStarted,
        (exists|k: int| 0 <= k < r.len() && #[trigger] r[k] is RunFinished) <==> event is RunCompleted,
        (exists|k: int| 0 <= k < r.len() && #[trigger] r[k] is RunError) <==> event is RunFailed,
        forall|k: int|
            0 <= k < r.len() ==> match #[trigger] r[k] {
                AguiEvent::RunStarted { thread_id: t, run_id: u } => t == thread_id && u == run_id,
                AguiEvent::RunFinished { thread_id: t, run_id: u } => t == thread_id && u == run_id,
                _ => true,
            },
        event matches AgentEvent::RunFailed { error, .. } ==> {
            &&& r.len() == 1
            &&& r[0] matches AguiEvent::RunError { message, code }
            &&& message == error
            &&& code is None
        },
{
    match event {
        AgentEvent::RunStarted { .. } => {
            assert(r[0] is RunStarted);
        },
        AgentEvent::RunCompleted { .. } => {
            assert(r[r.len() - 1] is RunFinished);
        },
        AgentEvent::RunFailed { .. } => {
            assert(r[0] is RunError);
        },
        _ => {},
    }
}

/// Text messages as the client sees them: a model call opens a new
/// assistant message under the fresh id; a streamed chunk becomes content
/// of the message that is open, and nothing when none is.
pub proof fn law_text_messages(
    r: Seq<AguiEvent>,
    event: AgentEvent,
    thread_id: String,
    run_id: String,
    current: Option<String>,
    fresh: String,
)
    requires
        is_agui_conversion(r, event, thread_id, run_id, current, fresh),
    ensures
        event is ModelCallStarted ==> r == seq![
            AguiEvent::TextMessageStart { message_id: fresh, role: MessageRole::Assistant },
        ],
        event matches AgentEvent::ModelCallStreaming { delta, .. } ==> match current {
            Some(m) => r.len() == 1 && r[0] == (AguiEvent::TextMessageContent { message_id: m, delta }),
            None => r.len() == 0,
        },
        forall|k: int| 0 <= k < r.len() ==> (#[trigger] r[k] is TextMessageStart ==> event is ModelCallStarted),
{
}

/// Tool events keep their ids: every tool call event and tool result made
/// of an agent event names the agent's tool use id, a requested tool's
/// call opens with its name and carries its input as the arguments, a
/// tool result carries the tool's output (or `Error: ` and its error), and
/// a permission request becomes one tool-approval interrupt under the
/// proposal's id.
pub proof fn law_tool_events(
    r: Seq<AguiEvent>,
    event: AgentEvent,
    thread_id: String,
    run_id: String,
    current: Option<String>,
    fresh: String,
)
    requires
        is_agui_conversion(r, event, thread_id, run_id, current, fresh),
    ensures
        event matches AgentEvent::ToolRequested { tool_use_id, name, input } ==> {
            &&& r.len() >= 3
            &&& r[r.len() - 3] == (AguiEvent::ToolCallStart {
                tool_call_id: tool_use_id,
                tool_call_name: name,
                parent_message_id: None,
            })
            &&& r[r.len() - 2] == (AguiEvent::ToolCallArgs { tool_call_id: tool_use_id, delta: input })
            &&& r[r.len() - 1] == (AguiEvent::ToolCallEnd { tool_call_id: tool_use_id })
        },
        event matches AgentEvent::ToolCompleted { tool_use_id, output, .. } ==> {
            &&& r.len() == 1
            &&& r[0] matches AguiEvent::ToolCallResult { tool_call_id, content, .. }
            &&& tool_call_id == tool_use_id
            &&& content == output
        },
        event matches AgentEvent::ToolFailed { tool_use_id, error, .. } ==> {
            &&& r.len() == 1
            &&& r[0] matches AguiEvent::ToolCallResult { tool_call_id, content, .. }
            &&& tool_call_id == tool_use_id
            &&& content@ == "Error: "@ + error@
        },
        event matches AgentEvent::PermissionRequired { proposal_id, tool_name, params, params_hash } ==> {
            &&& r.len() == 1
            &&& r[0] matches AguiEvent::Interrupt { interrupt_id, interrupt_type, data }
            &&& interrupt_id == proposal_id
            &&& interrupt_type == InterruptType::ToolApproval
            &&& data.tool_use_id == proposal_id
            &&& data.tool_name == tool_name
            &&& data.params == params
            &&& data.params_hash == params_hash
        },
        (event is ToolCompleted || event is ToolFailed) ==> r.len() == 1,
        (event is ToolCompleted || event is ToolFailed) ==> (r[0] matches AguiEvent::ToolCallResult {
            message_id,
            role,
            ..
        } && message_id == fresh && role == Some(MessageRole::Tool)),
        (event is ToolExecuting || event is ModelCallCompleted || event is PermissionGranted
            || event is PermissionDenied) ==> r.len() == 0,
{
}

/// Whether `outs` are the AG-UI conversions of `events` made one after the
/// other with one shared context, the `i`-th with fresh id `freshes[i]`.
pub open spec fn is_agui_stream(
    outs: Seq<Seq<AguiEvent>>,
    events: Seq<AgentEvent>,
    thread_id: String,
    run_id: String,
    current: Option<String>,
    freshes: Seq<String>,
) -> bool
    decreases events.len(),
{
    &&& outs.len() == events.len()
    &&& freshes.len() == events.len()
    &&& (events.len() > 0 ==> {
        &&& is_agui_conversion(outs[0], events[0], thread_id, run_id, current, freshes[0])
        &&& is_agui_stream(
            outs.drop_first(),
            events.drop_first(),
            thread_id,
            run_id,
            current_after(events[0], current, freshes[0]),
            freshes.drop_first(),
        )
    })
}

/// The concatenation of a sequence of event sequences.
pub open spec fn flatten_events(outs: Seq<Seq<AguiEvent>>) -> Seq<AguiEvent>
    decreases outs.len(),
{
    if outs.len() == 0 {
        seq![]
    } else {
        outs[0] + flatten_events(outs.drop_first())
    }
}

/// Over a whole run, converted one event at a time with one context, the
/// AG-UI stream keeps message boundaries: every text content and message
/// end belongs to the message open at that point.
pub proof fn law_stream_message_boundaries(
    outs: Seq<Seq<AguiEvent>>,
    events: Seq<AgentEvent>,
    thread_id: String,
    run_id: String,
    current: Option<String>,
    freshes: Seq<String>,
)
    requires
        is_agui_stream(outs, events, thread_id, run_id, current, freshes),
    ensures
        respects_open(flatten_events(outs), current),
    decreases events.len(),
{
    if events.len() > 0 {
        law_message_boundaries(outs[0], events[0], thread_id, run_id, current, freshes[0]);
        law_stream_message_boundaries(
            outs.drop_first(),
            events.drop_first(),
            thread_id,
            run_id,
            current_after(events[0], current, freshes[0]),
            freshes.drop_first(),
        );
        lemma_respects_open_concat(outs[0], flatten_events(outs.drop_first()), current);
    }
}

/// A completed run finishes with a run-finished event and leaves no text
/// message open.
pub proof fn law_run_completed_closes(
    r: Seq<AguiEvent>,
    output: String,
    duration_ms: u64,
    thread_id: String,
    run_id: String,
    current: Option<String>,
    fresh: String,
)
    requires
        is_agui_conversion(r, AgentEvent::RunCompleted { output, duration_ms }, thread_id, run_id, current, fresh),
    ensures
        r.len() > 0,
        r.last() == (AguiEvent::RunFinished { thread_id, run_id }),
        open_after(r, current) is None,
        current_after(AgentEvent::RunCompleted { output, duration_ms }, current, fresh) is None,
{
    law_message_boundaries(r, AgentEvent::RunCompleted { output, duration_ms }, thread_id, run_id, current, fresh);
}

} // verus!
