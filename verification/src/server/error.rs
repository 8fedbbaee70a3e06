//! Errors of the agent server and how they are answered.

use vstd::prelude::*;
use crate::text::concat_str;

verus! {

/// Errors that can occur when building a router.
#[derive(Debug)]
pub enum BuildError {
    /// No endpoints were configured.
    NoEndpoints,
}

impl BuildError {
    /// The error's message.
    pub fn message(&self) -> (s: String)
        ensures
            s@ == "No endpoints configured. Call .with_agui() before .build()"@,
    {
        "No endpoints configured. Call .with_agui() before .build()".to_string()
    }
}

/// Errors that can occur while serving a request.
#[derive(Debug)]
pub enum ServerError {
    /// The agent failed; the payload is the agent error's message.
    Agent(String),
    /// A permission decision could not be applied.
    Permission(String),
    /// The client sent an invalid request.
    InvalidRequest(String),
    /// Internal server error.
    Internal(String),
}

/// The HTTP status that answers an error.
pub open spec fn spec_status_code(e: ServerError) -> u16 {
    match e {
        ServerError::Agent(_) => 500,
        ServerError::Permission(_) => 403,
        ServerError::InvalidRequest(_) => 400,
        ServerError::Internal(_) => 500,
    }
}

/// The message carried in the body that answers an error.
pub open spec fn spec_body_message(e: ServerError) -> Seq<char> {
    match e {
        ServerError::Agent(m) => m@,
        ServerError::Permission(m) => m@,
        ServerError::InvalidRequest(m) => m@,
        ServerError::Internal(m) => m@,
    }
}

/// The prefix of an error's displayed message.
pub open spec fn spec_display_prefix(e: ServerError) -> Seq<char> {
    match e {
        ServerError::Agent(_) => "Agent error: "@,
        ServerError::Permission(_) => "Permission error: "@,
        ServerError::InvalidRequest(_) => "Invalid request: "@,
        ServerError::Internal(_) => "Internal error: "@,
    }
}

impl ServerError {
    /// The HTTP status code that answers this error.
    pub fn status_code(&self) -> (c: u16)
        ensures
            c == spec_status_code(*self),
    {
        match self {
            ServerError::Agent(_) => 500,
            ServerError::Permission(_) => 403,
            ServerError::InvalidRequest(_) => 400,
            ServerError::Internal(_) => 500,
        }
    }

    /// The message of the JSON body `{"error": message, "code": status}`.
    pub fn body_message(&self) -> (s: String)
        ensures
            s@ == spec_body_message(*self),
    {
        match self {
            ServerError::Agent(m) => m.clone(),
            ServerError::Permission(m) => m.clone(),
            ServerError::InvalidRequest(m) => m.clone(),
            ServerError::Internal(m) => m.clone(),
        }
    }

    /// The displayed message: a prefix naming the kind, then the detail.
    pub fn message(&self) -> (s: String)
        ensures
            s@ == spec_display_prefix(*self) + spec_body_message(*self),
    {
        match self {
            ServerError::Agent(m) => concat_str("Agent error: ", m.as_str()),
            ServerError::Permission(m) => concat_str("Permission error: ", m.as_str()),
            ServerError::InvalidRequest(m) => concat_str("Invalid request: ", m.as_str()),
            ServerError::Internal(m) => concat_str("Internal error: ", m.as_str()),
        }
    }
}

/// A refused request is answered with a client or server error status,
/// and the body carries the error's own message.
pub proof fn law_errors_answered(e: ServerError)
    ensures
        400 <= spec_status_code(e) < 600,
        (e is InvalidRequest) <==> spec_status_code(e) == 400,
        (e is Permission) <==> spec_status_code(e) == 403,
        (e is Agent || e is Internal) <==> spec_status_code(e) == 500,
        match e {
            ServerError::Agent(m) => spec_body_message(e) == m@ && spec_display_prefix(e) == "Agent error: "@,
            ServerError::Permission(m) => spec_body_message(e) == m@ && spec_display_prefix(e) == "Permission error: "@,
            ServerError::InvalidRequest(m) => spec_body_message(e) == m@ && spec_display_prefix(e)
                == "Invalid request: "@,
            ServerError::Internal(m) => spec_body_message(e) == m@ && spec_display_prefix(e) == "Internal error: "@,
        },
{
}

} // verus!
