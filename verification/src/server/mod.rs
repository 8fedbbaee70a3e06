//! Event conversion and request decisions of the agent HTTP server.

pub mod agentcore;
pub mod agui;
pub mod error;
pub mod events;
pub mod router;
