//! Verified core of the mixtape agent server and tool suite.
//!
//! The `server` modules hold the event conversions and request handling
//! decisions of the HTTP layer; the `tools` modules hold the parsing,
//! formatting and validation logic of the agent tools.

pub mod server;
pub mod text;
pub mod tools;
