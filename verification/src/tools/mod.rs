//! Parsing, formatting and validation logic of the agent tools.

pub mod aws;
pub mod edit;
pub mod fetch;
pub mod filesystem;
pub mod filesystem_format;
pub mod header;
pub mod listing;
pub mod paths;
pub mod pattern;
pub mod process;
pub mod process_format;
pub mod process_lists;
pub mod read_many;
pub mod render;
pub mod scan;
pub mod search;
pub mod session;
