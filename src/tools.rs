//! Decisions of the tool handlers that do not need a session.
pub mod remote_bash;
pub mod schema;
pub mod sync_types;
