//! Core of a multi-tenant SSH gateway: connection-string parsing, the server
//! registry and its diff, the connection pool's bookkeeping, the dispatcher's
//! decisions, and the shell/path helpers that every remote command goes through.
use vstd::prelude::*;

pub mod seqs;
pub mod text;
pub mod utils;
pub mod metadata;
pub mod server_registry;
pub mod connection;
pub mod cli;
pub mod tools;
pub mod server;

verus! {

} // verus!
