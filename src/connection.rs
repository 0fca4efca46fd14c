//! Sessions and the pool that shares them.
pub mod auth;
pub mod pool;
pub mod session;
