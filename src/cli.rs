//! Connection strings, the parameters built from them or from the registry,
//! and the command line's own rules.
pub mod args;
pub mod connection;
pub mod refresh;

pub use args::{Cli, Command};
pub use connection::{
    params_from_config, params_from_connection_string, parse_connection_string, ConnectionInfo,
};
pub use refresh::ConnectionOverrides;
