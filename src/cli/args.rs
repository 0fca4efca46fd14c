//! The command line, as values.
use vstd::prelude::*;

verus! {

/// The program's arguments.
#[derive(Debug, Clone)]
pub struct Cli {
    pub verbose: bool,
    pub command: Option<Command>,
}

/// A registry-editing or maintenance command; none means serve MCP on stdio.
#[derive(Debug, Clone)]
pub enum Command {
    Add { name: String, connection: String, port: Option<u16>, identity: Option<String> },
    Remove { name: String },
    List,
    McpInstall { directory: String, claude: bool, codex: bool },
    Refresh {
        name: Option<String>,
        all: bool,
        host: Option<String>,
        port: Option<u16>,
        remote_path: Option<String>,
        identity: Option<String>,
    },
    Update { check: bool },
}

} // verus!
