//! The typed records that tool calls carry in and out.
use vstd::prelude::*;

verus! {

/// Input of the `connect` tool.
#[derive(Debug, Clone)]
pub struct ConnectInput {
    pub name: String,
    pub connection: Option<String>,
    pub port: Option<u16>,
    pub identity: Option<String>,
    pub save: Option<bool>,
}

/// Input of the `disconnect` tool.
#[derive(Debug, Clone)]
pub struct DisconnectInput {
    pub server: String,
}

/// Input of the `list_servers` tool.
#[derive(Debug, Clone)]
pub struct ListServersInput {
    pub include_configured: Option<bool>,
}

/// Whether a server's SSH port answered, and how fast.
#[derive(Debug, Clone, Default)]
pub struct ReachabilityInfo {
    pub reachable: bool,
    pub latency_ms: Option<u64>,
}

/// A server with a pooled session.
#[derive(Debug, Clone)]
pub struct ConnectedServerInfo {
    pub name: String,
    pub host: String,
    pub user: String,
    pub port: u16,
    pub remote_path: String,
    pub reachability: ReachabilityInfo,
}

/// A server of the registry.
#[derive(Debug, Clone)]
pub struct ConfiguredServerInfo {
    pub name: String,
    pub host: String,
    pub user: String,
    pub port: u16,
    pub remote_path: String,
    pub auth: String,
    pub connected: bool,
    pub reachability: ReachabilityInfo,
}

/// Output of the `list_servers` tool.
#[derive(Debug, Clone)]
pub struct ListServersOutput {
    pub connected: Vec<ConnectedServerInfo>,
    pub configured: Option<Vec<ConfiguredServerInfo>>,
}

/// Input of the `remote_bash` tool.
#[derive(Debug, Clone)]
pub struct RemoteBashInput {
    pub server: String,
    pub command: String,
    pub timeout: Option<u64>,
    pub description: Option<String>,
    pub run_in_background: Option<bool>,
}

/// Output of a foreground `remote_bash` call.
#[derive(Debug, Clone)]
pub struct RemoteBashOutput {
    pub stdout: String,
    pub stderr: String,
    pub exit_code: i32,
}

/// Output of a background `remote_bash` launch.
#[derive(Debug, Clone)]
pub struct RemoteBashBackgroundOutput {
    pub pid: String,
    pub log_file: String,
    pub message: String,
}

/// Input of the `remote_edit` tool.
#[derive(Debug, Clone)]
pub struct RemoteEditInput {
    pub server: String,
    pub file_path: String,
    pub old_string: String,
    pub new_string: String,
    pub replace_all: Option<bool>,
}

/// Input of the `remote_glob` tool.
#[derive(Debug, Clone)]
pub struct RemoteGlobInput {
    pub server: String,
    pub pattern: String,
    pub path: Option<String>,
}

/// Input of the `remote_read` tool.
#[derive(Debug, Clone)]
pub struct RemoteReadInput {
    pub server: String,
    pub file_path: String,
    pub offset: Option<u64>,
    pub limit: Option<u64>,
}

/// Input of the `remote_write` tool.
#[derive(Debug, Clone)]
pub struct RemoteWriteInput {
    pub server: String,
    pub file_path: String,
    pub content: String,
}

/// Input of the `sync_pull` tool.
#[derive(Debug, Clone)]
pub struct SyncPullInput {
    pub server: String,
    pub remote_path: String,
    pub local_path: Option<String>,
    pub files: Option<Vec<String>>,
}

/// Input of the `sync_push` tool.
#[derive(Debug, Clone)]
pub struct SyncPushInput {
    pub server: String,
    pub local_path: String,
    pub remote_path: Option<String>,
    pub files: Option<Vec<String>>,
}

/// A file that a push could not transfer.
#[derive(Debug, Clone)]
pub struct FailedTransfer {
    pub path: String,
    pub error: String,
}

/// Output of a push.
#[derive(Debug, Clone)]
pub struct SyncPushOutput {
    pub pushed: Vec<String>,
    pub failed: Vec<FailedTransfer>,
}

/// Input of the `sync_status` tool.
#[derive(Debug, Clone)]
pub struct SyncStatusInput {
    pub server: String,
    pub local_path: String,
    pub remote_path: Option<String>,
}

/// Where a file stands between the local and remote copies.
#[derive(Debug, Clone, Copy, PartialEq, Eq, Structural)]
pub enum SyncState {
    LocalOnly,
    RemoteOnly,
    Modified,
    InSync,
}

/// One file's sync status.
#[derive(Debug, Clone)]
pub struct FileStatus {
    pub path: String,
    pub status: SyncState,
    pub local_modified: Option<String>,
    pub remote_modified: Option<String>,
}

/// Counts of files in each sync state.
#[derive(Debug, Clone)]
pub struct SyncSummary {
    pub local_only: usize,
    pub remote_only: usize,
    pub modified: usize,
    pub in_sync: usize,
}

/// Branch and commit of the local and remote checkouts.
#[derive(Debug, Clone)]
pub struct GitInfo {
    pub local_branch: String,
    pub remote_branch: String,
    pub local_commit: String,
    pub remote_commit: String,
    pub behind_by: Option<usize>,
    pub ahead_by: Option<usize>,
}

/// Output of the `sync_status` tool.
#[derive(Debug, Clone)]
pub struct SyncStatusOutput {
    pub method: String,
    pub files: Vec<FileStatus>,
    pub summary: SyncSummary,
    pub git_info: Option<GitInfo>,
}

} // verus!
