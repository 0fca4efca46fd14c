//! Rules of the `refresh` command: which arguments go together, and how
//! connection overrides change a registry entry.
use vstd::prelude::*;

use crate::server_registry::{EntrySpec, ServerEntry};

verus! {

/// Connection settings that `refresh` writes into an entry before connecting.
#[derive(Debug, Clone, Default)]
pub struct ConnectionOverrides {
    pub host: Option<String>,
    pub port: Option<u16>,
    pub remote_path: Option<String>,
    pub identity: Option<String>,
}

impl ConnectionOverrides {
    /// Whether any override is set.
    pub fn has_any(&self) -> (r: bool)
        ensures
            r == (self.host.is_some() || self.port.is_some() || self.remote_path.is_some()
                || self.identity.is_some()),
    {
        self.host.is_some() || self.port.is_some() || self.remote_path.is_some()
            || self.identity.is_some()
    }
}

/// `e` with the overrides that are set written over its fields.
pub open spec fn overridden(e: EntrySpec, o: ConnectionOverrides) -> EntrySpec {
    EntrySpec {
        host: match o.host { Some(h) => h@, None => e.host },
        port: match o.port { Some(p) => p, None => e.port },
        remote_path: match o.remote_path { Some(p) => p@, None => e.remote_path },
        identity: match o.identity { Some(i) => Some(i@), None => e.identity },
        ..e
    }
}

/// Writes the overrides that are set into `entry`.
pub fn apply_overrides(entry: &mut ServerEntry, overrides: ConnectionOverrides)
    ensures
        final(entry)@ == overridden(old(entry)@, overrides),
{
    let ghost o = overrides;
    let ConnectionOverrides { host, port, remote_path, identity } = overrides;
    if let Some(h) = host {
        entry.host = h;
    }
    if let Some(p) = port {
        entry.port = p;
    }
    if let Some(rp) = remote_path {
        entry.remote_path = rp;
    }
    if let Some(id) = identity {
        entry.identity = Some(id);
    }
}

/// Why the arguments of `refresh` were refused.
#[derive(Debug, Clone, Copy, PartialEq, Eq, Structural)]
pub enum RefreshArgsError {
    /// Neither a server name nor `--all`.
    NothingToRefresh,
    /// Overrides together with `--all`.
    OverridesWithAll,
}

/// Checks the arguments of `refresh`: a name or `--all` is needed, and
/// overrides apply to one server only.
pub fn check_refresh_args(has_name: bool, all: bool, overrides: &ConnectionOverrides) -> (r: Result<(), RefreshArgsError>)
    ensures
        r == if !all && !has_name {
            Err::<(), RefreshArgsError>(RefreshArgsError::NothingToRefresh)
        } else if all && (overrides.host.is_some() || overrides.port.is_some()
            || overrides.remote_path.is_some() || overrides.identity.is_some()) {
            Err(RefreshArgsError::OverridesWithAll)
        } else {
            Ok(())
        },
{
    if !all && !has_name {
        return Err(RefreshArgsError::NothingToRefresh);
    }
    if all && overrides.has_any() {
        return Err(RefreshArgsError::OverridesWithAll);
    }
    Ok(())
}

} // verus!
