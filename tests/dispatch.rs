use ssh_hub::server::{connect_failed_message, not_found_message, Claim, Dispatcher, Resolution};
use ssh_hub::server_registry::{AuthMethod, ServerEntry, ServerRegistry};

fn entry(host: &str, port: u16) -> ServerEntry {
    ServerEntry {
        host: host.to_string(),
        user: "deploy".to_string(),
        port,
        remote_path: "/srv".to_string(),
        identity: None,
        auth: AuthMethod::Auto,
        metadata: None,
    }
}

fn registry(staging_port: u16) -> ServerRegistry {
    let mut r = ServerRegistry::new();
    r.insert("staging".to_string(), entry("staging.example.com", staging_port));
    r.insert("prod".to_string(), entry("prod.example.com", 22));
    r
}

#[test]
fn cold_pool_connects_once_then_reuses() {
    let mut d: Dispatcher<String> = Dispatcher::new(registry(22), Some(1));
    let first = d.resolve("prod");
    let params = match first {
        Resolution::Connect(p) => p,
        _ => panic!("expected a connect"),
    };
    assert_eq!(params.host, "prod.example.com");
    assert_eq!(params.server_name.as_deref(), Some("prod"));
    assert!(d.can_store());
    let id = d.connected("prod".to_string(), "session-1".to_string());
    let mut seen = Vec::new();
    for _ in 0..9 {
        match d.resolve("prod") {
            Resolution::Pooled { id: got } => seen.push(got),
            _ => panic!("expected the pooled session"),
        }
    }
    assert_eq!(seen.len(), 9);
    assert!(seen.iter().all(|&g| g == id));
}

#[test]
fn reload_evicts_changed_and_keeps_unchanged() {
    let mut d: Dispatcher<String> = Dispatcher::new(registry(22), Some(1));
    d.connected("staging".to_string(), "s".to_string());
    let prod_id = d.connected("prod".to_string(), "p".to_string());
    assert!(!d.needs_reload(1));
    assert!(d.needs_reload(2));
    let dropped = d.reload(registry(2222), 2);
    assert_eq!(dropped, vec![("staging".to_string(), "s".to_string())]);
    assert!(!d.needs_reload(2));
    match d.resolve("prod") {
        Resolution::Pooled { id } => assert_eq!(id, prod_id),
        _ => panic!("prod must stay pooled"),
    }
    match d.resolve("staging") {
        Resolution::Connect(p) => assert_eq!(p.port, 2222),
        _ => panic!("staging must reconnect with the new port"),
    }
}

#[test]
fn closed_session_is_evicted_and_reconnected() {
    let mut d: Dispatcher<String> = Dispatcher::new(registry(22), None);
    let id = d.connected("prod".to_string(), "p".to_string());
    assert!(!d.checked("prod", id, true));
    match d.resolve("prod") {
        Resolution::Connect(p) => assert_eq!(p.host, "prod.example.com"),
        _ => panic!("a closed session must not be reused"),
    }
}

#[test]
fn stale_handle_does_not_evict_fresh_session() {
    let mut d: Dispatcher<String> = Dispatcher::new(registry(22), None);
    let old_id = d.connected("prod".to_string(), "old".to_string());
    let new_id = d.connected("prod".to_string(), "new".to_string());
    assert_ne!(old_id, new_id);
    assert!(!d.checked("prod", old_id, true));
    match d.resolve("prod") {
        Resolution::Pooled { id } => assert_eq!(id, new_id),
        _ => panic!("the fresh session must stay"),
    }
    assert!(d.checked("prod", new_id, false));
}

#[test]
fn unknown_alias_lists_configured() {
    let mut r = ServerRegistry::new();
    r.insert("prod".to_string(), entry("prod.example.com", 22));
    let d: Dispatcher<String> = Dispatcher::new(r, None);
    match d.resolve("nope") {
        Resolution::Missing(msg) => {
            assert_eq!(msg, "Error: server 'nope' not found. Configured servers: prod.")
        }
        _ => panic!("expected a missing alias"),
    }
}

#[test]
fn not_found_messages() {
    assert_eq!(
        not_found_message("x", &vec![]),
        "Error: server 'x' not found. No servers are configured. Add servers via 'ssh-hub add <name> <connection>'."
    );
    assert_eq!(
        not_found_message("x", &vec!["a".to_string(), "b".to_string()]),
        "Error: server 'x' not found. Configured servers: a, b."
    );
    assert_eq!(
        connect_failed_message("x", "refused"),
        "Error: server 'x' is configured but auto-connect failed: refused"
    );
}

#[test]
fn disconnect_removes_session() {
    let mut d: Dispatcher<String> = Dispatcher::new(registry(22), None);
    d.connected("prod".to_string(), "p".to_string());
    assert_eq!(d.disconnect("prod"), Some("p".to_string()));
    assert_eq!(d.disconnect("prod"), None);
}

#[test]
fn ten_concurrent_calls_connect_once() {
    let mut d: Dispatcher<String> = Dispatcher::new(registry(22), None);
    let mut connects = 0;
    let mut waits = 0;
    for _ in 0..10 {
        match d.claim("prod") {
            Claim::Connect(_) => connects += 1,
            Claim::Wait => waits += 1,
            _ => panic!("nothing is pooled yet"),
        }
    }
    assert_eq!((connects, waits), (1, 9));
    let id = d.connected("prod".to_string(), "s".to_string());
    for _ in 0..9 {
        match d.claim("prod") {
            Claim::Pooled { id: got } => assert_eq!(got, id),
            _ => panic!("waiters must find the new session"),
        }
    }
}

#[test]
fn failed_connect_releases_claim() {
    let mut d: Dispatcher<String> = Dispatcher::new(registry(22), None);
    assert!(matches!(d.claim("staging"), Claim::Connect(_)));
    assert!(matches!(d.claim("staging"), Claim::Wait));
    assert!(matches!(d.claim("prod"), Claim::Connect(_)));
    d.connect_failed("staging");
    assert!(matches!(d.claim("staging"), Claim::Connect(_)));
    assert!(matches!(d.claim("nope"), Claim::Missing(_)));
}
