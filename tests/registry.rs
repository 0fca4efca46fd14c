use ssh_hub::metadata::SystemMetadata;
use ssh_hub::server_registry::{AuthMethod, ServerEntry, ServerRegistry};

fn entry(host: &str, port: u16) -> ServerEntry {
    ServerEntry {
        host: host.to_string(),
        user: "deploy".to_string(),
        port,
        remote_path: "/var/www/app".to_string(),
        identity: None,
        auth: AuthMethod::Auto,
        metadata: None,
    }
}

#[test]
fn insert_get_remove() {
    let mut r = ServerRegistry::new();
    assert!(r.is_empty());
    r.insert("prod".to_string(), entry("prod.example.com", 22));
    r.insert("prod".to_string(), entry("prod2.example.com", 22));
    assert_eq!(r.len(), 1);
    assert_eq!(r.get("prod").unwrap().host, "prod2.example.com");
    assert!(r.get("staging").is_none());
    let removed = r.remove("prod").unwrap();
    assert_eq!(removed.host, "prod2.example.com");
    assert!(r.remove("prod").is_none());
    assert!(r.is_empty());
}

#[test]
fn metadata_only_change_evicts_nothing() {
    let mut old = ServerRegistry::new();
    old.insert("prod".to_string(), entry("prod.example.com", 22));
    let mut new = ServerRegistry::new();
    let mut e = entry("prod.example.com", 22);
    e.metadata = Some(SystemMetadata {
        os: Some("linux".into()),
        ..Default::default()
    });
    new.insert("prod".to_string(), e);
    assert!(old.changed_servers(&new).is_empty());
}

#[test]
fn port_change_and_removal_evict() {
    let mut old = ServerRegistry::new();
    old.insert("staging".to_string(), entry("staging.example.com", 22));
    old.insert("prod".to_string(), entry("prod.example.com", 22));
    old.insert("dev".to_string(), entry("dev.local", 22));
    let mut new = ServerRegistry::new();
    new.insert("staging".to_string(), entry("staging.example.com", 2222));
    new.insert("prod".to_string(), entry("prod.example.com", 22));
    let mut changed = old.changed_servers(&new);
    changed.sort();
    assert_eq!(changed, vec!["dev".to_string(), "staging".to_string()]);
}

#[test]
fn identity_and_auth_changes_evict() {
    let mut old = ServerRegistry::new();
    old.insert("a".to_string(), entry("h", 22));
    old.insert("b".to_string(), entry("h", 22));
    let mut new = ServerRegistry::new();
    let mut a = entry("h", 22);
    a.identity = Some("~/.ssh/id".to_string());
    let mut b = entry("h", 22);
    b.auth = AuthMethod::Agent;
    new.insert("a".to_string(), a);
    new.insert("b".to_string(), b);
    assert_eq!(old.changed_servers(&new).len(), 2);
}

#[test]
fn auth_method_names() {
    assert_eq!(AuthMethod::Auto.name(), "auto");
    assert_eq!(AuthMethod::Agent.name(), "agent");
    assert_eq!(AuthMethod::Key.name(), "key");
    assert_eq!(AuthMethod::default(), AuthMethod::Auto);
}
