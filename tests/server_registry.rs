use ssh_hub::metadata::SystemMetadata;
use ssh_hub::server_registry::{AuthMethod, EntryFields, RegistryError, ServerEntry, ServerRegistry};

fn fields(host: &str, user: &str) -> EntryFields {
    EntryFields {
        host: Some(host.to_string()),
        user: Some(user.to_string()),
        port: None,
        remote_path: None,
        identity: None,
        auth: None,
        metadata: None,
    }
}

#[test]
fn test_parse_config() {
    let mut staging = fields("staging.example.com", "deploy");
    staging.port = Some(2222);
    staging.remote_path = Some("/var/www/app".to_string());
    staging.identity = Some("~/.ssh/id_staging".to_string());
    staging.auth = Some("key".to_string());
    let mut prod = fields("prod.example.com", "deploy");
    prod.remote_path = Some("/var/www/app".to_string());
    prod.auth = Some("agent".to_string());
    let config =
        ServerRegistry::from_records(&vec![("staging".to_string(), staging), ("prod".to_string(), prod)])
            .unwrap();
    assert_eq!(config.len(), 2);

    let staging = config.get("staging").unwrap();
    assert_eq!(staging.host, "staging.example.com");
    assert_eq!(staging.port, 2222);
    assert_eq!(staging.auth, AuthMethod::Key);
    assert_eq!(staging.identity.as_deref(), Some("~/.ssh/id_staging"));

    let prod = config.get("prod").unwrap();
    assert_eq!(prod.host, "prod.example.com");
    assert_eq!(prod.port, 22);
    assert_eq!(prod.auth, AuthMethod::Agent);
}

#[test]
fn test_default_auth_method() {
    let mut dev = fields("dev.local", "user");
    dev.remote_path = Some("/home/user".to_string());
    let config = ServerRegistry::from_records(&vec![("dev".to_string(), dev)]).unwrap();
    let dev = config.get("dev").unwrap();
    assert_eq!(dev.auth, AuthMethod::Auto);
    assert_eq!(dev.remote_path, "/home/user");
}

#[test]
fn test_roundtrip() {
    let mut config = ServerRegistry::new();
    config.insert(
        "test".to_string(),
        ServerEntry {
            host: "test.local".to_string(),
            user: "testuser".to_string(),
            port: 22,
            remote_path: "/home/test".to_string(),
            identity: None,
            auth: AuthMethod::Auto,
            metadata: None,
        },
    );
    let records = config.to_records();
    let deserialized = ServerRegistry::from_records(&records).unwrap();
    let entry = deserialized.get("test").unwrap();
    assert_eq!(entry.host, "test.local");
    assert_eq!(entry.user, "testuser");
}

#[test]
fn test_empty_config() {
    let config = ServerRegistry::from_records(&vec![]).unwrap();
    assert!(config.is_empty());
}

#[test]
fn test_metadata_backward_compat() {
    let mut staging = fields("staging.example.com", "deploy");
    staging.remote_path = Some("/var/www".to_string());
    let config = ServerRegistry::from_records(&vec![("staging".to_string(), staging)]).unwrap();
    let staging = config.get("staging").unwrap();
    assert!(staging.metadata.is_none());
    assert_eq!(staging.remote_path, "/var/www");
}

#[test]
fn test_metadata_roundtrip() {
    let mut config = ServerRegistry::new();
    let mut entry = ServerEntry {
        host: "test.local".to_string(),
        user: "testuser".to_string(),
        port: 22,
        remote_path: "/home/test".to_string(),
        identity: None,
        auth: AuthMethod::Auto,
        metadata: None,
    };
    entry.metadata = Some(SystemMetadata {
        os: Some("linux".into()),
        distro: Some("Ubuntu 22.04".into()),
        arch: Some("x86_64".into()),
        shell: Some("/bin/bash".into()),
        package_manager: Some("apt".into()),
        collected_at: Some(1_700_000_000),
    });
    config.insert("test".to_string(), entry);

    let deserialized = ServerRegistry::from_records(&config.to_records()).unwrap();
    let meta = deserialized.get("test").unwrap().metadata.as_ref().unwrap();
    assert_eq!(meta.os.as_deref(), Some("linux"));
    assert_eq!(meta.distro.as_deref(), Some("Ubuntu 22.04"));
    assert_eq!(meta.arch.as_deref(), Some("x86_64"));
    assert_eq!(meta.shell.as_deref(), Some("/bin/bash"));
    assert_eq!(meta.package_manager.as_deref(), Some("apt"));
    assert_eq!(meta.collected_at, Some(1_700_000_000));
}

#[test]
fn record_checks() {
    let mut bad_port = fields("h", "u");
    bad_port.port = Some(70000);
    assert_eq!(
        ServerEntry::from_fields("a", bad_port).unwrap_err(),
        RegistryError::BadPort("a".to_string(), 70000)
    );
    let mut zero = fields("h", "u");
    zero.port = Some(0);
    assert!(ServerEntry::from_fields("a", zero).is_err());
    let mut bad_auth = fields("h", "u");
    bad_auth.auth = Some("password".to_string());
    assert_eq!(
        ServerEntry::from_fields("a", bad_auth).unwrap_err(),
        RegistryError::UnknownAuth("a".to_string(), "password".to_string())
    );
    let mut no_host = fields("h", "u");
    no_host.host = None;
    assert_eq!(
        ServerEntry::from_fields("a", no_host).unwrap_err(),
        RegistryError::MissingHost("a".to_string())
    );
    assert_eq!(
        ServerEntry::from_fields("a", fields("h", "")).unwrap_err(),
        RegistryError::MissingUser("a".to_string())
    );
    let ok = ServerEntry::from_fields("a", fields("h", "u")).unwrap();
    assert_eq!(ok.remote_path, "~");
    let back = ok.to_fields();
    assert_eq!(back.port, Some(22));
    assert_eq!(back.auth.as_deref(), Some("auto"));
}

#[test]
fn registry_round_trip_keeps_every_entry() {
    let mut config = ServerRegistry::new();
    for (name, port) in [("a", 22u16), ("b", 2222), ("c", 65535)] {
        config.insert(
            name.to_string(),
            ServerEntry {
                host: format!("{name}.local"),
                user: "u".to_string(),
                port,
                remote_path: "~".to_string(),
                identity: Some("~/.ssh/k".to_string()),
                auth: AuthMethod::Key,
                metadata: None,
            },
        );
    }
    let back = ServerRegistry::from_records(&config.to_records()).unwrap();
    assert_eq!(back.len(), 3);
    assert_eq!(back.get("b").unwrap().port, 2222);
    assert_eq!(back.get("c").unwrap().auth, AuthMethod::Key);
    assert_eq!(back.get("a").unwrap().identity.as_deref(), Some("~/.ssh/k"));
}

#[test]
fn later_record_of_an_alias_wins() {
    let mut second = fields("h2", "u");
    second.port = Some(2200);
    let config = ServerRegistry::from_records(&vec![
        ("x".to_string(), fields("h1", "u")),
        ("x".to_string(), second),
    ])
    .unwrap();
    assert_eq!(config.len(), 1);
    assert_eq!(config.get("x").unwrap().host, "h2");
    assert_eq!(config.get("x").unwrap().port, 2200);
}
