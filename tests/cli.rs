use ssh_hub::cli::parse_connection_string;

#[test]
fn test_parse_simple_connection() {
    let info = parse_connection_string("user@host:/path/to/project", None).unwrap();
    assert_eq!(info.user, "user");
    assert_eq!(info.host, "host");
    assert_eq!(info.port, 22);
    assert_eq!(info.remote_path, "/path/to/project");
}

#[test]
fn test_parse_connection_with_port() {
    let info =
        parse_connection_string("deploy@staging.example.com:2222:/var/www/app", None).unwrap();
    assert_eq!(info.user, "deploy");
    assert_eq!(info.host, "staging.example.com");
    assert_eq!(info.port, 2222);
    assert_eq!(info.remote_path, "/var/www/app");
}

#[test]
fn test_port_override() {
    let info = parse_connection_string("user@host:2222:/path", Some(3333)).unwrap();
    assert_eq!(info.port, 3333);
}

#[test]
fn test_invalid_no_user() {
    assert!(parse_connection_string("host:/path", None).is_err());
}

#[test]
fn test_no_path_defaults_to_home() {
    let info = parse_connection_string("user@host", None).unwrap();
    assert_eq!(info.user, "user");
    assert_eq!(info.host, "host");
    assert_eq!(info.port, 22);
    assert_eq!(info.remote_path, "~");
}

#[test]
fn test_port_no_path() {
    let info = parse_connection_string("user@host:2222", None).unwrap();
    assert_eq!(info.user, "user");
    assert_eq!(info.host, "host");
    assert_eq!(info.port, 2222);
    assert_eq!(info.remote_path, "~");
}

#[test]
fn test_ip_address_no_path() {
    let info = parse_connection_string("vicente@34.41.145.215", None).unwrap();
    assert_eq!(info.user, "vicente");
    assert_eq!(info.host, "34.41.145.215");
    assert_eq!(info.port, 22);
    assert_eq!(info.remote_path, "~");
}

#[test]
fn test_invalid_not_a_port_or_path() {
    assert!(parse_connection_string("user@host:notaport", None).is_err());
}

use ssh_hub::cli::connection::{
    expand_tilde, params_from_config_with_home, params_from_connection_string_with_home,
    ConnectionStringError,
};
use ssh_hub::cli::refresh::{apply_overrides, check_refresh_args, RefreshArgsError};
use ssh_hub::cli::ConnectionOverrides;
use ssh_hub::server_registry::{AuthMethod, ServerEntry};

#[test]
fn each_rejection_names_its_reason() {
    assert_eq!(
        parse_connection_string("host:/path", None).unwrap_err(),
        ConnectionStringError::MissingAt
    );
    assert_eq!(
        parse_connection_string("@host", None).unwrap_err(),
        ConnectionStringError::EmptyUser
    );
    assert_eq!(
        parse_connection_string("user@", None).unwrap_err(),
        ConnectionStringError::EmptyHost
    );
    assert_eq!(
        parse_connection_string("user@host:22x:/p", None).unwrap_err(),
        ConnectionStringError::InvalidPort("22x".to_string())
    );
    assert_eq!(
        parse_connection_string("user@host:22:rel", None).unwrap_err(),
        ConnectionStringError::PathNotAbsolute
    );
    assert_eq!(
        parse_connection_string("user@host:notaport", None).unwrap_err(),
        ConnectionStringError::NotPortOrPath("notaport".to_string())
    );
    assert!(!ConnectionStringError::EmptyHost.message().is_empty());
}

#[test]
fn port_edges() {
    assert_eq!(parse_connection_string("u@h:65535", None).unwrap().port, 65535);
    assert_eq!(parse_connection_string("u@h:1", None).unwrap().port, 1);
    assert!(parse_connection_string("u@h:65536", None).is_err());
    assert!(parse_connection_string("u@h:0", None).is_err());
    assert!(parse_connection_string("u@h:0:/p", None).is_err());
    assert!(parse_connection_string("u@h:+22", None).is_err());
    assert_eq!(parse_connection_string("u@h:0022", None).unwrap().port, 22);
    assert!(parse_connection_string("u@h:", None).is_err());
    assert_eq!(
        parse_connection_string("u@h:2222:", None).unwrap_err(),
        ConnectionStringError::PathNotAbsolute
    );
    assert_eq!(
        parse_connection_string("u@h", Some(0)).unwrap_err(),
        ConnectionStringError::ZeroPortOverride
    );
    assert_eq!(ConnectionStringError::ZeroPortOverride.message(), "Invalid port number: 0");
}

#[test]
fn written_connection_string_parses_back() {
    let info = parse_connection_string("deploy@staging.example.com:2222:/var/www/app", None).unwrap();
    let written = format!("{}@{}:{}:{}", info.user, info.host, info.port, info.remote_path);
    let again = parse_connection_string(&written, None).unwrap();
    assert_eq!(again.user, info.user);
    assert_eq!(again.host, info.host);
    assert_eq!(again.port, info.port);
    assert_eq!(again.remote_path, info.remote_path);
}

#[test]
fn tilde_expansion() {
    assert_eq!(expand_tilde("~/.ssh/id", Some("/home/u")), "/home/u/.ssh/id");
    assert_eq!(expand_tilde("~/.ssh/id", None), "~/.ssh/id");
    assert_eq!(expand_tilde("/abs/id", Some("/home/u")), "/abs/id");
    assert_eq!(expand_tilde("~", Some("/home/u")), "~");
}

#[test]
fn params_from_entry_and_string() {
    let e = ServerEntry {
        host: "h".to_string(),
        user: "u".to_string(),
        port: 2200,
        remote_path: "/srv".to_string(),
        identity: Some("~/.ssh/k".to_string()),
        auth: AuthMethod::Key,
        metadata: None,
    };
    let p = params_from_config_with_home("box", &e, Some("/home/u"));
    assert_eq!(p.identity.as_deref(), Some("/home/u/.ssh/k"));
    assert_eq!(p.auth_method, AuthMethod::Key);
    assert_eq!(p.server_name.as_deref(), Some("box"));
    assert_eq!(p.port, 2200);
    let q = params_from_connection_string_with_home("b", "u@h:/x", Some(3), Some("~/k"), Some("/r"))
        .unwrap();
    assert_eq!(q.port, 3);
    assert_eq!(q.remote_path, "/x");
    assert_eq!(q.identity.as_deref(), Some("/r/k"));
    assert_eq!(q.auth_method, AuthMethod::Auto);
}

#[test]
fn refresh_overrides() {
    let mut e = ServerEntry {
        host: "old".to_string(),
        user: "u".to_string(),
        port: 22,
        remote_path: "~".to_string(),
        identity: None,
        auth: AuthMethod::Auto,
        metadata: None,
    };
    let o = ConnectionOverrides {
        host: Some("10.0.0.99".to_string()),
        port: Some(2222),
        ..Default::default()
    };
    assert!(o.has_any());
    assert_eq!(check_refresh_args(false, true, &o), Err(RefreshArgsError::OverridesWithAll));
    assert_eq!(check_refresh_args(true, false, &o), Ok(()));
    assert_eq!(
        check_refresh_args(false, false, &ConnectionOverrides::default()),
        Err(RefreshArgsError::NothingToRefresh)
    );
    apply_overrides(&mut e, o);
    assert_eq!(e.host, "10.0.0.99");
    assert_eq!(e.port, 2222);
    assert_eq!(e.remote_path, "~");
}

#[test]
fn error_messages() {
    assert_eq!(
        ConnectionStringError::InvalidPort("x".to_string()).message(),
        "Invalid port number: x"
    );
    assert_eq!(
        ConnectionStringError::MissingAt.message(),
        "Invalid connection string: missing '@' in user@host"
    );
    assert_eq!(
        ConnectionStringError::NotPortOrPath("notaport".to_string()).message(),
        "Invalid connection string: 'notaport' is not a port number or path"
    );
}

#[test]
fn params_from_config_keeps_fields() {
    let e = ServerEntry {
        host: "h".to_string(),
        user: "u".to_string(),
        port: 22,
        remote_path: "~".to_string(),
        identity: Some("/abs/key".to_string()),
        auth: AuthMethod::Agent,
        metadata: None,
    };
    let p = ssh_hub::cli::params_from_config("prod", &e);
    assert_eq!(p.host, "h");
    assert_eq!(p.user, "u");
    assert_eq!(p.identity.as_deref(), Some("/abs/key"));
    assert_eq!(p.auth_method, AuthMethod::Agent);
    assert_eq!(p.server_name.as_deref(), Some("prod"));
    let q = ssh_hub::cli::params_from_connection_string("x", "user@host:2222", None, None).unwrap();
    assert_eq!(q.port, 2222);
    assert_eq!(q.remote_path, "~");
    assert!(q.identity.is_none());
}
