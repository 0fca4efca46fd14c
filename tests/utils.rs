use ssh_hub::utils::path::{
    format_with_line_numbers, normalize_remote_path, shell_escape, shell_escape_remote_path,
};

#[test]
fn test_normalize_absolute_path() {
    assert_eq!(
        normalize_remote_path("/etc/config", "/home/user"),
        "/etc/config"
    );
}

#[test]
fn test_normalize_relative_path() {
    assert_eq!(
        normalize_remote_path("src/main.rs", "/home/user/project"),
        "/home/user/project/src/main.rs"
    );
}

#[test]
fn test_format_with_line_numbers() {
    let content = "line1\nline2\nline3";
    let formatted = format_with_line_numbers(content, 0);
    assert!(formatted.contains("1\u{2192}line1"));
    assert!(formatted.contains("2\u{2192}line2"));
}

// ── shell_escape tests ──────────────────────────────────────────────

#[test]
fn test_shell_escape_simple() {
    assert_eq!(shell_escape("hello"), "'hello'");
}

#[test]
fn test_shell_escape_empty() {
    assert_eq!(shell_escape(""), "''");
}

#[test]
fn test_shell_escape_with_single_quote() {
    assert_eq!(shell_escape("it's"), "'it'\\''s'");
}

#[test]
fn test_shell_escape_with_spaces() {
    assert_eq!(shell_escape("path with spaces"), "'path with spaces'");
}

#[test]
fn test_shell_escape_command_substitution() {
    assert_eq!(shell_escape("$(rm -rf /)"), "'$(rm -rf /)'");
}

#[test]
fn test_shell_escape_backticks() {
    assert_eq!(shell_escape("`whoami`"), "'`whoami`'");
}

// ── remote path escaping ────────────────────────────────────────────

#[test]
fn remote_path_tilde_alone_is_home() {
    assert_eq!(shell_escape_remote_path("~"), "$HOME");
}

#[test]
fn remote_path_tilde_prefix_keeps_expansion() {
    assert_eq!(shell_escape_remote_path("~/pro ject"), "$HOME/'pro ject'");
}

#[test]
fn remote_path_absolute_is_quoted() {
    assert_eq!(shell_escape_remote_path("/var/it's"), "'/var/it'\\''s'");
}

#[test]
fn normalize_tilde_path_kept() {
    assert_eq!(normalize_remote_path("~/x", "/base"), "~/x");
}

#[test]
fn normalize_base_with_trailing_slash() {
    assert_eq!(normalize_remote_path("a", "/base/"), "/base/a");
}

#[test]
fn format_with_line_numbers_exact() {
    let formatted = format_with_line_numbers("a\r\nb\n", 9);
    assert_eq!(formatted, "    10\u{2192}a\n    11\u{2192}b");
}

#[test]
fn format_with_line_numbers_empty() {
    assert_eq!(format_with_line_numbers("", 0), "");
}

use ssh_hub::utils::checksum::{md5_hash, to_hex};
use ssh_hub::utils::path::validate_path_within;

#[test]
fn test_validate_path_within_traversal_rejected() {
    let dir = tempfile::tempdir().unwrap();
    let base = dir.path().canonicalize().unwrap();
    // A path that cannot be resolved is refused before the check; one that
    // resolves is refused by it.
    let result: Result<(), ()> = match dir.path().join("../../etc/passwd").canonicalize() {
        Ok(full) => validate_path_within(
            base.to_str().unwrap(),
            full.to_str().unwrap(),
            "../../etc/passwd",
        )
        .map(|_| ())
        .map_err(|_| ()),
        Err(_) => Err(()),
    };
    assert!(result.is_err());
}

#[test]
fn validate_path_components() {
    assert_eq!(validate_path_within("/a/b", "/a/b/c", "c").unwrap(), "/a/b/c");
    assert!(validate_path_within("/a/b", "/a/b", ".").is_ok());
    assert!(validate_path_within("/a/b", "/a/bc", "../bc").is_err());
    assert!(validate_path_within("/a/b", "/etc/hosts", "x").is_err());
    let e = validate_path_within("/a", "/b", "../b").unwrap_err();
    assert_eq!(e.message(), "Path traversal rejected: '../b' resolves outside base directory");
}

#[test]
fn md5_of_known_inputs() {
    assert_eq!(md5_hash(b""), "d41d8cd98f00b204e9800998ecf8427e");
    assert_eq!(md5_hash(b"abc"), "900150983cd24fb0d6963f7d28e17f72");
    assert_eq!(to_hex(&[0, 15, 16, 255]), "000f10ff");
}
