use ssh_hub::tools::remote_bash::detect_background_pattern;

// --- nohup detection ---

#[test]
fn detects_nohup_prefix() {
    assert_eq!(
        detect_background_pattern("nohup python3 train.py &"),
        Some("nohup")
    );
}

#[test]
fn detects_nohup_with_redirects() {
    assert_eq!(
        detect_background_pattern("nohup sh -c 'cmd' > /tmp/log 2>&1 < /dev/null & echo $!"),
        Some("nohup")
    );
}

#[test]
fn detects_nohup_mid_command() {
    assert_eq!(
        detect_background_pattern("cd /tmp && nohup python3 train.py &"),
        Some("nohup")
    );
}

// --- setsid detection ---

#[test]
fn detects_setsid_prefix() {
    assert_eq!(
        detect_background_pattern("setsid python3 train.py > /tmp/log 2>&1 &"),
        Some("setsid")
    );
}

#[test]
fn detects_setsid_mid_command() {
    assert_eq!(
        detect_background_pattern("cd /work && setsid sh -c 'train' &"),
        Some("setsid")
    );
}

// --- trailing & detection ---

#[test]
fn detects_trailing_ampersand() {
    assert_eq!(
        detect_background_pattern("python3 train.py > /tmp/log 2>&1 &"),
        Some("trailing &")
    );
}

#[test]
fn detects_ampersand_with_echo_pid() {
    assert_eq!(
        detect_background_pattern("sleep 60 & echo $!"),
        Some("trailing &")
    );
}

#[test]
fn detects_ampersand_with_disown() {
    assert_eq!(
        detect_background_pattern("cmd & disown"),
        Some("trailing &")
    );
}

// --- normal commands (no false positives) ---

#[test]
fn allows_simple_commands() {
    assert_eq!(detect_background_pattern("echo hello"), None);
    assert_eq!(detect_background_pattern("ls -la"), None);
    assert_eq!(detect_background_pattern("python3 train.py"), None);
}

#[test]
fn allows_double_ampersand() {
    assert_eq!(detect_background_pattern("ls -la && echo done"), None);
    assert_eq!(
        detect_background_pattern("cd /tmp && python3 train.py"),
        None
    );
}

#[test]
fn allows_nohup_in_non_command_position() {
    // Reading a file called nohup.out, grep for "nohup" in logs, etc.
    assert_eq!(detect_background_pattern("cat /tmp/nohup.out"), None);
    assert_eq!(detect_background_pattern("grep nohup logfile"), None);
}

use ssh_hub::tools::remote_bash::{
    background_command, build_output_summary, foreground_timeout, truncate_inline,
};

#[test]
fn timeout_defaults_and_cap() {
    assert_eq!(foreground_timeout(None), 120_000);
    assert_eq!(foreground_timeout(Some(5)), 5);
    assert_eq!(foreground_timeout(Some(700_000)), 600_000);
}

#[test]
fn background_launch_text() {
    assert_eq!(
        background_command("sleep 1", "/tmp/l.log"),
        "if command -v setsid >/dev/null 2>&1; then setsid sh -c 'sleep 1' > '/tmp/l.log' 2>&1 < /dev/null & else nohup sh -c 'sleep 1' > '/tmp/l.log' 2>&1 < /dev/null & fi; echo $!"
    );
}

#[test]
fn summary_of_few_long_lines() {
    let s = build_output_summary("ab\ncd", "/tmp/o.log");
    assert_eq!(
        s,
        "[Output too large for context (0 KB, 2 lines)]\nFull output saved to: /tmp/o.log\n\nab\ncd"
    );
}

#[test]
fn summary_of_many_lines() {
    let text: String = (1..=250).map(|i| format!("line{i}\n")).collect();
    let s = build_output_summary(&text, "/p");
    assert!(s.contains(", 250 lines)]"));
    assert!(s.contains("--- First 150 lines ---\nline1\n"));
    assert!(s.contains("line150\n\n... (50 lines omitted) ..."));
    assert!(s.contains("--- Last 50 lines ---\nline201\n"));
    assert!(!s.contains("line151\n"));
    assert!(s.ends_with("line250\n"));
    let big = "x".repeat(1_250_000);
    assert!(build_output_summary(&big, "/p").starts_with("[Output too large for context (1.2 MB, 1 lines)]"));
}

#[test]
fn truncation_keeps_char_boundary() {
    let short = truncate_inline("abc");
    assert_eq!(short, "abc\n\n[Output truncated \u{2014} failed to save to disk]");
    let mut long = "a".repeat(131_071);
    long.push('\u{e9}');
    let cut = truncate_inline(&long);
    assert!(cut.starts_with(&"a".repeat(131_071)));
    assert!(!cut.contains('\u{e9}'));
}
