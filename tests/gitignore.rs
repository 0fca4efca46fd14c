use ssh_hub::utils::gitignore::{glob_match, parse_line, GitIgnore};

// ── glob_match ──────────────────────────────────────────────────

#[test]
fn literal_match() {
    assert!(glob_match("foo", "foo"));
    assert!(!glob_match("foo", "bar"));
    assert!(!glob_match("foo", "foobar"));
    assert!(!glob_match("foobar", "foo"));
}

#[test]
fn star_matches_non_slash() {
    assert!(glob_match("*.pyc", "foo.pyc"));
    assert!(glob_match("*.pyc", ".pyc"));
    assert!(!glob_match("*.pyc", "dir/foo.pyc"));
    assert!(glob_match("foo*", "foobar"));
    assert!(glob_match("f*o", "foo"));
    assert!(glob_match("f*o", "fo"));
    assert!(glob_match("*", "anything"));
    assert!(!glob_match("*", "a/b"));
}

#[test]
fn double_star_matches_everything() {
    assert!(glob_match("**", "anything"));
    assert!(glob_match("**", "a/b/c"));
    assert!(glob_match("**/foo", "foo"));
    assert!(glob_match("**/foo", "a/foo"));
    assert!(glob_match("**/foo", "a/b/foo"));
    assert!(!glob_match("**/foo", "a/b/foobar"));
}

#[test]
fn double_star_mid_pattern() {
    assert!(glob_match("a/**/b", "a/b"));
    assert!(glob_match("a/**/b", "a/x/b"));
    assert!(glob_match("a/**/b", "a/x/y/b"));
    assert!(!glob_match("a/**/b", "a/x/y/c"));
}

#[test]
fn double_star_trailing() {
    assert!(glob_match("foo/**", "foo/bar"));
    assert!(glob_match("foo/**", "foo/bar/baz"));
    assert!(!glob_match("foo/**", "foo"));
}

#[test]
fn question_mark() {
    assert!(glob_match("fo?", "foo"));
    assert!(glob_match("fo?", "fox"));
    assert!(!glob_match("fo?", "fo"));
    assert!(!glob_match("fo?", "fo/"));
}

#[test]
fn trailing_stars_match_empty() {
    assert!(glob_match("foo*", "foo"));
    assert!(glob_match("foo**", "foo"));
}

// ── parse_line ──────────────────────────────────────────────────

#[test]
fn parse_skips_comments_and_blanks() {
    assert!(parse_line("").is_none());
    assert!(parse_line("  ").is_none());
    assert!(parse_line("# comment").is_none());
}

#[test]
fn parse_simple_pattern() {
    let rule = parse_line("node_modules").unwrap();
    assert_eq!(rule.pattern, "node_modules");
    assert!(!rule.negated);
    assert!(!rule.dir_only);
    assert!(!rule.anchored);
}

#[test]
fn parse_negated() {
    let rule = parse_line("!important.log").unwrap();
    assert_eq!(rule.pattern, "important.log");
    assert!(rule.negated);
}

#[test]
fn parse_dir_only() {
    let rule = parse_line("build/").unwrap();
    assert_eq!(rule.pattern, "build");
    assert!(rule.dir_only);
    assert!(!rule.anchored);
}

#[test]
fn parse_anchored_leading_slash() {
    let rule = parse_line("/build").unwrap();
    assert_eq!(rule.pattern, "build");
    assert!(rule.anchored);
}

#[test]
fn parse_anchored_contains_slash() {
    let rule = parse_line("src/generated").unwrap();
    assert_eq!(rule.pattern, "src/generated");
    assert!(rule.anchored);
}

// ── is_ignored ──────────────────────────────────────────────────

#[test]
fn simple_name_matches_anywhere() {
    let gi = GitIgnore {
        rules: vec![parse_line("node_modules").unwrap()],
    };
    assert!(gi.is_ignored("node_modules", true));
    assert!(gi.is_ignored("a/node_modules", true));
    assert!(gi.is_ignored("a/b/node_modules", true));
}

#[test]
fn extension_pattern_matches_any_level() {
    let gi = GitIgnore {
        rules: vec![parse_line("*.pyc").unwrap()],
    };
    assert!(gi.is_ignored("foo.pyc", false));
    assert!(gi.is_ignored("a/b/foo.pyc", false));
    assert!(!gi.is_ignored("foo.py", false));
}

#[test]
fn anchored_pattern_root_only() {
    let gi = GitIgnore {
        rules: vec![parse_line("/build").unwrap()],
    };
    assert!(gi.is_ignored("build", true));
    assert!(!gi.is_ignored("a/build", true));
}

#[test]
fn dir_only_skips_files() {
    let gi = GitIgnore {
        rules: vec![parse_line("build/").unwrap()],
    };
    assert!(gi.is_ignored("build", true));
    assert!(!gi.is_ignored("build", false));
}

#[test]
fn negation_overrides() {
    let gi = GitIgnore {
        rules: vec![
            parse_line("*.log").unwrap(),
            parse_line("!important.log").unwrap(),
        ],
    };
    assert!(gi.is_ignored("debug.log", false));
    assert!(!gi.is_ignored("important.log", false));
}

#[test]
fn double_star_in_gitignore() {
    let gi = GitIgnore {
        rules: vec![parse_line("**/logs").unwrap()],
    };
    assert!(gi.is_ignored("logs", true));
    assert!(gi.is_ignored("a/logs", true));
    assert!(gi.is_ignored("a/b/logs", true));
}

#[test]
fn anchored_path_pattern() {
    let gi = GitIgnore {
        rules: vec![parse_line("src/generated").unwrap()],
    };
    assert!(gi.is_ignored("src/generated", true));
    assert!(!gi.is_ignored("other/src/generated", true));
}

#[test]
fn empty_content_ignores_nothing() {
    let gi = GitIgnore::from_content("");
    assert!(!gi.is_ignored("anything", false));
}

#[test]
fn extend_patterns_adds_rules() {
    let mut gi = GitIgnore::default();
    gi.extend_patterns(&["*.log".to_string(), "tmp/".to_string()]);
    assert!(gi.is_ignored("debug.log", false));
    assert!(gi.is_ignored("tmp", true));
    assert!(!gi.is_ignored("tmp", false));
}
