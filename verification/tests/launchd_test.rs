use ssh_agent_router::launchd::{
    contains, generate_plist, is_service_missing, join, plist_path, status, LABEL,
};
use ssh_agent_router::text::{chars_of, is_space_char};
use std::path::PathBuf;

#[test]
fn plist_path_lies_under_the_launch_agents() {
    assert_eq!(
        plist_path("/Users/me"),
        "/Users/me/Library/LaunchAgents/com.github.kawaz.ssh-agent-router.plist"
    );
    assert_eq!(
        plist_path("/Users/me/"),
        "/Users/me/Library/LaunchAgents/com.github.kawaz.ssh-agent-router.plist"
    );
    assert_eq!(plist_path(""), "Library/LaunchAgents/com.github.kawaz.ssh-agent-router.plist");
}

#[test]
fn join_agrees_with_the_standard_library() {
    for dir in ["", "/", "/a", "/a/", "a/b", "rel/"] {
        for name in ["x", "x/y.plist", "Library/LaunchAgents"] {
            assert_eq!(PathBuf::from(join(dir, name)), PathBuf::from(dir).join(name));
        }
    }
    assert_eq!(join("/a", "b"), "/a/b");
    assert_eq!(join("/a/", "b"), "/a/b");
    assert_eq!(join("", "b"), "b");
}

#[test]
fn generate_plist_fills_in_both_paths() {
    let expected = format!(
        r#"<?xml version="1.0" encoding="UTF-8"?>
<!DOCTYPE plist PUBLIC "-//Apple//DTD PLIST 1.0//EN" "http://www.apple.com/DTDs/PropertyList-1.0.dtd">
<plist version="1.0">
<dict>
    <key>Label</key>
    <string>{label}</string>
    <key>ProgramArguments</key>
    <array>
        <string>{exe_path}</string>
    </array>
    <key>RunAtLoad</key>
    <true/>
    <key>KeepAlive</key>
    <true/>
    <key>StandardOutPath</key>
    <string>/tmp/ssh-agent-router.log</string>
    <key>StandardErrorPath</key>
    <string>/tmp/ssh-agent-router.err</string>
    <key>EnvironmentVariables</key>
    <dict>
        <key>SSH_AUTH_SOCK</key>
        <string>/tmp/ssh-agent.sock</string>
    </dict>
    <key>WatchPaths</key>
    <array>
        <string>{config_path}</string>
    </array>
</dict>
</plist>
"#,
        label = "com.github.kawaz.ssh-agent-router",
        exe_path = "/usr/local/bin/ssh-agent-router",
        config_path = "/Users/me/Library/Application Support/ssh-agent-router/config.toml"
    );
    assert_eq!(LABEL, "com.github.kawaz.ssh-agent-router");
    assert_eq!(
        generate_plist(
            "/usr/local/bin/ssh-agent-router",
            "/Users/me/Library/Application Support/ssh-agent-router/config.toml"
        ),
        expected
    );
}

#[test]
fn status_reads_the_listing() {
    assert_eq!(status(false, None), "Not registered");
    assert_eq!(status(false, Some("123\t0\tlabel")), "Not registered");
    assert_eq!(status(true, None), "Registered (not loaded)");
    assert_eq!(status(true, Some("")), "Registered");
    assert_eq!(status(true, Some("-\t0\tcom.github.kawaz.ssh-agent-router\n")), "Registered (not running)");
    assert_eq!(status(true, Some(" - \t0\tlabel")), "Registered (not running)");
    assert_eq!(status(true, Some("4711\t0\tlabel\n-\t0\tother")), "Running (PID: 4711)");
    assert_eq!(status(true, Some(" 12 \r\nrest")), "Running (PID: 12)");
    assert_eq!(status(true, Some("\nsecond")), "Running (PID: )");
    assert_eq!(status(true, Some("--\t")), "Running (PID: --)");
}

#[test]
fn contains_finds_the_pattern_anywhere() {
    assert!(contains("abc", ""));
    assert!(contains("", ""));
    assert!(!contains("", "a"));
    assert!(contains("abcabd", "abd"));
    assert!(contains("abcabd", "abc"));
    assert!(!contains("abcabd", "abe"));
    assert!(!contains("ab", "abc"));
    assert!(contains("päö", "äö"));
    assert!(is_service_missing("launchctl: Could not find specified service\n"));
    assert!(!is_service_missing("Could not find specified Service"));
}

#[test]
fn white_space_agrees_with_the_standard_library() {
    for code in 0u32..0x3100 {
        if let Some(c) = char::from_u32(code) {
            assert_eq!(is_space_char(c), c.is_whitespace(), "U+{:04X}", code);
        }
    }
    assert!(!is_space_char('\u{10ffff}'));
    assert_eq!(chars_of("aé\u{3000}z"), vec!['a', 'é', '\u{3000}', 'z']);
}
