use agent_terminal::default_shell_for;

#[test]
fn test_default_shell_returns_non_empty() {
    let shell = default_shell_for("linux");
    assert!(!shell.is_empty());
    assert!(shell.starts_with('/'));
}

#[test]
fn test_default_shell_is_valid_path() {
    let shell = default_shell_for("linux");
    assert!(shell.contains('/'));
    assert!(shell.starts_with("/bin/"));
}

#[test]
fn test_default_shell_platform_specific() {
    for os in ["macos", "linux", "freebsd"] {
        let shell = default_shell_for(os);
        assert!(shell.starts_with('/'), "Shell path should be absolute");
        assert!(shell.contains('/'), "Shell path should contain directory separator");
    }
    assert_eq!(default_shell_for("macos"), "/bin/zsh", "macOS should default to zsh");
    assert_eq!(default_shell_for("linux"), "/bin/bash", "Linux should default to bash");
}

#[test]
fn test_default_shell_not_empty() {
    let shell = default_shell_for("linux");
    assert!(!shell.is_empty(), "Default shell should not be empty");
}

#[test]
fn test_shell_path_variations() {
    let valid_shells = [
        "/bin/zsh",
        "/bin/bash",
        "/bin/sh",
        "/usr/bin/zsh",
        "/usr/bin/bash",
        "/usr/local/bin/zsh",
    ];
    for shell in &valid_shells {
        assert!(shell.starts_with('/'), "Shell path must be absolute: {}", shell);
        assert!(!shell.contains(' '), "Shell path should not contain spaces: {}", shell);
    }
    for os in ["macos", "linux", "netbsd", ""] {
        let shell = default_shell_for(os);
        assert!(valid_shells.contains(&shell.as_str()));
    }
}

#[test]
fn test_default_shell_consistency() {
    let shell1 = default_shell_for("linux");
    let shell2 = default_shell_for("linux");
    assert_eq!(shell1, shell2, "default_shell should be consistent");
}

#[test]
fn other_systems_fall_back_to_sh() {
    assert_eq!(default_shell_for("freebsd"), "/bin/sh");
    assert_eq!(default_shell_for("Linux"), "/bin/sh");
    assert_eq!(default_shell_for(""), "/bin/sh");
}
