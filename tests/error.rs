use guse::config::ConfigError;
use guse::error::GuseError;
use guse::git::GitError;
use guse::utils::{validate_email, validate_ssh_host};

#[test]
fn test_guse_error_display_messages() {
    let guse_error = GuseError::IoError("file not found".to_string());
    assert!(guse_error.message().contains("IO Error:"));
    assert!(guse_error.message().contains("file not found"));

    let validation_error = GuseError::ValidationError("invalid email".to_string());
    assert_eq!(validation_error.message(), "Validation Error: invalid email");

    let git_error = GuseError::GitError("commit failed".to_string());
    assert_eq!(git_error.message(), "Git Command Error: commit failed");

    let config_error = GuseError::ConfigError("missing profile".to_string());
    assert_eq!(config_error.message(), "Configuration Error: missing profile");
}

#[test]
fn test_error_is_send_sync() {
    fn assert_send_sync<T: Send + Sync>() {}
    assert_send_sync::<GuseError>();
}

#[test]
fn errors_convert_with_their_text() {
    let e = GuseError::from_config_error(ConfigError::NotFound("work".to_string()));
    assert_eq!(e.message(), "Configuration Error: Profile 'work' does not exist.");
    let g = GuseError::from_git_error(GitError("fatal: no remote".to_string()));
    assert_eq!(g.message(), "Git Command Error: fatal: no remote");
    assert_eq!(GuseError::TomlError("x".to_string()).message(), "TOML Parsing Error: x");
    assert_eq!(GuseError::DialoguerError("y".to_string()).message(), "Interactive Input Error: y");
}

#[test]
fn email_must_hold_at_sign() {
    assert!(validate_email("user@example.com").is_ok());
    match validate_email("user.example.com") {
        Err(GuseError::ValidationError(m)) => assert_eq!(m, "Email address must contain '@' character."),
        other => panic!("unexpected {:?}", other),
    }
}

#[test]
fn ssh_host_must_not_be_empty() {
    assert!(validate_ssh_host("github-work").is_ok());
    match validate_ssh_host("") {
        Err(GuseError::ValidationError(m)) => assert_eq!(m, "SSH host cannot be empty."),
        other => panic!("unexpected {:?}", other),
    }
}

#[test]
fn failed_pattern_is_reported() {
    let r = guse::utils::check_email("a@b", Err("regex parse error".to_string()));
    match r {
        Err(GuseError::ValidationError(m)) => assert_eq!(m, "regex parse error"),
        other => panic!("unexpected {:?}", other),
    }
    assert!(guse::utils::check_email("a@b", Ok(())).is_ok());
    assert!(guse::utils::check_email("ab", Ok(())).is_err());
}
