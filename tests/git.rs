use guse::git::{Git, GitError};

fn parts(url: &str) -> Option<(String, String)> {
    Git::new().parse_origin_url(url).ok()
}

#[test]
fn origin_ssh_form() {
    assert_eq!(parts("git@github.com:alice/repo.git"), Some(("alice".to_string(), "repo".to_string())));
    assert_eq!(parts("git@github.com:alice/repo"), Some(("alice".to_string(), "repo".to_string())));
    assert_eq!(parts("git@github.com:alice/repo/extra"), Some(("alice".to_string(), "repo".to_string())));
}

#[test]
fn origin_https_form() {
    assert_eq!(
        parts("https://github.com/alice/repo.git"),
        Some(("alice".to_string(), "repo".to_string()))
    );
    assert_eq!(
        parts("https://gitlab.com/group/sub/proj"),
        Some(("sub".to_string(), "proj".to_string()))
    );
}

#[test]
fn origin_unreadable_forms() {
    assert!(parts("").is_none());
    assert!(parts("ftp://x/y").is_none());
    assert!(parts("git@github.com:alice").is_none());
    assert!(parts("git@github.com:a:b/c").is_none());
    assert!(parts("ssh://git@github.com/alice/repo.git").is_none());
    assert!(Git::new().parse_origin_url("http://github.com/alice/repo").is_err());
}

#[test]
fn remote_url_round_trips_through_origin_reader() {
    let mut git = Git::new();
    let url = git.set_remote("github-work", "alice", "repo");
    assert_eq!(url, "git@github-work:alice/repo.git");
    assert_eq!(parts(&url), Some(("alice".to_string(), "repo".to_string())));
}

#[test]
fn current_config_from_git_outputs() {
    let git = Git::new();
    let c = git
        .get_current_config(Ok("Ann".to_string()), Ok("ann@x.com".to_string()), Err(GitError("no origin".to_string())))
        .expect("name and email present");
    assert_eq!(c.user_name, "Ann");
    assert_eq!(c.user_email, "ann@x.com");
    assert_eq!(c.remote_url, "");
    let c2 = git
        .get_current_config(Ok("Ann".to_string()), Ok("ann@x.com".to_string()), Ok("git@h:a/b.git".to_string()))
        .expect("ok");
    assert_eq!(c2.remote_url, "git@h:a/b.git");
    let e = git
        .get_current_config(Ok("Ann".to_string()), Err(GitError("no email".to_string())), Ok(String::new()))
        .err()
        .expect("email missing");
    assert_eq!(e.0, "no email");
}

#[test]
fn set_config_records_identity() {
    let mut git = Git::new();
    git.set_config("Ann", "ann@x.com");
    let _ = git.set_remote("h", "u", "r");
}
