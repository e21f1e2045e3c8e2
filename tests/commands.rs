use guse::commands::{
    resolve_profile, AddCommand, DeleteCommand, ListCommand, ProfileChoice, RemotePlan, ShowCommand,
    SwitchCommand, Target, UpdateCommand,
};
use guse::config::{Config, ConfigFile, Profile, ProfileMap};
use guse::error::GuseError;
use guse::git::{GitConfig, GitError};

fn profile(name: &str, email: &str, ssh_host: &str) -> Profile {
    Profile { name: name.to_string(), email: email.to_string(), ssh_host: ssh_host.to_string() }
}

fn two_profiles() -> ProfileMap {
    let mut m = ProfileMap::new();
    m.insert("p1".to_string(), profile("One", "one@x.com", "github-one"));
    m.insert("p2".to_string(), profile("Two", "two@x.com", ""));
    m
}

fn store(default_profile: Option<&str>) -> Config {
    Config::new(
        "profiles.toml".to_string(),
        Ok(ConfigFile { default_profile: default_profile.map(|d| d.to_string()), profiles: two_profiles() }),
    )
}

#[test]
fn switch_without_argument_takes_the_default() {
    let config = store(Some("p1"));
    match (SwitchCommand { profile: None }).execute(&config) {
        Ok(ProfileChoice::Default(k)) => assert_eq!(k, "p1"),
        other => panic!("unexpected {:?}", other),
    }
}

#[test]
fn switch_argument_wins_over_default() {
    let config = store(Some("p1"));
    match (SwitchCommand { profile: Some("p2".to_string()) }).execute(&config) {
        Ok(ProfileChoice::Explicit(k)) => assert_eq!(k, "p2"),
        other => panic!("unexpected {:?}", other),
    }
    match (SwitchCommand { profile: Some("p9".to_string()) }).execute(&config) {
        Ok(ProfileChoice::NotFound(k)) => assert_eq!(k, "p9"),
        other => panic!("unexpected {:?}", other),
    }
}

#[test]
fn switch_prompts_without_usable_default() {
    match resolve_profile(&None, &None, &two_profiles()) {
        ProfileChoice::Interactive(None) => {}
        other => panic!("unexpected {:?}", other),
    }
    match resolve_profile(&None, &Some("gone".to_string()), &two_profiles()) {
        ProfileChoice::Interactive(Some(d)) => assert_eq!(d, "gone"),
        other => panic!("unexpected {:?}", other),
    }
    match resolve_profile(&Some("p1".to_string()), &None, &ProfileMap::new()) {
        ProfileChoice::NoProfiles => {}
        other => panic!("unexpected {:?}", other),
    }
}

#[test]
fn remote_plan_follows_ssh_host_and_origin() {
    let origin = || Ok::<_, GitError>(("alice".to_string(), "repo".to_string()));
    match SwitchCommand::perform_switch(&profile("One", "one@x.com", "github-one"), origin()) {
        RemotePlan::SetRemote { host, user, repo } => {
            assert_eq!((host.as_str(), user.as_str(), repo.as_str()), ("github-one", "alice", "repo"))
        }
        other => panic!("unexpected {:?}", other),
    }
    match SwitchCommand::perform_switch(&profile("Two", "two@x.com", ""), origin()) {
        RemotePlan::KeepRemote { user, repo } => assert_eq!((user.as_str(), repo.as_str()), ("alice", "repo")),
        other => panic!("unexpected {:?}", other),
    }
    match SwitchCommand::perform_switch(&profile("One", "one@x.com", "h"), Err(GitError("none".to_string()))) {
        RemotePlan::NoOrigin => {}
        other => panic!("unexpected {:?}", other),
    }
}

#[test]
fn list_gives_every_profile_once() {
    let config = store(None);
    let mut items = ListCommand.execute(&config).expect("loaded");
    items.sort_by(|a, b| a.0.cmp(&b.0));
    assert_eq!(items.len(), 2);
    assert_eq!(items[0].0, "p1");
    assert_eq!(items[0].1.email, "one@x.com");
    assert_eq!(items[1].0, "p2");
}

#[test]
fn delete_and_update_targets() {
    let config = store(None);
    match (DeleteCommand { profile: Some("p2".to_string()) }).target(&config) {
        Ok(Target::Named(k)) => assert_eq!(k, "p2"),
        other => panic!("unexpected {:?}", other),
    }
    match (UpdateCommand { profile: Some("zz".to_string()) }).target(&config) {
        Ok(Target::NotFound(k)) => assert_eq!(k, "zz"),
        other => panic!("unexpected {:?}", other),
    }
    match (UpdateCommand { profile: None }).target(&config) {
        Ok(Target::Choose) => {}
        other => panic!("unexpected {:?}", other),
    }
    let empty = Config::new("p".to_string(), Ok(ConfigFile::default()));
    match (DeleteCommand { profile: None }).target(&empty) {
        Ok(Target::NoProfiles) => {}
        other => panic!("unexpected {:?}", other),
    }
}

#[test]
fn delete_command_removes_profile() {
    let mut config = store(None);
    (DeleteCommand { profile: Some("p1".to_string()) }).execute(&mut config, "p1").expect("deleted");
    let left = config.load_profiles().expect("loaded");
    assert!(!left.contains_key("p1"));
    assert!(left.contains_key("p2"));
}

#[test]
fn add_command_checks_then_stores() {
    let mut config = store(None);
    let cmd = AddCommand { profile: "p_new".to_string() };
    match cmd.execute(&mut config, profile("Three", "three.x.com", "h")) {
        Err(GuseError::ValidationError(_)) => {}
        other => panic!("unexpected {:?}", other),
    }
    match cmd.execute(&mut config, profile("Three", "three@x.com", "")) {
        Err(GuseError::ValidationError(m)) => assert_eq!(m, "SSH host cannot be empty."),
        other => panic!("unexpected {:?}", other),
    }
    assert!(!config.load_profiles().expect("loaded").contains_key("p_new"));
    cmd.execute(&mut config, profile("Three", "three@x.com", "h")).expect("added");
    assert_eq!(config.load_profiles().expect("loaded").get("p_new").expect("there").name, "Three");
}

#[test]
fn update_command_reports_missing_profile() {
    let mut config = store(None);
    let cmd = UpdateCommand { profile: None };
    match cmd.execute(&mut config, "nope", profile("N", "n@x.com", "h")) {
        Err(GuseError::ConfigError(m)) => assert_eq!(m, "Profile 'nope' does not exist."),
        other => panic!("unexpected {:?}", other),
    }
    cmd.execute(&mut config, "p2", profile("Two", "two@y.com", "h2")).expect("updated");
    assert_eq!(config.load_profiles().expect("loaded").get("p2").expect("there").email, "two@y.com");
}

#[test]
fn show_matches_current_identity() {
    let profiles = two_profiles();
    let current = GitConfig {
        user_name: "Two".to_string(),
        user_email: "two@x.com".to_string(),
        remote_url: String::new(),
    };
    assert_eq!(ShowCommand::matched_profile(&profiles, &current), Some(Some("p2".to_string())));
    let other = GitConfig { user_name: "Two".to_string(), user_email: "else@x.com".to_string(), remote_url: String::new() };
    assert_eq!(ShowCommand::matched_profile(&profiles, &other), Some(None));
    let blank = GitConfig { user_name: String::new(), user_email: String::new(), remote_url: String::new() };
    assert_eq!(ShowCommand::matched_profile(&profiles, &blank), None);
}
