use guse::commands::{SetDefaultCommand, UnsetDefaultCommand};
use guse::config::{Config, ConfigFile, Profile, ProfileMap};
use guse::error::GuseError;

fn store_with(profiles: ProfileMap, default_profile: Option<String>) -> Config {
    Config::new(
        "profiles.toml".to_string(),
        Ok(ConfigFile { default_profile, profiles }),
    )
}

#[test]
fn test_set_default_success() {
    let mut profiles = ProfileMap::new();
    profiles.insert(
        "work".to_string(),
        Profile {
            name: "Work User".to_string(),
            email: "work@example.com".to_string(),
            ssh_host: "github.com".to_string(),
        },
    );
    let mut config = store_with(profiles, None);

    let command = SetDefaultCommand { profile_name: "work".to_string() };

    let result = command.execute(&mut config);
    assert!(result.is_ok());
    assert_eq!(config.get_default_profile(), Some("work".to_string()));
    match config.contents() {
        Ok(file) => assert_eq!(file.default_profile, Some("work".to_string())),
        Err(_) => panic!("the store should hold contents to write"),
    }
}

#[test]
fn test_set_default_profile_not_found() {
    let profiles = ProfileMap::new();
    let mut config = store_with(profiles, None);

    let command = SetDefaultCommand { profile_name: "nonexistent".to_string() };

    let result = command.execute(&mut config);
    assert!(result.is_err());
    match result.err().unwrap() {
        GuseError::ConfigError(msg) => {
            assert!(msg.contains("Profile 'nonexistent' not found."));
        }
        _ => panic!("Expected ConfigError for profile not found"),
    }
    assert_eq!(config.get_default_profile(), None);
}

#[test]
fn unset_default_test_unset_default_success() {
    let mut config = store_with(ProfileMap::new(), Some("initial_dummy_default".to_string()));
    let command = UnsetDefaultCommand {};
    let result = command.execute(&mut config);

    assert!(result.is_ok(), "Expected Ok, got {:?}", result.err());
    assert_eq!(config.get_default_profile(), None, "Expected default_profile_set to be Some(None)");
    match config.contents() {
        Ok(file) => assert_eq!(file.default_profile, None),
        Err(_) => panic!("the store should hold contents to write"),
    }
}

#[test]
fn set_default_on_unloadable_store_reports_it() {
    let mut config = Config::new(
        "profiles.toml".to_string(),
        Err(guse::config::ConfigError::Parse("expected `=`".to_string())),
    );
    let command = SetDefaultCommand { profile_name: "work".to_string() };
    match command.execute(&mut config) {
        Err(GuseError::ConfigError(msg)) => {
            assert_eq!(msg, "TOML Parsing Error: expected `=`");
        }
        other => panic!("unexpected result {:?}", other),
    }
}
