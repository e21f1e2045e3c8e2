use guse::config::{Config, ConfigError, ConfigFile, Profile, ProfileMap};

fn profile(name: &str, email: &str, ssh_host: &str) -> Profile {
    Profile { name: name.to_string(), email: email.to_string(), ssh_host: ssh_host.to_string() }
}

fn empty_store() -> Config {
    Config::new("profiles.toml".to_string(), Ok(ConfigFile::default()))
}

fn stored_profiles(config: &Config) -> ProfileMap {
    config.load_profiles().expect("store loaded")
}

#[test]
fn test_set_and_get_default_profile() {
    let mut config = empty_store();

    assert_eq!(config.get_default_profile(), None);

    let profile_name = "my_default".to_string();
    config.save_profiles(ProfileMap::new());

    config.set_default_profile(Some(profile_name.clone())).expect("Failed to set default profile");
    assert_eq!(config.get_default_profile(), Some(profile_name.clone()));

    config.set_default_profile(None).expect("Failed to unset default profile");
    assert_eq!(config.get_default_profile(), None);
}

#[test]
fn new_store_takes_default_from_loaded_file() {
    let config = Config::new(
        "profiles.toml".to_string(),
        Ok(ConfigFile { default_profile: Some("from_new_test".to_string()), profiles: ProfileMap::new() }),
    );
    assert_eq!(config.get_default_profile(), Some("from_new_test".to_string()));
    assert_eq!(config.get_current_default_profile_for_saving(), Some("from_new_test".to_string()));
}

#[test]
fn new_store_without_loaded_file_has_no_default() {
    let config = Config::new("profiles.toml".to_string(), Err(ConfigError::Parse("bad".to_string())));
    assert_eq!(config.get_default_profile(), None);
    match config.load_profiles() {
        Err(e) => assert_eq!(e.message(), "TOML Parsing Error: bad"),
        Ok(_) => panic!("an unloadable store has no profiles"),
    }
}

#[test]
fn add_profile_twice_overwrites() {
    let mut config = empty_store();
    config.add_profile("work".to_string(), profile("A", "a@x.com", "h1")).expect("first add");
    config.add_profile("work".to_string(), profile("B", "b@x.com", "h2")).expect("second add");
    let profiles = stored_profiles(&config);
    assert_eq!(profiles.len(), 1);
    let p = profiles.get("work").expect("kept");
    assert_eq!(p.name, "B");
    assert_eq!(p.email, "b@x.com");
    assert_eq!(p.ssh_host, "h2");
}

#[test]
fn update_missing_profile_fails_and_leaves_store() {
    let mut config = empty_store();
    config.add_profile("home".to_string(), profile("H", "h@x.com", "gh")).expect("add");
    let result = config.update_profile("nope", profile("N", "n@x.com", "gh"));
    match result {
        Err(ConfigError::NotFound(k)) => assert_eq!(k, "nope"),
        other => panic!("unexpected {:?}", other),
    }
    let profiles = stored_profiles(&config);
    assert_eq!(profiles.len(), 1);
    assert_eq!(profiles.get("home").expect("kept").name, "H");
    assert!(!profiles.contains_key("nope"));
}

#[test]
fn update_existing_profile_replaces_it() {
    let mut config = empty_store();
    config.add_profile("home".to_string(), profile("H", "h@x.com", "gh")).expect("add");
    config.update_profile("home", profile("H2", "h2@x.com", "gl")).expect("update");
    let profiles = stored_profiles(&config);
    assert_eq!(profiles.get("home").expect("kept").email, "h2@x.com");
}

#[test]
fn delete_profile_removes_it_or_reports_missing() {
    let mut config = empty_store();
    config.add_profile("a".to_string(), profile("A", "a@x.com", "h")).expect("add");
    config.add_profile("b".to_string(), profile("B", "b@x.com", "h")).expect("add");
    config.delete_profile("a").expect("delete");
    let profiles = stored_profiles(&config);
    assert_eq!(profiles.len(), 1);
    assert!(profiles.contains_key("b"));
    match config.delete_profile("a") {
        Err(ConfigError::NotFound(k)) => assert_eq!(k, "a"),
        other => panic!("unexpected {:?}", other),
    }
}

#[test]
fn saving_keeps_default_in_memory_with_profiles() {
    let mut config = empty_store();
    config.set_default_profile(Some("p1".to_string())).expect("set");
    config.add_profile("p1".to_string(), profile("P", "p@x.com", "h")).expect("add");
    match config.contents() {
        Ok(file) => {
            assert_eq!(file.default_profile, Some("p1".to_string()));
            assert!(file.profiles.contains_key("p1"));
        }
        Err(_) => panic!("contents expected"),
    }
}

#[test]
fn unset_default_leaves_no_default_to_write() {
    let mut config = Config::new(
        "profiles.toml".to_string(),
        Ok(ConfigFile { default_profile: Some("p1".to_string()), profiles: ProfileMap::new() }),
    );
    config.set_default_profile(None).expect("unset");
    match config.contents() {
        Ok(file) => assert_eq!(file.default_profile, None),
        Err(_) => panic!("contents expected"),
    }
}

#[test]
fn profile_map_keys_and_removal() {
    let mut m = ProfileMap::new();
    assert!(m.is_empty());
    m.insert("x".to_string(), profile("X", "x@x", "h"));
    m.insert("y".to_string(), profile("Y", "y@y", "h"));
    m.insert("x".to_string(), profile("X2", "x2@x", "h"));
    assert_eq!(m.len(), 2);
    let mut keys = m.keys();
    keys.sort();
    assert_eq!(keys, vec!["x".to_string(), "y".to_string()]);
    let removed = m.remove("x").expect("present");
    assert_eq!(removed.name, "X2");
    assert!(m.remove("x").is_none());
    assert_eq!(m.len(), 1);
}

#[test]
fn config_error_messages() {
    assert_eq!(ConfigError::NotFound("w".to_string()).message(), "Profile 'w' does not exist.");
    assert_eq!(ConfigError::Io("denied".to_string()).message(), "IO Error: denied");
    assert_eq!(ConfigError::Serialize("nan".to_string()).message(), "TOML Serialization Error: nan");
}
