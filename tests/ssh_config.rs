use guse::commands::{host_label, default_host_index, is_private_key_name, AddSshCommand, ListSshCommand};
use guse::ssh_config::{host_block, parse_ssh_config, SshHostEntry};

fn entry(alias: &str, hostname: &str, user: &str, port: &str, identity_file: &str) -> SshHostEntry {
    SshHostEntry {
        alias: alias.to_string(),
        hostname: hostname.to_string(),
        user: user.to_string(),
        port: port.to_string(),
        identity_file: identity_file.to_string(),
    }
}

fn fields(e: &SshHostEntry) -> (String, String, String, String, String) {
    (e.alias.clone(), e.hostname.clone(), e.user.clone(), e.port.clone(), e.identity_file.clone())
}

#[test]
fn parses_blocks_in_order() {
    let text = "# comment\nHost work\n  HostName github.com\n  User git\n  IdentityFile ~/.ssh/id_work\n\nHost home extra\n\tHostName gitlab.com\n\tPort 2222\n  Unknown value\n";
    let hosts = parse_ssh_config(text);
    assert_eq!(hosts.len(), 2);
    assert_eq!(fields(&hosts[0]), ("work".into(), "github.com".into(), "git".into(), "".into(), "~/.ssh/id_work".into()));
    assert_eq!(fields(&hosts[1]), ("home".into(), "gitlab.com".into(), "".into(), "2222".into(), "".into()));
}

#[test]
fn empty_text_has_no_hosts() {
    assert!(parse_ssh_config("").is_empty());
    assert!(parse_ssh_config("HostName orphan\nUser nobody\n").is_empty());
}

#[test]
fn keywords_are_case_sensitive_and_need_a_space() {
    let hosts = parse_ssh_config("host lower\nHost a\nhostname x\nHostName\nUser   u1   u2\r\n");
    assert_eq!(hosts.len(), 1);
    assert_eq!(fields(&hosts[0]), ("a".into(), "".into(), "u1".into(), "".into(), "".into()));
}

#[test]
fn written_block_reads_back() {
    let e = entry("myserver", "192.168.0.1", "ubuntu", "22", "~/.ssh/id_rsa");
    let block = host_block(&e);
    assert_eq!(block, "\nHost myserver\n    HostName 192.168.0.1\n    User ubuntu\n    Port 22\n    IdentityFile ~/.ssh/id_rsa\n");
    let back = parse_ssh_config(&block);
    assert_eq!(back.len(), 1);
    assert_eq!(fields(&back[0]), fields(&e));
}

#[test]
fn appended_block_keeps_earlier_hosts() {
    let existing = "Host a\n  HostName h1";
    let e = entry("b", "h2", "u", "2200", "~/.ssh/id_b");
    let text = format!("{}{}", existing, AddSshCommand.execute(&e));
    let hosts = ListSshCommand.execute(&text);
    assert_eq!(hosts.len(), 2);
    assert_eq!(fields(&hosts[0]), ("a".into(), "h1".into(), "".into(), "".into(), "".into()));
    assert_eq!(fields(&hosts[1]), fields(&e));
}

#[test]
fn host_labels_show_set_fields() {
    assert_eq!(host_label(&entry("w", "github.com", "git", "22", "")), "w (github.com) - User: git - Port: 22");
    assert_eq!(host_label(&entry("w", "", "", "", "")), "w");
    assert_eq!(host_label(&entry("w", "", "", "2222", "")), "w - Port: 2222");
}

#[test]
fn default_host_is_the_profiles_host() {
    let hosts = vec![entry("a", "", "", "", ""), entry("b", "", "", "", ""), entry("b", "x", "", "", "")];
    assert_eq!(default_host_index(&hosts, "b"), 1);
    assert_eq!(default_host_index(&hosts, "zzz"), 0);
    assert_eq!(default_host_index(&Vec::new(), "b"), 0);
}

#[test]
fn private_key_names() {
    assert!(is_private_key_name("id_rsa"));
    assert!(is_private_key_name("id_ed25519"));
    assert!(!is_private_key_name("id_rsa.pub"));
    assert!(!is_private_key_name("known_hosts"));
    assert!(!is_private_key_name("id"));
}

#[test]
fn block_with_unset_fields_reads_back() {
    let e = entry("bare", "", "", "", "");
    let back = parse_ssh_config(&host_block(&e));
    assert_eq!(back.len(), 1);
    assert_eq!(fields(&back[0]), fields(&e));
}

#[test]
fn every_parsed_entry_reads_back_after_writing() {
    let text = "Host a b\n  User  u\nHost c\n\tPort 22\n\tIdentityFile ~/.ssh/id_c\n";
    for e in parse_ssh_config(text) {
        let back = parse_ssh_config(&host_block(&e));
        assert_eq!(back.len(), 1);
        assert_eq!(fields(&back[0]), fields(&e));
    }
}
