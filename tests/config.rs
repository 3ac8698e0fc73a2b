use rback::config::{ConfigError, ConfigFile, Host};

fn host(name: &str, base: &str) -> Host {
    Host { host: name.to_owned(), base: base.to_owned(), snap_prefix: "x-".to_owned() }
}

#[test]
fn lookup_finds_first_matching_host() {
    let cfg = ConfigFile(vec![host("a", "p/a"), host("b", "p/b"), host("b", "p/c")]);
    assert_eq!(cfg.lookup("b").unwrap().base, "p/b");
}

#[test]
fn lookup_of_unknown_host_fails() {
    let cfg = ConfigFile(vec![host("a", "p/a")]);
    match cfg.lookup("z") {
        Err(ConfigError::UnknownHost(h)) => assert_eq!(h, "z"),
        other => panic!("unexpected: {:?}", other),
    }
}

#[test]
fn parses_host_entries_in_key_order() {
    let text = "[b]\nhost = \"beta\"\nbase = \"tank/b\"\nsnap_prefix = \"b-\"\n\n[a]\nhost = \"alpha\"\nbase = \"tank/a\"\nsnap_prefix = \"a-\"\nextra = 3\n";
    let cfg = ConfigFile::parse(text).unwrap();
    assert_eq!(cfg.0.len(), 2);
    assert_eq!(cfg.0[0].host, "alpha");
    assert_eq!(cfg.0[0].base, "tank/a");
    assert_eq!(cfg.0[0].snap_prefix, "a-");
    assert_eq!(cfg.0[1].host, "beta");
    assert_eq!(cfg.lookup("beta").unwrap().base, "tank/b");
}

#[test]
fn entry_missing_a_field_is_refused() {
    let text = "[a]\nhost = \"alpha\"\nbase = \"tank/a\"\n";
    assert!(matches!(ConfigFile::parse(text), Err(ConfigError::Parse(_))));
    let text = "[a]\nhost = \"alpha\"\nbase = \"tank/a\"\nsnap_prefix = 7\n";
    assert!(matches!(ConfigFile::parse(text), Err(ConfigError::Parse(_))));
    assert!(matches!(ConfigFile::parse("top = 1\n"), Err(ConfigError::Parse(_))));
}

#[test]
fn bad_toml_is_refused() {
    assert!(matches!(ConfigFile::parse("[a\nhost ="), Err(ConfigError::Parse(_))));
    assert!(ConfigFile::parse("").unwrap().0.is_empty());
}

#[test]
fn entries_read_from_plain_values() {
    let entries = vec![Some(vec![
        ("host".to_owned(), Some("h".to_owned())),
        ("base".to_owned(), Some("b".to_owned())),
        ("snap_prefix".to_owned(), Some("p-".to_owned())),
    ])];
    let cfg = ConfigFile::from_entries(&entries).unwrap();
    assert_eq!(cfg.0[0].snap_prefix, "p-");
    assert!(matches!(ConfigFile::from_entries(&vec![None]), Err(ConfigError::Parse(_))));
}
