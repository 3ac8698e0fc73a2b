use rback::catalog::DataSet;
use rback::endpoint::ZfsPath;
use rback::error::ZfsError;
use rback::props::{parse_props, props_command, Prop};

#[test]
fn reads_mounted_and_mountpoint() {
    let text = "pool/a\ttype\tfilesystem\t-\npool/a\tmounted\tyes\t-\npool/a\tmountpoint\t/a\tdefault\n";
    let ps = parse_props(text).unwrap();
    assert_eq!(ps.is_mounted(), Some(true));
    assert_eq!(ps.mountpoint(), Some("/a"));
}

#[test]
fn yes_no_and_missing() {
    let ps = parse_props("p\tmounted\tno\t-\n").unwrap();
    assert_eq!(ps.is_mounted(), Some(false));
    assert_eq!(ps.mountpoint(), None);
    let ps = parse_props("p\tmounted\t-\t-\n").unwrap();
    assert_eq!(ps.is_mounted(), None);
    let ps = parse_props("").unwrap();
    assert_eq!(ps.is_mounted(), None);
}

#[test]
fn first_of_repeated_property_wins() {
    let ps = parse_props("p\tmountpoint\t/one\t-\np\tmountpoint\t/two\t-\n").unwrap();
    assert_eq!(ps.mountpoint(), Some("/one"));
}

#[test]
fn short_property_line_is_malformed() {
    match parse_props("p\tmounted\tyes\n") {
        Err(ZfsError::MalformedOutput(line)) => assert_eq!(line, "p\tmounted\tyes"),
        other => panic!("unexpected: {:?}", other),
    }
}

#[test]
fn prop_new_builds_a_property() {
    let p = Prop::new("mounted", "yes", "-");
    let text = format!("{:?}", p);
    assert!(text.contains("mounted"));
}

#[test]
fn get_command_names_dataset_or_snapshot() {
    let place = ZfsPath::parse("tank");
    let ds = DataSet { name: "tank/a".to_owned(), snaps: vec![], mount: "/a".to_owned() };
    let c = props_command(&place, &ds, None);
    assert_eq!(c.args, vec!["get", "-Hp", "all", "tank/a"]);
    let c = props_command(&place, &ds, Some("s1"));
    assert_eq!(c.args, vec!["get", "-Hp", "all", "tank/a@s1"]);
}
