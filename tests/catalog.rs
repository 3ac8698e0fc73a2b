use rback::catalog::{parse_listing, DataSet, SnapBuilder};
use rback::error::ZfsError;

#[test]
fn listing_builds_datasets_in_order() {
    let text = "pool/a\t/mnt/a\npool/a@s1\t-\npool/a@s2\t-\npool/b\tnone\npool/b@x\t-\n";
    let sets = parse_listing(text).unwrap();
    assert_eq!(sets.len(), 2);
    assert_eq!(sets[0].name, "pool/a");
    assert_eq!(sets[0].mount, "/mnt/a");
    assert_eq!(sets[0].snaps, vec!["s1".to_string(), "s2".to_string()]);
    assert_eq!(sets[1].name, "pool/b");
    assert_eq!(sets[1].mount, "none");
    assert_eq!(sets[1].snaps, vec!["x".to_string()]);
}

#[test]
fn empty_listing_has_no_datasets() {
    assert!(parse_listing("").unwrap().is_empty());
}

#[test]
fn listing_without_final_newline_and_with_crlf() {
    let sets = parse_listing("pool\t/pool\r\npool@a\t-").unwrap();
    assert_eq!(sets.len(), 1);
    assert_eq!(sets[0].mount, "/pool");
    assert_eq!(sets[0].snaps, vec!["a".to_string()]);
}

#[test]
fn mountpoint_field_keeps_later_tabs() {
    let sets = parse_listing("pool\t/a\tb\n").unwrap();
    assert_eq!(sets[0].mount, "/a\tb");
}

#[test]
fn snapshot_before_volume_is_structural_violation() {
    match parse_listing("pool/a@s1\t-\npool/a\t/mnt\n") {
        Err(ZfsError::StructuralViolation(line)) => assert_eq!(line, "pool/a@s1\t-"),
        other => panic!("unexpected: {:?}", other),
    }
}

#[test]
fn snapshot_of_another_volume_is_structural_violation() {
    match parse_listing("pool/a\t/mnt\npool/b@s1\t-\n") {
        Err(ZfsError::StructuralViolation(line)) => assert_eq!(line, "pool/b@s1\t-"),
        other => panic!("unexpected: {:?}", other),
    }
}

#[test]
fn line_without_tab_is_malformed() {
    match parse_listing("pool/a\t/mnt\njunk\n") {
        Err(ZfsError::MalformedOutput(line)) => assert_eq!(line, "junk"),
        other => panic!("unexpected: {:?}", other),
    }
}

#[test]
fn builder_rejects_snapshot_without_volume() {
    let mut b = SnapBuilder::new();
    assert!(b.push_snap("pool", "s").is_err());
    b.push_volume("pool", "/pool");
    assert!(b.push_snap("other", "s").is_err());
    assert!(b.push_snap("pool", "s").is_ok());
    let sets: Vec<DataSet> = b.into_sets();
    assert_eq!(sets.len(), 1);
    assert_eq!(sets[0].snaps, vec!["s".to_string()]);
}
