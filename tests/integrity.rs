use rback::catalog::{parse_listing, DataSet};
use rback::integrity::{get_nonsure_snaps, plan_chain, snapshot_dirs, store_name, str_ends_with, sure_files};

fn ds() -> DataSet {
    DataSet {
        name: "arch/arch/home".to_owned(),
        snaps: vec!["a1".to_owned(), "a2".to_owned(), "a3".to_owned()],
        mount: "/home".to_owned(),
    }
}

#[test]
fn manifest_stores_and_base_are_left_out() {
    let sets = parse_listing(
        "arch/arch\t/arch\narch/arch/home\t/home\narch/arch/sure\t/s\narch/arch/bksure\t/b\narch/arch/root\t/\n",
    )
    .unwrap();
    let kept = get_nonsure_snaps("arch/arch", sets);
    let names: Vec<&str> = kept.iter().map(|d| d.name.as_str()).collect();
    assert_eq!(names, vec!["arch/arch/home", "arch/arch/root"]);
}

#[test]
fn ends_with_suffix() {
    assert!(str_ends_with("a/sure", "/sure"));
    assert!(!str_ends_with("a/surely", "/sure"));
    assert!(!str_ends_with("ure", "/sure"));
}

#[test]
fn manifest_names_and_dirs() {
    let d = ds();
    let files = sure_files("arch/arch", &d).unwrap();
    assert_eq!(files[0], "/arch/arch/sure/home-a1.dat.gz");
    assert_eq!(files.len(), 3);
    let dirs = snapshot_dirs(&d);
    assert_eq!(dirs[2], "/home/.zfs/snapshot/a3");
    assert_eq!(store_name("arch/arch", &d).unwrap(), "home.dat");
    assert!(sure_files("other", &d).is_none());
    assert!(store_name("other", &d).is_none());
}

#[test]
fn chain_updates_from_previous_manifest() {
    let d = ds();
    let files = sure_files("arch/arch", &d).unwrap();
    let dirs = snapshot_dirs(&d);
    let jobs = plan_chain(&dirs, &files, &vec![true, false, false]);
    assert_eq!(jobs.len(), 2);
    assert_eq!(jobs[0].old.as_deref(), Some("/arch/arch/sure/home-a1.dat.gz"));
    assert_eq!(jobs[0].name, "/arch/arch/sure/home-a2.dat.gz");
    assert_eq!(jobs[0].dir, "/home/.zfs/snapshot/a2");
    assert_eq!(jobs[1].old.as_deref(), Some("/arch/arch/sure/home-a2.dat.gz"));
    let jobs = plan_chain(&dirs, &files, &vec![false, true, true]);
    assert_eq!(jobs.len(), 1);
    assert!(jobs[0].old.is_none());
}
