use rback::catalog::parse_listing;
use rback::config::Host;
use rback::naming::{format_suffix, parse_index};
use rback::sudo::Sudo;
use rback::{RBack, ZFS};

fn back(prefix: &str) -> RBack {
    RBack {
        host: Host {
            host: "test-host".to_owned(),
            base: "arch/arch".to_owned(),
            snap_prefix: prefix.to_owned(),
        },
        dry_run: true,
    }
}

#[test]
fn parses_index_after_prefix() {
    assert_eq!(parse_index("aa2015-", "aa2015-00001-01-02"), Some(1));
    assert_eq!(parse_index("aa2015-", "aa2015-00042.12-31"), Some(42));
    assert_eq!(parse_index("aa2015-", "bb2015-00001-01-02"), None);
    assert_eq!(parse_index("aa2015-", "aa2015-00001"), None);
    assert_eq!(parse_index("aa2015-", "aa2015-00001-01x02"), None);
    assert_eq!(parse_index("aa2015-", "manual"), None);
}

#[test]
fn prefix_is_taken_literally() {
    assert_eq!(parse_index("a.b", "a.b7-01"), Some(7));
    assert_eq!(parse_index("a.b", "axb7-01"), None);
}

#[test]
fn index_too_large_for_u32_is_skipped() {
    assert_eq!(parse_index("p-", "p-4294967295-01-01"), Some(4294967295));
    assert_eq!(parse_index("p-", "p-4294967296-01-01"), None);
}

#[test]
fn formats_zero_padded_suffix() {
    assert_eq!(format_suffix("aa2015-", 3, 1, 4), "aa2015-00003-01-04");
    assert_eq!(format_suffix("p-", 123456, 12, 31), "p-123456-12-31");
}

#[test]
fn format_then_parse_round_trips() {
    for n in [0u32, 1, 9, 10, 99999, 100000, u32::MAX] {
        let s = format_suffix("host-", n, 7, 9);
        assert_eq!(parse_index("host-", &s), Some(n));
    }
}

#[test]
fn next_snap_is_one_past_highest() {
    let b = back("aa2015-");
    let zfs = ZFS::new(&b);
    let sets = parse_listing(
        "arch/arch\t/arch\narch/arch@aa2015-00007-01-02\t-\narch/arch@manual\t-\n\
         arch/arch/home\t/home\narch/arch/home@aa2015-00012-01-03\t-\n",
    )
    .unwrap();
    assert_eq!(zfs.next_snap(&sets), Some(13));
}

#[test]
fn next_snap_is_one_without_indexed_snapshots() {
    let b = back("aa2015-");
    let zfs = ZFS::new(&b);
    let sets = parse_listing("arch/arch\t/arch\narch/arch@manual\t-\n").unwrap();
    assert_eq!(zfs.next_snap(&sets), Some(1));
    assert_eq!(zfs.next_snap(&[]), Some(1));
}

#[test]
fn next_snap_has_none_past_u32_max() {
    let b = back("p-");
    let zfs = ZFS::new(&b);
    let sets = parse_listing("pool\t/p\npool@p-4294967295-01-01\t-\n").unwrap();
    assert_eq!(zfs.next_snap(&sets), None);
}

#[test]
fn test_snaps() {
    let b = RBack {
        host: Host {
            host: "test-host".to_owned(),
            base: "arch/arch".to_owned(),
            snap_prefix: "aa2015-".to_owned(),
        },
        dry_run: false,
    };
    let zfs = ZFS::new(&b);
    let snaps = parse_listing("a64/arch\t/a64\na64/arch@aa2015-00004-02-01\t-\n").unwrap();
    println!("next: {:?}", zfs.next_snap(&snaps));
    assert_eq!(zfs.next_snap(&snaps), Some(5));
}

#[test]
fn dry_run_snapshot_takes_next_index() {
    let b = back("aa2015-");
    let zfs = ZFS::new(&b);
    let sets = parse_listing(
        "arch/arch\t/arch\narch/arch@aa2015-00001-01-02\t-\narch/arch@aa2015-00002-01-03\t-\n",
    )
    .unwrap();
    let cmd = zfs
        .take_snapshot_command(&Sudo::NoSudo, &sets, 1, 4)
        .unwrap();
    assert_eq!(cmd.program, "zfs");
    assert_eq!(
        cmd.args,
        vec!["snapshot".to_string(), "-r".to_string(), "arch/arch@aa2015-00003-01-04".to_string()]
    );
    let elevated = zfs.take_snapshot_command(&Sudo::Sudo, &sets, 1, 4).unwrap();
    assert_eq!(elevated.program, "sudo");
    assert_eq!(elevated.args[0], "zfs");
}
