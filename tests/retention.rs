use rback::catalog::DataSet;
use rback::config::Host;
use rback::naming::format_suffix;
use rback::sudo::{FakeSudo, Sudo};
use rback::zfs::{count_ones, RetentionPlan};
use rback::{RBack, ZFS};

fn back() -> RBack {
    RBack {
        host: Host { host: "h".to_owned(), base: "pool".to_owned(), snap_prefix: "p-".to_owned() },
        dry_run: true,
    }
}

fn dataset(indices: &[u32]) -> DataSet {
    DataSet {
        name: "pool/vol".to_owned(),
        snaps: indices.iter().map(|&n| format_suffix("p-", n, 1, 1)).collect(),
        mount: "/vol".to_owned(),
    }
}

fn nums(plan: &[rback::zfs::PruneInfo]) -> Vec<u32> {
    plan.iter().map(|p| p.num).collect()
}

#[test]
fn popcounts() {
    assert_eq!(count_ones(0), 0);
    assert_eq!(count_ones(1), 1);
    assert_eq!(count_ones(3), 2);
    assert_eq!(count_ones(20), 2);
    assert_eq!(count_ones(u32::MAX), 32);
}

#[test]
fn first_index_superseded_by_second() {
    let b = back();
    let zfs = ZFS::new(&b);
    let plan: RetentionPlan = zfs.plan_prune(&dataset(&[1, 2, 3]));
    assert_eq!(nums(&plan.candidates), vec![1]);
    assert_eq!(plan.candidates[0].name, "p-00001-01-01");
    assert!(plan.destroy.is_empty());
    assert_eq!(plan.keep, vec![2, 3]);
}

#[test]
fn twenty_indices_keep_ten_back() {
    let b = back();
    let zfs = ZFS::new(&b);
    let all: Vec<u32> = (1..=20).collect();
    let plan = zfs.plan_prune(&dataset(&all));
    assert_eq!(nums(&plan.candidates), vec![1, 2, 3, 5, 4, 6, 9, 7, 10, 11, 13, 8, 12, 17, 14, 18]);
    assert_eq!(nums(&plan.destroy), vec![1, 2, 3, 5, 4, 6]);
    assert_eq!(plan.keep, vec![15, 16, 19, 20]);
}

#[test]
fn ten_candidates_destroy_nothing() {
    let b = back();
    let zfs = ZFS::new(&b);
    let all: Vec<u32> = (1..=13).collect();
    let plan = zfs.plan_prune(&dataset(&all));
    assert_eq!(plan.candidates.len(), 10);
    assert!(plan.destroy.is_empty());
    let all: Vec<u32> = (1..=14).collect();
    let plan = zfs.plan_prune(&dataset(&all));
    assert_eq!(plan.candidates.len(), 11);
    assert_eq!(nums(&plan.destroy), vec![1]);
}

#[test]
fn unindexed_snapshots_are_never_candidates() {
    let b = back();
    let zfs = ZFS::new(&b);
    let mut ds = dataset(&[1, 2, 4, 8]);
    ds.snaps.insert(1, "manual".to_owned());
    let plan = zfs.plan_prune(&ds);
    assert_eq!(nums(&plan.candidates), vec![1, 2, 4]);
    assert_eq!(plan.keep, vec![8]);
}

#[test]
fn repeated_index_keeps_the_later_name() {
    let b = back();
    let zfs = ZFS::new(&b);
    let mut ds = dataset(&[3]);
    ds.snaps.push(format_suffix("p-", 3, 2, 2));
    let plan = zfs.plan_prune(&ds);
    assert!(plan.candidates.is_empty());
    assert_eq!(plan.keep, vec![3]);
}

#[test]
fn destroy_command_names_one_snapshot() {
    let b = back();
    let zfs = ZFS::new(&b);
    let ds = dataset(&[1, 2]);
    let plan = zfs.plan_prune(&ds);
    let cmd = zfs.destroy_command(&Sudo::Sudo, &ds, &plan.candidates[0]);
    assert_eq!(cmd.program, "sudo");
    assert_eq!(cmd.args, vec!["zfs".to_string(), "destroy".to_string(), "pool/vol@p-00001-01-01".to_string()]);
    let fake = FakeSudo::new("echo");
    let cmd = zfs.destroy_command(&fake, &ds, &plan.candidates[0]);
    assert_eq!(cmd.program, "echo");
    assert_eq!(cmd.args, vec!["destroy".to_string(), "pool/vol@p-00001-01-01".to_string()]);
}
