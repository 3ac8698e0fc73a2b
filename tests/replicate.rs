use rback::catalog::{parse_listing, DataSet};
use rback::endpoint::{ZfsPath, ZfsRemotePath};
use rback::error::{Stage, ZfsError};
use rback::replicate::{
    estimate_command, match_volumes, parse_send_size, pipeline, pipeline_step, plan_volume, CloneStep,
    PipelineAction, PipelineEvent, PipelineState, VolumeMatch,
};

fn ds(name: &str, snaps: &[&str]) -> DataSet {
    DataSet {
        name: name.to_owned(),
        snaps: snaps.iter().map(|s| s.to_string()).collect(),
        mount: "-".to_owned(),
    }
}

#[test]
fn remote_path_splits_at_first_colon() {
    match ZfsPath::parse("host:path") {
        ZfsPath::Remote(r) => {
            assert_eq!(r.host, "host");
            assert_eq!(r.path, "path");
        },
        other => panic!("unexpected: {:?}", other),
    }
    match ZfsPath::parse("a:b:c") {
        ZfsPath::Remote(r) => {
            assert_eq!(r.host, "a");
            assert_eq!(r.path, "b:c");
        },
        other => panic!("unexpected: {:?}", other),
    }
    assert!(ZfsRemotePath::parse("nocolon").is_none());
}

#[test]
fn path_without_colon_is_local() {
    let p = ZfsPath::parse("pool/backup");
    assert!(matches!(p, ZfsPath::Local(_)));
    assert_eq!(p.name(), "pool/backup");
    let c = p.command();
    assert_eq!(c.program, "zfs");
    assert!(c.args.is_empty());
}

#[test]
fn remote_commands_go_through_ssh() {
    let p = ZfsPath::parse("far:tank/b");
    assert_eq!(p.name(), "tank/b");
    let c = p.list_command();
    assert_eq!(c.program, "ssh");
    assert_eq!(
        c.args,
        vec!["far", "zfs", "list", "-H", "-t", "all", "-o", "name,mountpoint", "-r", "tank/b"]
    );
}

#[test]
fn size_from_trailer() {
    assert_eq!(parse_send_size("full\tpool@a\t123\nsize\t4096\n").unwrap(), 4096);
    assert_eq!(parse_send_size("x\nsize\t0\n").unwrap(), 0);
}

#[test]
fn missing_size_line_is_an_error() {
    assert!(matches!(parse_send_size("full\tpool@a\t123\n"), Err(ZfsError::SizeEstimate)));
    assert!(matches!(parse_send_size("x\nsize\t4096"), Err(ZfsError::SizeEstimate)));
    assert!(matches!(parse_send_size("size\t4096\n"), Err(ZfsError::SizeEstimate)));
    assert!(matches!(parse_send_size("x\nsize\t99999999999999999999\n"), Err(ZfsError::SizeEstimate)));
}

#[test]
fn volumes_pair_by_relative_name() {
    let src = ZfsPath::parse("tank/a");
    let dest = ZfsPath::parse("far:backup/a");
    let srcs = parse_listing("tank/a\t/a\ntank/a/x\t/a/x\ntank/a/new\t/a/new\n").unwrap();
    let dests = parse_listing("backup/a\tnone\nbackup/a/x\tnone\n").unwrap();
    let m = match_volumes(&src, &srcs, &dest, &dests);
    assert_eq!(m, vec![VolumeMatch::Clone(0, 0), VolumeMatch::Clone(1, 1), VolumeMatch::Fresh(2)]);
}

#[test]
fn steps_start_after_last_common_snapshot() {
    let src = ds("tank/a", &["s1", "s2", "s3", "s4"]);
    let dest = ds("backup/a", &["s1", "s2"]);
    let steps = plan_volume(&src, &dest);
    assert_eq!(steps.len(), 2);
    match &steps[0] {
        CloneStep::Transfer { old, name } => {
            assert_eq!(old.as_deref(), Some("s2"));
            assert_eq!(name, "s3");
        },
        other => panic!("unexpected: {:?}", other),
    }
    match &steps[1] {
        CloneStep::Transfer { old, name } => {
            assert_eq!(old.as_deref(), Some("s3"));
            assert_eq!(name, "s4");
        },
        other => panic!("unexpected: {:?}", other),
    }
}

#[test]
fn empty_destination_starts_with_full_send() {
    let src = ds("tank/a", &["s1", "s2"]);
    let dest = ds("backup/a", &[]);
    let steps = plan_volume(&src, &dest);
    match &steps[0] {
        CloneStep::Transfer { old, name } => {
            assert!(old.is_none());
            assert_eq!(name, "s1");
        },
        other => panic!("unexpected: {:?}", other),
    }
    assert_eq!(steps.len(), 2);
}

#[test]
fn up_to_date_destination_needs_nothing() {
    let src = ds("tank/a", &["s1", "s2"]);
    let dest = ds("backup/a", &["s0", "s1", "s2"]);
    assert!(plan_volume(&src, &dest).is_empty());
}

#[test]
fn estimate_and_pipeline_commands() {
    let src = ZfsPath::parse("tank");
    let dest = ZfsPath::parse("far:backup");
    let s = ds("tank/a", &["s1", "s2"]);
    let d = ds("backup/a", &["s1"]);
    let est = estimate_command(&src, &s, &Some("s1".to_owned()), "s2");
    assert_eq!(est.program, "zfs");
    assert_eq!(est.args, vec!["send", "-nP", "-Le", "-I", "@s1", "tank/a@s2"]);
    let full = estimate_command(&src, &s, &None, "s1");
    assert_eq!(full.args, vec!["send", "-nP", "-Le", "tank/a@s1"]);
    let p = pipeline(&src, &dest, &s, &d, &Some("s1".to_owned()), "s2", 4096);
    assert_eq!(p.send.args, vec!["send", "-Le", "-I", "@s1", "tank/a@s2"]);
    assert_eq!(p.monitor.program, "pv");
    assert_eq!(p.monitor.args, vec!["-s", "4096"]);
    assert_eq!(p.receive.program, "ssh");
    assert_eq!(p.receive.args, vec!["far", "zfs", "recv", "-vF", "backup/a"]);
}

fn run(dry_run: bool, exits: &[bool]) -> (PipelineState, Vec<PipelineAction>) {
    let mut actions = vec![];
    let (mut state, mut action) = pipeline_step(PipelineState::NotStarted, PipelineEvent::Start, dry_run);
    let mut exits = exits.iter();
    loop {
        actions.push(action);
        let event = match action {
            PipelineAction::Spawn(_) => PipelineEvent::Spawned,
            PipelineAction::Wait(_) => PipelineEvent::Exited(*exits.next().unwrap()),
            PipelineAction::Finish => return (state, actions),
        };
        let (s, a) = pipeline_step(state, event, dry_run);
        state = s;
        action = a;
    }
}

#[test]
fn first_failed_stage_is_reported() {
    let (state, actions) = run(false, &[true, true, true]);
    assert_eq!(state, PipelineState::Done);
    assert_eq!(
        actions,
        vec![
            PipelineAction::Spawn(Stage::Send),
            PipelineAction::Spawn(Stage::Monitor),
            PipelineAction::Spawn(Stage::Receive),
            PipelineAction::Wait(Stage::Send),
            PipelineAction::Wait(Stage::Monitor),
            PipelineAction::Wait(Stage::Receive),
            PipelineAction::Finish,
        ]
    );
    assert_eq!(run(false, &[false, false, false]).0, PipelineState::Failed(Stage::Send));
    assert_eq!(run(false, &[true, false, false]).0, PipelineState::Failed(Stage::Monitor));
    assert_eq!(run(false, &[true, true, false]).0, PipelineState::Failed(Stage::Receive));
    assert_eq!(run(false, &[true, false, true]).0, PipelineState::Failed(Stage::Monitor));
}

#[test]
fn dry_run_spawns_only_the_send() {
    let (state, actions) = run(true, &[]);
    assert_eq!(state, PipelineState::Done);
    assert_eq!(actions, vec![PipelineAction::Spawn(Stage::Send), PipelineAction::Finish]);
}

#[test]
fn unexpected_event_changes_nothing() {
    let (s, a) = pipeline_step(PipelineState::Done, PipelineEvent::Spawned, false);
    assert_eq!(s, PipelineState::Done);
    assert_eq!(a, PipelineAction::Finish);
}
