use rback::sudo::{tick_step, FakeSudo, Sudo, Sudoer, TickAction, TickEvent};

#[test]
fn not_root() {
    assert_eq!(Sudo::for_root(false), Sudo::Sudo);
    assert_eq!(Sudo::for_root(true), Sudo::NoSudo);
}

#[test]
fn elevated_commands_go_through_sudo() {
    let c = Sudo::Sudo.cmd("id");
    assert_eq!(c.program, "sudo");
    assert_eq!(c.args, vec!["id".to_string()]);
    let c = Sudo::NoSudo.cmd("id");
    assert_eq!(c.program, "id");
    assert!(c.args.is_empty());
}

#[test]
fn update_command_validates() {
    let c = Sudo::update_command();
    assert_eq!(c.program, "sudo");
    assert_eq!(c.args, vec!["-v".to_string()]);
}

#[test]
fn fake_sudo_runs_its_own_program() {
    let f = FakeSudo::new("tests/fake-lvm.sh");
    let c = f.cmd("lvs");
    assert_eq!(c.program, "tests/fake-lvm.sh");
    assert!(c.args.is_empty());
}

#[test]
fn ticks_count_refreshes_until_stopped() {
    assert_eq!(tick_step(0, TickEvent::Tick), (1, TickAction::Refresh));
    assert_eq!(tick_step(41, TickEvent::Tick), (42, TickAction::Refresh));
    assert_eq!(tick_step(u64::MAX, TickEvent::Tick), (u64::MAX, TickAction::Refresh));
    assert_eq!(tick_step(7, TickEvent::Stop), (7, TickAction::Exit));
}
