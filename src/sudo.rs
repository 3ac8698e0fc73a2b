//! Commands run with elevated privilege.
use vstd::prelude::*;

use crate::command::CommandLine;

verus! {

/// The name of the elevation tool.
pub open spec fn sudo_word() -> Seq<char> {
    seq!['s', 'u', 'd', 'o']
}

/// Something that builds the command line that runs a program with privilege.
pub trait Sudoer {
    /// The words of the command line that `cmd` builds for `program`.
    spec fn cmd_words(&self, program: Seq<char>) -> Seq<Seq<char>>;

    fn cmd(&self, program: &str) -> (r: CommandLine)
        ensures
            r@ == self.cmd_words(program@),
    ;
}

/// Whether commands need the elevation tool in front of them.
#[derive(Clone, Copy, Debug, PartialEq, Eq, Structural)]
pub enum Sudo {
    /// The process already runs with privilege: programs run as they are.
    NoSudo,
    /// Programs run through the elevation tool.
    Sudo,
}

impl Sudoer for Sudo {
    open spec fn cmd_words(&self, program: Seq<char>) -> Seq<Seq<char>> {
        match self {
            Sudo::NoSudo => seq![program],
            Sudo::Sudo => seq![sudo_word(), program],
        }
    }

    fn cmd(&self, program: &str) -> (r: CommandLine) {
        match self {
            Sudo::NoSudo => CommandLine::new(program),
            Sudo::Sudo => {
                let mut c = CommandLine::new("sudo");
                c.arg(program);
                proof {
                    reveal_strlit("sudo");
                    assert("sudo"@ =~= sudo_word());
                }
                assert(c@ =~= seq![sudo_word(), program@]);
                c
            },
        }
    }
}

impl Sudo {
    /// The mode for a process whose effective user is root, or not.
    pub fn for_root(is_root: bool) -> (r: Sudo)
        ensures
            r == (if is_root {
                Sudo::NoSudo
            } else {
                Sudo::Sudo
            }),
    {
        if is_root {
            Sudo::NoSudo
        } else {
            Sudo::Sudo
        }
    }

    /// The command that primes and refreshes the privilege credential.
    pub fn update_command() -> (r: CommandLine)
        ensures
            r@ == seq![sudo_word(), seq!['-', 'v']],
    {
        let mut c = CommandLine::new("sudo");
        c.arg("-v");
        proof {
            reveal_strlit("sudo");
            reveal_strlit("-v");
            assert("sudo"@ =~= sudo_word());
            assert("-v"@ =~= seq!['-', 'v']);
        }
        assert(c@ =~= seq![sudo_word(), seq!['-', 'v']]);
        c
    }
}

/// A `Sudoer` that runs one fixed program in place of any, for trying out
/// callers without privilege.
pub struct FakeSudo {
    cmd: String,
}

impl View for FakeSudo {
    type V = Seq<char>;

    closed spec fn view(&self) -> Seq<char> {
        self.cmd@
    }
}

impl FakeSudo {
    pub fn new(cmd: &str) -> (r: FakeSudo)
        ensures
            r@ == cmd@,
    {
        FakeSudo { cmd: cmd.to_owned() }
    }
}

impl Sudoer for FakeSudo {
    open spec fn cmd_words(&self, program: Seq<char>) -> Seq<Seq<char>> {
        seq![self@]
    }

    fn cmd(&self, program: &str) -> (r: CommandLine) {
        CommandLine::new(self.cmd.as_str())
    }
}

/// What the keep-alive task of an elevated session sees.
#[derive(Clone, Copy, Debug, PartialEq, Eq, Structural)]
pub enum TickEvent {
    /// A period has passed.
    Tick,
    /// The session is being discarded.
    Stop,
}

/// What the keep-alive task does next.
#[derive(Clone, Copy, Debug, PartialEq, Eq, Structural)]
pub enum TickAction {
    /// Run the validation command again, then record the new count.
    Refresh,
    /// Leave the loop.
    Exit,
}

/// One step of the keep-alive task: each tick refreshes the credential and
/// counts one more refresh; a stop ends the task and leaves the count alone.
pub fn tick_step(count: u64, event: TickEvent) -> (r: (u64, TickAction))
    ensures
        event == TickEvent::Tick ==> r == (if count < u64::MAX {
            (count + 1) as u64
        } else {
            count
        }, TickAction::Refresh),
        event == TickEvent::Stop ==> r == (count, TickAction::Exit),
{
    match event {
        TickEvent::Tick => {
            let next = if count < u64::MAX {
                count + 1
            } else {
                count
            };
            (next, TickAction::Refresh)
        },
        TickEvent::Stop => (count, TickAction::Exit),
    }
}

} // verus!
