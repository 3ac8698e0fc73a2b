//! Replication of snapshots from one place to another: which volumes pair up,
//! which snapshots each one still needs, and the commands that move them.
use vstd::prelude::*;

use crate::catalog::{sets_view, DataSet, DataSetView};
use crate::command::CommandLine;
use crate::endpoint::ZfsPath;
use crate::error::{Stage, ZfsError, ZfsErrorView};
use crate::text::{
    all_digits, chars_of, dec_digits, decimal_u64, is_digit, parse_u64, push_decimal, string_of,
    strs,
};

verus! {

/// `name` with `prefix` cut off its front, if it starts so.
pub open spec fn strip_prefix(name: Seq<char>, prefix: Seq<char>) -> Option<Seq<char>> {
    if prefix.len() <= name.len() && name.take(prefix.len() as int) == prefix {
        Some(name.skip(prefix.len() as int))
    } else {
        None
    }
}

/// The last dataset of `dests` whose name, without `prefix`, is `key`.
pub open spec fn last_with_key(dests: Seq<DataSetView>, prefix: Seq<char>, key: Seq<char>) -> Option<
    int,
>
    decreases dests.len(),
{
    if dests.len() == 0 {
        None
    } else if strip_prefix(dests.last().name, prefix) == Some(key) {
        Some(dests.len() - 1)
    } else {
        last_with_key(dests.drop_last(), prefix, key)
    }
}

/// What becomes of one source volume.
#[derive(Clone, Copy, Debug, PartialEq, Eq, Structural)]
pub enum VolumeMatch {
    /// No destination volume has its relative name: it is not copied.
    Fresh(usize),
    /// The source volume at the first index pairs with the destination volume
    /// at the second.
    Clone(usize, usize),
}

/// The pairing of the source volume at `i`.
pub open spec fn volume_match(
    srcs: Seq<DataSetView>,
    src_prefix: Seq<char>,
    dests: Seq<DataSetView>,
    dest_prefix: Seq<char>,
    i: int,
) -> VolumeMatch {
    match strip_prefix(srcs[i].name, src_prefix) {
        None => VolumeMatch::Fresh(i as usize),
        Some(key) => match last_with_key(dests, dest_prefix, key) {
            None => VolumeMatch::Fresh(i as usize),
            Some(j) => VolumeMatch::Clone(i as usize, j as usize),
        },
    }
}

/// The last position in `src` of a snapshot that `dest` has too.
pub open spec fn last_common(src: Seq<Seq<char>>, dest: Seq<Seq<char>>) -> Option<int>
    decreases src.len(),
{
    if src.len() == 0 {
        None
    } else if dest.contains(src.last()) {
        Some(src.len() - 1)
    } else {
        last_common(src.drop_last(), dest)
    }
}

/// Where the snapshots to copy start: just after the last common one.
pub open spec fn first_to_copy(src: Seq<Seq<char>>, dest: Seq<Seq<char>>) -> int {
    match last_common(src, dest) {
        Some(l) => l + 1,
        None => 0,
    }
}

/// One snapshot after the replication cursor.
#[derive(Debug)]
pub enum CloneStep {
    /// The destination has it already: it is reported and left alone.
    Skip(String),
    /// It is sent, as an increment from `old` when there is one.
    Transfer { old: Option<String>, name: String },
}

pub enum CloneStepView {
    Skip(Seq<char>),
    Transfer { old: Option<Seq<char>>, name: Seq<char> },
}

impl View for CloneStep {
    type V = CloneStepView;

    open spec fn view(&self) -> CloneStepView {
        match self {
            CloneStep::Skip(n) => CloneStepView::Skip(n@),
            CloneStep::Transfer { old, name } => CloneStepView::Transfer {
                old: match old {
                    Some(o) => Some(o@),
                    None => None,
                },
                name: name@,
            },
        }
    }
}

pub open spec fn steps_view(v: Seq<CloneStep>) -> Seq<CloneStepView> {
    v.map_values(|s: CloneStep| s@)
}

/// The step for the source snapshot at `i`: the one before it is the base.
pub open spec fn clone_step(src: Seq<Seq<char>>, dest: Seq<Seq<char>>, i: int) -> CloneStepView {
    if dest.contains(src[i]) {
        CloneStepView::Skip(src[i])
    } else {
        CloneStepView::Transfer {
            old: if i == 0 {
                None
            } else {
                Some(src[i - 1])
            },
            name: src[i],
        }
    }
}

/// The steps for every source snapshot after the replication cursor, in order.
pub open spec fn clone_steps(src: Seq<Seq<char>>, dest: Seq<Seq<char>>) -> Seq<CloneStepView> {
    let f = first_to_copy(src, dest);
    Seq::new((src.len() - f) as nat, |k: int| clone_step(src, dest, f + k))
}

/// The trailer of a dry-run send ends with a line `size\t<digits>`.
pub open spec fn size_trailer(text: Seq<char>, digits: Seq<char>) -> bool {
    let k = text.len() - digits.len() - 1;
    &&& digits.len() > 0
    &&& all_digits(digits)
    &&& text.len() >= digits.len() + 7
    &&& text.subrange(k - 6, k) == seq!['\n', 's', 'i', 'z', 'e', '\t']
    &&& text.subrange(k, text.len() - 1) == digits
    &&& text.last() == '\n'
}

pub open spec fn has_size_trailer(text: Seq<char>) -> bool {
    exists|d: Seq<char>| size_trailer(text, d)
}

/// The byte count that a dry-run send's output announces, when it fits a `u64`.
pub open spec fn send_size(text: Seq<char>) -> Option<u64> {
    if has_size_trailer(text) {
        decimal_u64(choose|d: Seq<char>| size_trailer(text, d))
    } else {
        None
    }
}

/// Relies on regex::Regex::captures: `(?s).*\nsize\t([0-9]+)\n$` matches exactly
/// the texts that end in a newline, `size`, a tab, digits and a newline, and
/// its group is those digits.
#[verifier::external_body]
fn size_capture(text: &str) -> (r: Option<String>)
    ensures
        match r {
            Some(d) => size_trailer(text@, d@),
            None => !has_size_trailer(text@),
        },
{
    let re = regex::Regex::new("(?s).*\nsize\t([0-9]+)\n$").unwrap();
    re.captures(text).map(|c| c[1].to_owned())
}

proof fn lemma_size_trailer_unique(text: Seq<char>, d1: Seq<char>, d2: Seq<char>)
    requires
        size_trailer(text, d1),
        size_trailer(text, d2),
    ensures
        d1 == d2,
{
    let n = text.len() - 1;
    if d1.len() < d2.len() {
        let k1 = n - d1.len();
        assert(text.subrange(k1 - 6, k1)[5] == '\t');
        assert(text[k1 - 1] == '\t');
        assert(text[k1 - 1] == text.subrange(n - d2.len(), n)[d2.len() - d1.len() - 1]);
        assert(is_digit(d2[d2.len() - d1.len() - 1]));
    } else if d2.len() < d1.len() {
        let k2 = n - d2.len();
        assert(text.subrange(k2 - 6, k2)[5] == '\t');
        assert(text[k2 - 1] == '\t');
        assert(text[k2 - 1] == text.subrange(n - d1.len(), n)[d1.len() - d2.len() - 1]);
        assert(is_digit(d1[d1.len() - d2.len() - 1]));
    }
    assert(d1 =~= d2);
}

/// Reads the byte count from the output of a dry-run send.
pub fn parse_send_size(text: &str) -> (r: Result<u64, ZfsError>)
    ensures
        match send_size(text@) {
            Some(n) => r matches Ok(m) && m == n,
            None => r matches Err(e) && e@ == ZfsErrorView::SizeEstimate,
        },
{
    match size_capture(text) {
        None => Err(ZfsError::SizeEstimate),
        Some(d) => {
            proof {
                let d2 = choose|d2: Seq<char>| size_trailer(text@, d2);
                lemma_size_trailer_unique(text@, d@, d2);
            }
            match parse_u64(d.as_str()) {
                Some(n) => Ok(n),
                None => Err(ZfsError::SizeEstimate),
            }
        },
    }
}

/// Cuts `prefix` off the front of `name`.
pub fn strip_name(name: &str, prefix: &str) -> (r: Option<String>)
    ensures
        match strip_prefix(name@, prefix@) {
            Some(k) => r is Some && r->0@ == k,
            None => r is None,
        },
{
    let nv = chars_of(name);
    let pv = chars_of(prefix);
    if pv.len() > nv.len() {
        return None;
    }
    let mut i: usize = 0;
    while i < pv.len()
        invariant
            i <= pv@.len() <= nv@.len(),
            nv@ == name@,
            pv@ == prefix@,
            forall|j: int| 0 <= j < i ==> nv@[j] == pv@[j],
        decreases pv@.len() - i,
    {
        if nv[i] != pv[i] {
            assert(nv@.take(pv@.len() as int)[i as int] != pv@[i as int]);
            assert(nv@.take(pv@.len() as int) != pv@);
            assert(name@.take(prefix@.len() as int) != prefix@);
            assert(strip_prefix(name@, prefix@) is None);
            return None;
        }
        i = i + 1;
    }
    assert(nv@.take(pv@.len() as int) =~= pv@);
    let rest = string_of(&nv, pv.len(), nv.len());
    assert(rest@ =~= nv@.skip(pv@.len() as int));
    Some(rest)
}

/// Whether `names` holds `name`.
pub fn has_name(names: &Vec<String>, name: &String) -> (r: bool)
    ensures
        r == strs(names@).contains(name@),
{
    let mut i: usize = 0;
    while i < names.len()
        invariant
            i <= names@.len(),
            forall|j: int| 0 <= j < i ==> names@[j]@ != name@,
        decreases names@.len() - i,
    {
        if names[i] == *name {
            assert(strs(names@)[i as int] == name@);
            return true;
        }
        i = i + 1;
    }
    proof {
        if strs(names@).contains(name@) {
            let j = choose|j: int| 0 <= j < strs(names@).len() && strs(names@)[j] == name@;
            assert(names@[j]@ == name@);
        }
    }
    false
}

/// Pairs each source volume with the destination volume of the same name
/// relative to its place; the last such destination wins.
pub fn match_volumes(src: &ZfsPath, srcs: &[DataSet], dest: &ZfsPath, dests: &[DataSet]) -> (r: Vec<
    VolumeMatch,
>)
    ensures
        r@.len() == srcs@.len(),
        forall|i: int|
            0 <= i < srcs@.len() ==> #[trigger] r@[i] == volume_match(
                sets_view(srcs@),
                src.spec_name(),
                sets_view(dests@),
                dest.spec_name(),
                i,
            ),
{
    let ghost sv = sets_view(srcs@);
    let ghost dv = sets_view(dests@);
    let mut out: Vec<VolumeMatch> = Vec::new();
    let mut i: usize = 0;
    while i < srcs.len()
        invariant
            i <= srcs@.len(),
            out@.len() == i,
            sv == sets_view(srcs@),
            dv == sets_view(dests@),
            forall|k: int|
                0 <= k < i ==> #[trigger] out@[k] == volume_match(
                    sv,
                    src.spec_name(),
                    dv,
                    dest.spec_name(),
                    k,
                ),
        decreases srcs@.len() - i,
    {
        let m = match strip_name(srcs[i].name.as_str(), src.name()) {
            None => VolumeMatch::Fresh(i),
            Some(key) => {
                let mut found: Option<usize> = None;
                let mut j: usize = 0;
                while j < dests.len()
                    invariant
                        j <= dests@.len(),
                        dv == sets_view(dests@),
                        match last_with_key(dv.take(j as int), dest.spec_name(), key@) {
                            Some(x) => found == Some(x as usize),
                            None => found is None,
                        },
                    decreases dests@.len() - j,
                {
                    let dk = strip_name(dests[j].name.as_str(), dest.name());
                    proof {
                        assert(dv.take(j as int + 1).drop_last() =~= dv.take(j as int));
                        assert(dv.take(j as int + 1).last() == dests@[j as int]@);
                    }
                    match dk {
                        Some(k) => {
                            if k == key {
                                found = Some(j);
                            }
                        },
                        None => {},
                    }
                    j = j + 1;
                }
                assert(dv.take(dv.len() as int) =~= dv);
                match found {
                    None => VolumeMatch::Fresh(i),
                    Some(x) => VolumeMatch::Clone(i, x),
                }
            },
        };
        assert(sv[i as int] == srcs@[i as int]@);
        out.push(m);
        i = i + 1;
    }
    out
}

/// The steps that bring the destination volume up to the source volume.
pub fn plan_volume(src: &DataSet, dest: &DataSet) -> (r: Vec<CloneStep>)
    ensures
        steps_view(r@) == clone_steps(src@.snaps, dest@.snaps),
{
    let ghost s = src@.snaps;
    let ghost d = dest@.snaps;
    let mut latest: Option<usize> = None;
    let mut i: usize = 0;
    while i < src.snaps.len()
        invariant
            i <= src.snaps@.len(),
            s == src@.snaps,
            d == dest@.snaps,
            match last_common(s.take(i as int), d) {
                Some(x) => latest == Some(x as usize),
                None => latest is None,
            },
            match latest {
                Some(x) => x < i,
                None => true,
            },
        decreases src.snaps@.len() - i,
    {
        let present = has_name(&dest.snaps, &src.snaps[i]);
        proof {
            assert(s.take(i as int + 1).drop_last() =~= s.take(i as int));
            assert(s.take(i as int + 1).last() == s[i as int]);
        }
        if present {
            latest = Some(i);
        }
        i = i + 1;
    }
    assert(s.take(s.len() as int) =~= s);
    let first: usize = match latest {
        Some(x) => x + 1,
        None => 0,
    };
    proof {
        lemma_last_common_bound(s, d);
    }
    let mut out: Vec<CloneStep> = Vec::new();
    let mut k: usize = first;
    while k < src.snaps.len()
        invariant
            first <= k <= src.snaps@.len(),
            first == first_to_copy(s, d),
            s == src@.snaps,
            d == dest@.snaps,
            steps_view(out@) == clone_steps(s, d).take(k - first),
        decreases src.snaps@.len() - k,
    {
        let name = &src.snaps[k];
        let present = has_name(&dest.snaps, name);
        let step = if present {
            CloneStep::Skip(name.clone())
        } else {
            let old = if k == 0 {
                None
            } else {
                Some(src.snaps[k - 1].clone())
            };
            CloneStep::Transfer { old, name: name.clone() }
        };
        assert(step@ == clone_step(s, d, k as int));
        let ghost before = out@;
        out.push(step);
        k = k + 1;
        assert(steps_view(out@) =~= steps_view(before).push(step@));
        assert(steps_view(out@) =~= clone_steps(s, d).take(k - first));
    }
    assert(clone_steps(s, d).take(src.snaps@.len() - first) =~= clone_steps(s, d));
    out
}

proof fn lemma_last_common_bound(s: Seq<Seq<char>>, d: Seq<Seq<char>>)
    ensures
        match last_common(s, d) {
            Some(x) => 0 <= x < s.len(),
            None => true,
        },
    decreases s.len(),
{
    if s.len() > 0 {
        lemma_last_common_bound(s.drop_last(), d);
    }
}

/// The words `send <flags> [-I @<old>] <dataset>@<name>`.
pub open spec fn send_words(
    flags: Seq<Seq<char>>,
    dataset: Seq<char>,
    old: Option<Seq<char>>,
    name: Seq<char>,
) -> Seq<Seq<char>> {
    let base = match old {
        Some(o) => seq!["send"@] + flags + seq!["-I"@, seq!['@'] + o],
        None => seq!["send"@] + flags,
    };
    base.push(dataset + seq!['@'] + name)
}

fn send_command(
    src: &ZfsPath,
    dry_run: bool,
    dataset: &str,
    old: &Option<String>,
    name: &str,
) -> (r: CommandLine)
    ensures
        r@ == src.spec_command() + send_words(
            if dry_run {
                seq!["-nP"@, "-Le"@]
            } else {
                seq!["-Le"@]
            },
            dataset@,
            match old {
                Some(o) => Some(o@),
                None => None,
            },
            name@,
        ),
{
    let mut c = src.command();
    let ghost start = c@;
    let ghost flags = if dry_run {
        seq!["-nP"@, "-Le"@]
    } else {
        seq!["-Le"@]
    };
    let ghost oldv = match old {
        Some(o) => Some(o@),
        None => None,
    };
    c.arg("send");
    if dry_run {
        c.arg("-nP");
    }
    c.arg("-Le");
    assert(c@ =~= start + seq!["send"@] + flags);
    proof {
        reveal_strlit("@");
    }
    match old {
        Some(o) => {
            let mut at = "@".to_owned();
            at.append(o.as_str());
            c.arg("-I");
            c.arg(at.as_str());
            assert(at@ =~= seq!['@'] + o@);
            assert(c@ =~= start + (seq!["send"@] + flags + seq!["-I"@, seq!['@'] + o@]));
        },
        None => {},
    }
    let ghost mid = c@;
    let mut full = dataset.to_owned();
    full.append("@");
    full.append(name);
    c.arg(full.as_str());
    assert(full@ =~= dataset@ + seq!['@'] + name@);
    assert(c@ =~= start + send_words(flags, dataset@, oldv, name@));
    c
}

/// The command line of the dry-run send that estimates the size of a transfer:
/// `send -nP -Le [-I @<old>] <dataset>@<name>` on the source.
pub fn estimate_command(src: &ZfsPath, dataset: &DataSet, old: &Option<String>, name: &str) -> (r:
    CommandLine)
    ensures
        r@ == src.spec_command() + send_words(
            seq!["-nP"@, "-Le"@],
            dataset.name@,
            match old {
                Some(o) => Some(o@),
                None => None,
            },
            name@,
        ),
{
    send_command(src, true, dataset.name.as_str(), old, name)
}

/// The three processes of one transfer, in stream order.
#[derive(Debug)]
pub struct Pipeline {
    /// `send -Le [-I @<old>] <dataset>@<name>` on the source.
    pub send: CommandLine,
    /// `pv -s <size>`, the progress monitor.
    pub monitor: CommandLine,
    /// `recv -vF <dataset>` on the destination.
    pub receive: CommandLine,
}

/// The commands of the transfer of `src_set@name` into `dest_set`, with
/// `size` bytes expected.
pub fn pipeline(
    src: &ZfsPath,
    dest: &ZfsPath,
    src_set: &DataSet,
    dest_set: &DataSet,
    old: &Option<String>,
    name: &str,
    size: u64,
) -> (r: Pipeline)
    ensures
        r.send@ == src.spec_command() + send_words(
            seq!["-Le"@],
            src_set.name@,
            match old {
                Some(o) => Some(o@),
                None => None,
            },
            name@,
        ),
        r.monitor@ == seq!["pv"@, "-s"@, dec_digits(size as nat)],
        r.receive@ == dest.spec_command() + seq!["recv"@, "-vF"@, dest_set.name@],
{
    let send = send_command(src, false, src_set.name.as_str(), old, name);
    let mut monitor = CommandLine::new("pv");
    monitor.arg("-s");
    let mut sz = String::new();
    push_decimal(&mut sz, size);
    assert(sz@ =~= dec_digits(size as nat));
    monitor.arg(sz.as_str());
    assert(monitor@ =~= seq!["pv"@, "-s"@, dec_digits(size as nat)]);
    let mut receive = dest.command();
    let ghost start = receive@;
    receive.arg("recv");
    receive.arg("-vF");
    receive.arg(dest_set.name.as_str());
    assert(receive@ =~= start + seq!["recv"@, "-vF"@, dest_set.name@]);
    Pipeline { send, monitor, receive }
}

/// Where a transfer stands.
#[derive(Clone, Copy, Debug, PartialEq, Eq, Structural)]
pub enum PipelineState {
    NotStarted,
    /// The send stage runs.
    Stage1Running,
    /// The send and monitor stages run.
    Stage2Running,
    /// All three stages run.
    Stage3Running,
    /// The stages are waited for in order; `next` is the one waited for now,
    /// `failed` the first one that failed so far.
    Waiting { next: Stage, failed: Option<Stage> },
    Done,
    Failed(Stage),
}

/// What the runner of the processes reports.
#[derive(Clone, Copy, Debug, PartialEq, Eq, Structural)]
pub enum PipelineEvent {
    /// The transfer is to begin.
    Start,
    /// The stage asked for last was spawned, its input taken from the
    /// previous stage's output.
    Spawned,
    /// The stage waited for exited, successfully or not.
    Exited(bool),
}

/// What the runner of the processes does next.
#[derive(Clone, Copy, Debug, PartialEq, Eq, Structural)]
pub enum PipelineAction {
    Spawn(Stage),
    Wait(Stage),
    /// Nothing is left to do; the state says how it ended.
    Finish,
}

pub open spec fn next_stage(s: Stage) -> Stage {
    match s {
        Stage::Send => Stage::Monitor,
        _ => Stage::Receive,
    }
}

/// One transition of a transfer. In a dry run nothing follows the send stage;
/// otherwise all three stages are spawned, then waited for in stream order,
/// and the first that failed decides the outcome. An event that does not fit
/// the state leaves it as it is.
pub open spec fn pipeline_next(state: PipelineState, event: PipelineEvent, dry_run: bool) -> (
    PipelineState,
    PipelineAction,
) {
    match (state, event) {
        (PipelineState::NotStarted, PipelineEvent::Start) => (
            PipelineState::Stage1Running,
            PipelineAction::Spawn(Stage::Send),
        ),
        (PipelineState::Stage1Running, PipelineEvent::Spawned) => if dry_run {
            (PipelineState::Done, PipelineAction::Finish)
        } else {
            (PipelineState::Stage2Running, PipelineAction::Spawn(Stage::Monitor))
        },
        (PipelineState::Stage2Running, PipelineEvent::Spawned) => (
            PipelineState::Stage3Running,
            PipelineAction::Spawn(Stage::Receive),
        ),
        (PipelineState::Stage3Running, PipelineEvent::Spawned) => (
            PipelineState::Waiting { next: Stage::Send, failed: None },
            PipelineAction::Wait(Stage::Send),
        ),
        (PipelineState::Waiting { next, failed }, PipelineEvent::Exited(ok)) => {
            let f = match failed {
                Some(x) => Some(x),
                None => if ok {
                    None
                } else {
                    Some(next)
                },
            };
            if next == Stage::Receive {
                match f {
                    Some(x) => (PipelineState::Failed(x), PipelineAction::Finish),
                    None => (PipelineState::Done, PipelineAction::Finish),
                }
            } else {
                (
                    PipelineState::Waiting { next: next_stage(next), failed: f },
                    PipelineAction::Wait(next_stage(next)),
                )
            }
        },
        _ => (state, PipelineAction::Finish),
    }
}

/// Takes one step of a transfer.
pub fn pipeline_step(state: PipelineState, event: PipelineEvent, dry_run: bool) -> (r: (
    PipelineState,
    PipelineAction,
))
    ensures
        r == pipeline_next(state, event, dry_run),
{
    match (state, event) {
        (PipelineState::NotStarted, PipelineEvent::Start) => (
            PipelineState::Stage1Running,
            PipelineAction::Spawn(Stage::Send),
        ),
        (PipelineState::Stage1Running, PipelineEvent::Spawned) => if dry_run {
            (PipelineState::Done, PipelineAction::Finish)
        } else {
            (PipelineState::Stage2Running, PipelineAction::Spawn(Stage::Monitor))
        },
        (PipelineState::Stage2Running, PipelineEvent::Spawned) => (
            PipelineState::Stage3Running,
            PipelineAction::Spawn(Stage::Receive),
        ),
        (PipelineState::Stage3Running, PipelineEvent::Spawned) => (
            PipelineState::Waiting { next: Stage::Send, failed: None },
            PipelineAction::Wait(Stage::Send),
        ),
        (PipelineState::Waiting { next, failed }, PipelineEvent::Exited(ok)) => {
            let f = match failed {
                Some(x) => Some(x),
                None => if ok {
                    None
                } else {
                    Some(next)
                },
            };
            let last = match next {
                Stage::Receive => true,
                _ => false,
            };
            if last {
                match f {
                    Some(x) => (PipelineState::Failed(x), PipelineAction::Finish),
                    None => (PipelineState::Done, PipelineAction::Finish),
                }
            } else {
                let n = match next {
                    Stage::Send => Stage::Monitor,
                    _ => Stage::Receive,
                };
                (PipelineState::Waiting { next: n, failed: f }, PipelineAction::Wait(n))
            }
        },
        _ => (state, PipelineAction::Finish),
    }
}

/// The state a live transfer reaches when its three stages spawn and then
/// exit with `ok1`, `ok2` and `ok3`.
pub open spec fn run_live(ok1: bool, ok2: bool, ok3: bool) -> PipelineState {
    let s1 = pipeline_next(PipelineState::NotStarted, PipelineEvent::Start, false).0;
    let s2 = pipeline_next(s1, PipelineEvent::Spawned, false).0;
    let s3 = pipeline_next(s2, PipelineEvent::Spawned, false).0;
    let w1 = pipeline_next(s3, PipelineEvent::Spawned, false).0;
    let w2 = pipeline_next(w1, PipelineEvent::Exited(ok1), false).0;
    let w3 = pipeline_next(w2, PipelineEvent::Exited(ok2), false).0;
    pipeline_next(w3, PipelineEvent::Exited(ok3), false).0
}

/// A live transfer spawns the send, monitor and receive stages in that order,
/// waits for them in that order, and ends in `Done` when all three succeed,
/// otherwise in `Failed` naming the first stage that failed.
pub proof fn lemma_pipeline_first_failure(ok1: bool, ok2: bool, ok3: bool)
    ensures
        pipeline_next(PipelineState::NotStarted, PipelineEvent::Start, false).1
            == PipelineAction::Spawn(Stage::Send),
        pipeline_next(PipelineState::Stage1Running, PipelineEvent::Spawned, false).1
            == PipelineAction::Spawn(Stage::Monitor),
        pipeline_next(PipelineState::Stage2Running, PipelineEvent::Spawned, false).1
            == PipelineAction::Spawn(Stage::Receive),
        run_live(ok1, ok2, ok3) == (if !ok1 {
            PipelineState::Failed(Stage::Send)
        } else if !ok2 {
            PipelineState::Failed(Stage::Monitor)
        } else if !ok3 {
            PipelineState::Failed(Stage::Receive)
        } else {
            PipelineState::Done
        }),
{
}

/// A dry run spawns only the send stage, and then is done.
pub proof fn lemma_pipeline_dry_run()
    ensures
        pipeline_next(PipelineState::NotStarted, PipelineEvent::Start, true) == (
            PipelineState::Stage1Running,
            PipelineAction::Spawn(Stage::Send),
        ),
        pipeline_next(PipelineState::Stage1Running, PipelineEvent::Spawned, true) == (
            PipelineState::Done,
            PipelineAction::Finish,
        ),
{
}

} // verus!
