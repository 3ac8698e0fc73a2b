//! Integrity manifests of snapshots: which snapshots still need one, where it
//! goes, and which earlier manifest it can be updated from.
use vstd::prelude::*;

use crate::catalog::{sets_view, DataSet, DataSetView};
use crate::replicate::{strip_name, strip_prefix};
use crate::text::{chars_of, strs};

verus! {

/// `s` ends with `t`.
pub open spec fn ends_with(s: Seq<char>, t: Seq<char>) -> bool {
    t.len() <= s.len() && s.skip(s.len() - t.len()) == t
}

pub fn str_ends_with(s: &str, t: &str) -> (r: bool)
    ensures
        r == ends_with(s@, t@),
{
    let sv = chars_of(s);
    let tv = chars_of(t);
    if tv.len() > sv.len() {
        return false;
    }
    let n = sv.len();
    let off = n - tv.len();
    let mut i: usize = 0;
    while i < tv.len()
        invariant
            i <= tv@.len(),
            n == sv@.len(),
            off + tv@.len() == n,
            sv@ == s@,
            tv@ == t@,
            forall|j: int| 0 <= j < i ==> sv@[off + j] == tv@[j],
        decreases tv@.len() - i,
    {
        if sv[off + i] != tv[i] {
            assert(sv@.skip(off as int)[i as int] != tv@[i as int]);
            return false;
        }
        i = i + 1;
    }
    assert(sv@.skip(off as int) =~= tv@);
    true
}

/// A dataset that gets manifests: one below `base`, and not a store of
/// manifests itself.
pub open spec fn gets_manifests(base: Seq<char>, name: Seq<char>) -> bool {
    &&& name != base
    &&& !ends_with(name, "/sure"@)
    &&& !ends_with(name, "/bksure"@)
}

pub open spec fn manifest_sets(base: Seq<char>, sets: Seq<DataSetView>) -> Seq<DataSetView>
    decreases sets.len(),
{
    if sets.len() == 0 {
        Seq::empty()
    } else if gets_manifests(base, sets.last().name) {
        manifest_sets(base, sets.drop_last()).push(sets.last())
    } else {
        manifest_sets(base, sets.drop_last())
    }
}

/// The datasets that get manifests, in their order.
pub fn get_nonsure_snaps(base: &str, sets: Vec<DataSet>) -> (r: Vec<DataSet>)
    ensures
        sets_view(r@) == manifest_sets(base@, sets_view(sets@)),
{
    let ghost sv = sets_view(sets@);
    let mut out: Vec<DataSet> = Vec::new();
    let mut rest = sets;
    let total: usize = rest.len();
    let mut i: usize = 0;
    while i < total
        invariant
            i <= total,
            total == sv.len(),
            rest@.len() + i == total,
            forall|k: int| 0 <= k < rest@.len() ==> (#[trigger] rest@[k])@ == sv[i + k],
            sets_view(out@) == manifest_sets(base@, sv.take(i as int)),
        decreases total - i,
    {
        let ghost r0 = rest@;
        let d = rest.remove(0);
        assert forall|k: int| 0 <= k < rest@.len() implies (#[trigger] rest@[k])@ == sv[i + 1 + k] by {
            assert(rest@[k] == r0[k + 1]);
        }
        assert(d@ == sv[i as int]);
        let keep = d.name.as_str().to_owned() != base.to_owned() && !str_ends_with(
            d.name.as_str(),
            "/sure",
        ) && !str_ends_with(d.name.as_str(), "/bksure");
        proof {
            assert(sv.take(i as int + 1).drop_last() =~= sv.take(i as int));
            assert(sv.take(i as int + 1).last() == sv[i as int]);
        }
        if keep {
            let ghost before = out@;
            out.push(d);
            assert(sets_view(out@) =~= sets_view(before).push(sv[i as int]));
        }
        i = i + 1;
    }
    assert(sv.take(total as int) =~= sv);
    out
}

/// The name of a dataset below `base`, relative to it.
pub open spec fn sub_name(base: Seq<char>, name: Seq<char>) -> Option<Seq<char>> {
    strip_prefix(name, base + seq!['/'])
}

/// The directory where the snapshot `snap` of a volume mounted at `mount`
/// can be read.
pub open spec fn snapshot_dir(mount: Seq<char>, snap: Seq<char>) -> Seq<char> {
    mount + "/.zfs/snapshot/"@ + snap
}

/// The manifest file of a snapshot: `/<base>/sure/<sub>-<snap>.dat.gz`.
pub open spec fn sure_file(base: Seq<char>, sub: Seq<char>, snap: Seq<char>) -> Seq<char> {
    "/"@ + base + "/sure/"@ + sub + "-"@ + snap + ".dat.gz"@
}

/// The name of a dataset's manifests in a manifest store: `<sub>.dat`.
pub open spec fn store_file(sub: Seq<char>) -> Seq<char> {
    sub + ".dat"@
}

/// Work on one snapshot: write the manifest `name` of the tree under `dir`,
/// updated from the manifest `old` when there is one.
#[derive(Debug)]
pub struct SureJob {
    pub dir: String,
    pub old: Option<String>,
    pub name: String,
}

pub struct SureJobView {
    pub dir: Seq<char>,
    pub old: Option<Seq<char>>,
    pub name: Seq<char>,
}

impl View for SureJob {
    type V = SureJobView;

    open spec fn view(&self) -> SureJobView {
        SureJobView {
            dir: self.dir@,
            old: match self.old {
                Some(o) => Some(o@),
                None => None,
            },
            name: self.name@,
        }
    }
}

pub open spec fn jobs_view(v: Seq<SureJob>) -> Seq<SureJobView> {
    v.map_values(|j: SureJob| j@)
}

/// The jobs for the snapshots `0..n` of a chain: each one without a manifest
/// gets one, from the manifest of the snapshot before it.
pub open spec fn chain_jobs(
    dirs: Seq<Seq<char>>,
    labels: Seq<Seq<char>>,
    present: Seq<bool>,
    n: int,
) -> Seq<SureJobView>
    decreases n,
{
    if n <= 0 {
        Seq::empty()
    } else {
        let before = chain_jobs(dirs, labels, present, n - 1);
        let k = n - 1;
        if present[k] {
            before
        } else {
            before.push(
                SureJobView {
                    dir: dirs[k],
                    old: if k == 0 {
                        None
                    } else {
                        Some(labels[k - 1])
                    },
                    name: labels[k],
                },
            )
        }
    }
}

fn concat3(a: &str, b: &str, c: &str) -> (r: String)
    ensures
        r@ == a@ + b@ + c@,
{
    let mut s = a.to_owned();
    s.append(b);
    s.append(c);
    s
}

/// The directories where the snapshots of `ds` can be read.
pub fn snapshot_dirs(ds: &DataSet) -> (r: Vec<String>)
    ensures
        r@.len() == ds@.snaps.len(),
        forall|k: int|
            0 <= k < r@.len() ==> (#[trigger] r@[k])@ == snapshot_dir(ds@.mount, ds@.snaps[k]),
{
    let mut out: Vec<String> = Vec::new();
    let mut k: usize = 0;
    while k < ds.snaps.len()
        invariant
            k <= ds.snaps@.len(),
            out@.len() == k,
            forall|j: int|
                0 <= j < k ==> (#[trigger] out@[j])@ == snapshot_dir(ds@.mount, ds@.snaps[j]),
        decreases ds.snaps@.len() - k,
    {
        let d = concat3(ds.mount.as_str(), "/.zfs/snapshot/", ds.snaps[k].as_str());
        out.push(d);
        k = k + 1;
    }
    out
}

/// The manifest files of the snapshots of `ds`, a dataset below `base`;
/// `None` when its name is not below `base`.
pub fn sure_files(base: &str, ds: &DataSet) -> (r: Option<Vec<String>>)
    ensures
        match sub_name(base@, ds@.name) {
            None => r is None,
            Some(sub) => r is Some && r->0@.len() == ds@.snaps.len() && forall|k: int|
                0 <= k < ds@.snaps.len() ==> (#[trigger] r->0@[k])@ == sure_file(
                    base@,
                    sub,
                    ds@.snaps[k],
                ),
        },
{
    let mut below = base.to_owned();
    below.append("/");
    proof {
        reveal_strlit("/");
    }
    assert(below@ =~= base@ + seq!['/']);
    let sub = match strip_name(ds.name.as_str(), below.as_str()) {
        None => return None,
        Some(s) => s,
    };
    let head = concat3("/", base, "/sure/");
    let mut out: Vec<String> = Vec::new();
    let mut k: usize = 0;
    while k < ds.snaps.len()
        invariant
            k <= ds.snaps@.len(),
            out@.len() == k,
            head@ == "/"@ + base@ + "/sure/"@,
            forall|j: int|
                0 <= j < k ==> (#[trigger] out@[j])@ == sure_file(base@, sub@, ds@.snaps[j]),
        decreases ds.snaps@.len() - k,
    {
        let mut f = concat3(head.as_str(), sub.as_str(), "-");
        f.append(ds.snaps[k].as_str());
        f.append(".dat.gz");
        assert(f@ =~= sure_file(base@, sub@, ds@.snaps[k as int]));
        out.push(f);
        k = k + 1;
    }
    Some(out)
}

/// The name of the manifests of `ds`, a dataset below `base`, in a manifest
/// store; `None` when its name is not below `base`.
pub fn store_name(base: &str, ds: &DataSet) -> (r: Option<String>)
    ensures
        match sub_name(base@, ds@.name) {
            None => r is None,
            Some(sub) => r is Some && r->0@ == store_file(sub),
        },
{
    let mut below = base.to_owned();
    below.append("/");
    proof {
        reveal_strlit("/");
    }
    assert(below@ =~= base@ + seq!['/']);
    match strip_name(ds.name.as_str(), below.as_str()) {
        None => None,
        Some(sub) => {
            let mut s = sub;
            s.append(".dat");
            Some(s)
        },
    }
}

/// The manifest work on a chain of snapshots: `dirs[k]` is where snapshot `k`
/// is read, `labels[k]` names its manifest, and `present[k]` says whether that
/// manifest exists already.
pub fn plan_chain(dirs: &Vec<String>, labels: &Vec<String>, present: &Vec<bool>) -> (r: Vec<
    SureJob,
>)
    requires
        dirs@.len() == labels@.len(),
        present@.len() == labels@.len(),
    ensures
        jobs_view(r@) == chain_jobs(strs(dirs@), strs(labels@), present@, labels@.len() as int),
{
    let ghost dv = strs(dirs@);
    let ghost lv = strs(labels@);
    let mut out: Vec<SureJob> = Vec::new();
    let mut k: usize = 0;
    assert(jobs_view(out@) =~= Seq::<SureJobView>::empty());
    while k < labels.len()
        invariant
            k <= labels@.len(),
            dirs@.len() == labels@.len(),
            present@.len() == labels@.len(),
            dv == strs(dirs@),
            lv == strs(labels@),
            jobs_view(out@) == chain_jobs(dv, lv, present@, k as int),
        decreases labels@.len() - k,
    {
        if !present[k] {
            let old = if k == 0 {
                None
            } else {
                Some(labels[k - 1].clone())
            };
            let job = SureJob { dir: dirs[k].clone(), old, name: labels[k].clone() };
            let ghost before = out@;
            out.push(job);
            assert(jobs_view(out@) =~= jobs_view(before).push(job@));
        }
        k = k + 1;
    }
    out
}

} // verus!
