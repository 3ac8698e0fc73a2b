//! The dataset catalog: the volume manager's listing, read into datasets and
//! their snapshots.
use vstd::prelude::*;

use crate::error::{ZfsError, ZfsErrorView};
use crate::text::{lines, lines_of, split_once, split_once_spec, strs};

verus! {

/// A volume, with its snapshots in the order the listing gave them.
#[derive(Debug)]
pub struct DataSet {
    pub name: String,
    pub snaps: Vec<String>,
    pub mount: String,
}

pub struct DataSetView {
    pub name: Seq<char>,
    pub snaps: Seq<Seq<char>>,
    pub mount: Seq<char>,
}

impl View for DataSet {
    type V = DataSetView;

    open spec fn view(&self) -> DataSetView {
        DataSetView { name: self.name@, snaps: strs(self.snaps@), mount: self.mount@ }
    }
}

pub open spec fn sets_view(v: Seq<DataSet>) -> Seq<DataSetView> {
    v.map_values(|d: DataSet| d@)
}

/// Adds a volume record to the datasets read so far.
pub open spec fn with_volume(acc: Seq<DataSetView>, name: Seq<char>, mount: Seq<char>) -> Seq<
    DataSetView,
> {
    acc.push(DataSetView { name, snaps: Seq::empty(), mount })
}

/// Adds a snapshot record of volume `name` to the datasets read so far: it
/// belongs to the last volume, which must be that one.
pub open spec fn with_snap(acc: Seq<DataSetView>, name: Seq<char>, snap: Seq<char>) -> Option<
    Seq<DataSetView>,
> {
    if acc.len() == 0 || acc.last().name != name {
        None
    } else {
        let d = acc.last();
        Some(acc.update(acc.len() - 1, DataSetView { snaps: d.snaps.push(snap), ..d }))
    }
}

/// One line of the listing: `<name>\t<mountpoint>`, where a name with an `@`
/// is a snapshot of the volume before it.
pub open spec fn catalog_step(acc: Seq<DataSetView>, line: Seq<char>) -> Result<
    Seq<DataSetView>,
    ZfsErrorView,
> {
    match split_once_spec(line, '\t') {
        None => Err(ZfsErrorView::MalformedOutput(line)),
        Some((f0, f1)) => match split_once_spec(f0, '@') {
            None => Ok(with_volume(acc, f0, f1)),
            Some((vol, snap)) => match with_snap(acc, vol, snap) {
                Some(a) => Ok(a),
                None => Err(ZfsErrorView::StructuralViolation(line)),
            },
        },
    }
}

/// The datasets that the listing `lines` adds to `acc`, or the first fault.
pub open spec fn catalog_from(acc: Seq<DataSetView>, lines: Seq<Seq<char>>) -> Result<
    Seq<DataSetView>,
    ZfsErrorView,
>
    decreases lines.len(),
{
    if lines.len() == 0 {
        Ok(acc)
    } else {
        match catalog_step(acc, lines[0]) {
            Err(e) => Err(e),
            Ok(a) => catalog_from(a, lines.skip(1)),
        }
    }
}

/// The catalog that a whole listing text describes.
pub open spec fn catalog_of(text: Seq<char>) -> Result<Seq<DataSetView>, ZfsErrorView> {
    catalog_from(Seq::empty(), lines_of(text))
}

/// A line that records a snapshot: a name with an `@`, a tab, and more.
pub open spec fn is_snapshot_line(line: Seq<char>) -> bool {
    match split_once_spec(line, '\t') {
        Some((f0, f1)) => split_once_spec(f0, '@') is Some,
        None => false,
    }
}

/// A listing whose first record is a snapshot, before any volume, is refused
/// as a structural violation that names that line.
pub proof fn lemma_snapshot_before_volume(text: Seq<char>)
    requires
        lines_of(text).len() > 0,
        is_snapshot_line(lines_of(text)[0]),
    ensures
        catalog_of(text) == Err::<Seq<DataSetView>, ZfsErrorView>(
            ZfsErrorView::StructuralViolation(lines_of(text)[0]),
        ),
{
}

/// Builds the datasets from the records of a listing, one at a time.
pub struct SnapBuilder {
    work: Vec<DataSet>,
}

impl View for SnapBuilder {
    type V = Seq<DataSetView>;

    closed spec fn view(&self) -> Seq<DataSetView> {
        sets_view(self.work@)
    }
}

impl SnapBuilder {
    pub fn new() -> (r: SnapBuilder)
        ensures
            r@ == Seq::<DataSetView>::empty(),
    {
        let r = SnapBuilder { work: Vec::new() };
        assert(r@ =~= Seq::<DataSetView>::empty());
        r
    }

    pub fn into_sets(self) -> (r: Vec<DataSet>)
        ensures
            sets_view(r@) == self@,
    {
        self.work
    }

    /// Opens a new volume.
    pub fn push_volume(&mut self, name: &str, mount: &str)
        ensures
            final(self)@ == with_volume(old(self)@, name@, mount@),
    {
        let ghost before = self.work@;
        self.work.push(DataSet { name: name.to_owned(), snaps: Vec::new(), mount: mount.to_owned() });
        assert(strs(Seq::<String>::empty()) =~= Seq::<Seq<char>>::empty());
        assert(sets_view(self.work@) =~= with_volume(sets_view(before), name@, mount@));
    }

    /// Adds a snapshot to the volume opened last, which must be `name`.
    pub fn push_snap(&mut self, name: &str, snap: &str) -> (r: Result<(), ()>)
        ensures
            match with_snap(old(self)@, name@, snap@) {
                Some(a) => r is Ok && final(self)@ == a,
                None => r is Err && final(self)@ == old(self)@,
            },
    {
        let pos = self.work.len();
        if pos == 0 {
            return Err(());
        }
        if self.work[pos - 1].name != name.to_owned() {
            return Err(());
        }
        let ghost before = self.work@;
        let mut set = self.work.pop().unwrap();
        assert(before.drop_last() =~= self.work@);
        let ghost sb = set.snaps@;
        let s = snap.to_owned();
        set.snaps.push(s);
        assert(strs(set.snaps@) =~= strs(sb).push(snap@));
        self.work.push(set);
        assert(sets_view(self.work@) =~= with_snap(sets_view(before), name@, snap@).unwrap());
        Ok(())
    }
}

/// Reads the listing printed by `list -H -t all -o name,mountpoint -r <path>`.
pub fn parse_listing(text: &str) -> (r: Result<Vec<DataSet>, ZfsError>)
    ensures
        match r {
            Ok(v) => catalog_of(text@) == Ok::<Seq<DataSetView>, ZfsErrorView>(sets_view(v@)),
            Err(e) => catalog_of(text@) == Err::<Seq<DataSetView>, ZfsErrorView>(e@),
        },
{
    let ls = lines(text);
    let ghost all = strs(ls@);
    let mut builder = SnapBuilder::new();
    let mut i: usize = 0;
    assert(all.skip(0) =~= all);
    while i < ls.len()
        invariant
            i <= ls@.len(),
            all == strs(ls@),
            all == lines_of(text@),
            catalog_from(builder@, all.skip(i as int)) == catalog_of(text@),
        decreases ls@.len() - i,
    {
        let line = &ls[i];
        let ghost rest = all.skip(i as int);
        assert(rest[0] == line@);
        assert(rest.skip(1) =~= all.skip(i as int + 1));
        match split_once(line.as_str(), '\t') {
            None => {
                return Err(ZfsError::MalformedOutput(line.clone()));
            },
            Some((f0, f1)) => {
                match split_once(f0.as_str(), '@') {
                    None => {
                        builder.push_volume(f0.as_str(), f1.as_str());
                    },
                    Some((vol, snap)) => {
                        if builder.push_snap(vol.as_str(), snap.as_str()).is_err() {
                            return Err(ZfsError::StructuralViolation(line.clone()));
                        }
                    },
                }
            },
        }
        i = i + 1;
    }
    assert(all.skip(ls@.len() as int) =~= Seq::<Seq<char>>::empty());
    Ok(builder.into_sets())
}

} // verus!
