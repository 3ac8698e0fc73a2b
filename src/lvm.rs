//! Logical volumes, as `lvs --separator |` lists them.
use vstd::prelude::*;
use vstd::seq_lib::{to_multiset_build, to_multiset_insert};

use crate::command::CommandLine;
use crate::sudo::Sudoer;
use crate::text::{chars_of, lines, lines_of, split_chars, split_on, string_of, strs};

verus! {

#[derive(Debug)]
pub enum Error {
    /// Running the listing failed; the text says how.
    Io(String),
    /// The listing exited with a failure status; the text describes it.
    Command(String),
    /// The listing had an unexpected shape.
    Message(String),
}

pub enum ErrorView {
    Io(Seq<char>),
    Command(Seq<char>),
    Message(Seq<char>),
}

impl View for Error {
    type V = ErrorView;

    open spec fn view(&self) -> ErrorView {
        match self {
            Error::Io(s) => ErrorView::Io(s@),
            Error::Command(s) => ErrorView::Command(s@),
            Error::Message(s) => ErrorView::Message(s@),
        }
    }
}

impl Error {
    pub fn message(text: &str) -> (r: Error)
        ensures
            r@ == ErrorView::Message(text@),
    {
        Error::Message(text.to_owned())
    }
}

/// One logical volume and its volume group.
#[derive(Debug, PartialEq, Eq, PartialOrd, Ord)]
pub struct LvmEntry {
    pub lv: String,
    pub vg: String,
}

impl View for LvmEntry {
    type V = (Seq<char>, Seq<char>);

    open spec fn view(&self) -> (Seq<char>, Seq<char>) {
        (self.lv@, self.vg@)
    }
}

pub open spec fn entries_view(v: Seq<LvmEntry>) -> Seq<(Seq<char>, Seq<char>)> {
    v.map_values(|e: LvmEntry| e@)
}

/// The logical volumes, ordered by volume name, then group name.
#[derive(Debug)]
pub struct LvmInfo {
    pub entries: Vec<LvmEntry>,
}

/// `a` comes before `b` in lexicographic order of characters (which is the
/// byte order of their UTF-8 encodings).
pub open spec fn seq_lt(a: Seq<char>, b: Seq<char>) -> bool
    decreases a.len(),
{
    if a.len() == 0 {
        b.len() > 0
    } else if b.len() == 0 {
        false
    } else if a[0] != b[0] {
        a[0] < b[0]
    } else {
        seq_lt(a.skip(1), b.skip(1))
    }
}

/// The order of entries: by volume name, then by group name.
pub open spec fn entry_lt(a: (Seq<char>, Seq<char>), b: (Seq<char>, Seq<char>)) -> bool {
    seq_lt(a.0, b.0) || (a.0 == b.0 && seq_lt(a.1, b.1))
}

pub open spec fn sorted_entries(s: Seq<(Seq<char>, Seq<char>)>) -> bool {
    forall|i: int, j: int| 0 <= i < j < s.len() ==> !entry_lt(s[j], s[i])
}

pub proof fn lemma_seq_lt_trans(a: Seq<char>, b: Seq<char>, c: Seq<char>)
    requires
        seq_lt(a, b),
        seq_lt(b, c),
    ensures
        seq_lt(a, c),
    decreases a.len(),
{
    if a.len() > 0 && b.len() > 0 && c.len() > 0 {
        if a[0] == b[0] && b[0] == c[0] {
            lemma_seq_lt_trans(a.skip(1), b.skip(1), c.skip(1));
        }
    }
}

pub proof fn lemma_seq_lt_irrefl(a: Seq<char>)
    ensures
        !seq_lt(a, a),
    decreases a.len(),
{
    if a.len() > 0 {
        lemma_seq_lt_irrefl(a.skip(1));
    }
}

pub proof fn lemma_entry_lt_trans(
    a: (Seq<char>, Seq<char>),
    b: (Seq<char>, Seq<char>),
    c: (Seq<char>, Seq<char>),
)
    requires
        entry_lt(a, b),
        entry_lt(b, c),
    ensures
        entry_lt(a, c),
{
    if seq_lt(a.0, b.0) && seq_lt(b.0, c.0) {
        lemma_seq_lt_trans(a.0, b.0, c.0);
    } else if seq_lt(a.1, b.1) && seq_lt(b.1, c.1) && a.0 == b.0 && b.0 == c.0 {
        lemma_seq_lt_trans(a.1, b.1, c.1);
    }
}

/// Compares two strings in the order of `seq_lt`.
pub fn str_lt(a: &str, b: &str) -> (r: bool)
    ensures
        r == seq_lt(a@, b@),
{
    let av = chars_of(a);
    let bv = chars_of(b);
    let mut i: usize = 0;
    assert(av@.skip(0) =~= av@);
    assert(bv@.skip(0) =~= bv@);
    loop
        invariant
            i <= av@.len(),
            i <= bv@.len(),
            av@ == a@,
            bv@ == b@,
            seq_lt(a@, b@) == seq_lt(av@.skip(i as int), bv@.skip(i as int)),
        decreases av@.len() - i,
    {
        let ghost sa = av@.skip(i as int);
        let ghost sb = bv@.skip(i as int);
        if i == av.len() {
            return i < bv.len();
        }
        if i == bv.len() {
            return false;
        }
        assert(sa[0] == av@[i as int]);
        assert(sb[0] == bv@[i as int]);
        if av[i] != bv[i] {
            return av[i] < bv[i];
        }
        assert(sa.skip(1) =~= av@.skip(i as int + 1));
        assert(sb.skip(1) =~= bv@.skip(i as int + 1));
        i = i + 1;
    }
}

fn entry_less(a: &LvmEntry, b: &LvmEntry) -> (r: bool)
    ensures
        r == entry_lt(a@, b@),
{
    if str_lt(a.lv.as_str(), b.lv.as_str()) {
        true
    } else if a.lv == b.lv {
        str_lt(a.vg.as_str(), b.vg.as_str())
    } else {
        false
    }
}

/// The line without the two spaces that open every line of the listing.
pub open spec fn ltrim_spec(line: Seq<char>) -> Result<Seq<char>, ErrorView> {
    if line.len() < 3 {
        Err(ErrorView::Message("LVM input line too short"@))
    } else if line.take(2) != seq![' ', ' '] {
        Err(ErrorView::Message("LVM input line doesn't start with two spaces"@))
    } else {
        Ok(line.skip(2))
    }
}

/// The position of the first field `name`.
pub open spec fn first_pos(f: Seq<Seq<char>>, name: Seq<char>) -> Option<int>
    decreases f.len(),
{
    if f.len() == 0 {
        None
    } else if f[0] == name {
        Some(0)
    } else {
        match first_pos(f.skip(1), name) {
            Some(i) => Some(i + 1),
            None => None,
        }
    }
}

proof fn lemma_first_pos(f: Seq<Seq<char>>, name: Seq<char>, i: int)
    requires
        0 <= i <= f.len(),
        forall|j: int| 0 <= j < i ==> f[j] != name,
        i < f.len() ==> f[i] == name,
    ensures
        first_pos(f, name) == (if i < f.len() {
            Some(i)
        } else {
            None::<int>
        }),
    decreases f.len(),
{
    if f.len() > 0 && i > 0 {
        assert forall|j: int| 0 <= j < i - 1 implies f.skip(1)[j] != name by {
            assert(f.skip(1)[j] == f[j + 1]);
        }
        lemma_first_pos(f.skip(1), name, i - 1);
    }
}

pub open spec fn has_dup(f: Seq<Seq<char>>) -> bool {
    exists|i: int, j: int| 0 <= i < j < f.len() && f[i] == f[j]
}

/// The positions of the `LV` and `VG` columns that a header line gives.
pub open spec fn decoder_spec(header: Seq<char>) -> Result<(int, int), ErrorView> {
    match ltrim_spec(header) {
        Err(e) => Err(e),
        Ok(t) => {
            let f = split_on(t, '|');
            if has_dup(f) {
                Err(ErrorView::Message("Duplicate key in LVM output"@))
            } else {
                match first_pos(f, "LV"@) {
                    None => Err(ErrorView::Message("missing key from LVM: "@ + "LV"@)),
                    Some(l) => match first_pos(f, "VG"@) {
                        None => Err(ErrorView::Message("missing key from LVM: "@ + "VG"@)),
                        Some(v) => Ok((l, v)),
                    },
                }
            }
        },
    }
}

/// The entry that a line of the listing gives, with the columns at `lv` and `vg`.
pub open spec fn decode_spec(lv: int, vg: int, line: Seq<char>) -> Result<
    (Seq<char>, Seq<char>),
    ErrorView,
> {
    match ltrim_spec(line) {
        Err(e) => Err(e),
        Ok(t) => {
            let f = split_on(t, '|');
            if lv < f.len() && vg < f.len() {
                Ok((f[lv], f[vg]))
            } else {
                Err(ErrorView::Message("LVM line has too few fields"@))
            }
        },
    }
}

/// The entries of the lines after the header, or the first fault.
pub open spec fn decode_all(lv: int, vg: int, ls: Seq<Seq<char>>) -> Result<
    Seq<(Seq<char>, Seq<char>)>,
    ErrorView,
>
    decreases ls.len(),
{
    if ls.len() == 0 {
        Ok(Seq::empty())
    } else {
        match decode_all(lv, vg, ls.drop_last()) {
            Err(e) => Err(e),
            Ok(es) => match decode_spec(lv, vg, ls.last()) {
                Err(e) => Err(e),
                Ok(x) => Ok(es.push(x)),
            },
        }
    }
}

proof fn lemma_decode_all_err(lv: int, vg: int, ls: Seq<Seq<char>>, k: int)
    requires
        0 <= k <= ls.len(),
        decode_all(lv, vg, ls.take(k)) is Err,
    ensures
        decode_all(lv, vg, ls) == decode_all(lv, vg, ls.take(k)),
    decreases ls.len() - k,
{
    if k < ls.len() {
        assert(ls.take(k + 1).drop_last() =~= ls.take(k));
        lemma_decode_all_err(lv, vg, ls, k + 1);
    } else {
        assert(ls.take(k) =~= ls);
    }
}

/// The entries that a whole listing gives, before sorting.
pub open spec fn listing_spec(text: Seq<char>) -> Result<Seq<(Seq<char>, Seq<char>)>, ErrorView> {
    let ls = lines_of(text);
    if ls.len() == 0 {
        Err(ErrorView::Message("lvm had no header line"@))
    } else {
        match decoder_spec(ls[0]) {
            Err(e) => Err(e),
            Ok((lv, vg)) => decode_all(lv, vg, ls.skip(1)),
        }
    }
}

/// Reads the columns of the listing from its header line.
pub struct LvmDecoder {
    lv_pos: usize,
    vg_pos: usize,
}

impl View for LvmDecoder {
    type V = (int, int);

    closed spec fn view(&self) -> (int, int) {
        (self.lv_pos as int, self.vg_pos as int)
    }
}

impl LvmDecoder {
    pub fn new(header: &str) -> (r: Result<LvmDecoder, Error>)
        ensures
            match r {
                Ok(d) => decoder_spec(header@) == Ok::<(int, int), ErrorView>(d@),
                Err(e) => decoder_spec(header@) == Err::<(int, int), ErrorView>(e@),
            },
    {
        let t = match LvmDecoder::ltrim(header) {
            Ok(t) => t,
            Err(e) => return Err(e),
        };
        let tv = chars_of(t.as_str());
        let fields = split_chars(&tv, '|');
        let ghost f = strs(fields@);
        let ghost tt = t@;
        let mut i: usize = 0;
        while i < fields.len()
            invariant
                i <= fields@.len(),
                f == strs(fields@),
                ltrim_spec(header@) == Ok::<Seq<char>, ErrorView>(tt),
                f == split_on(tt, '|'),
                forall|a: int, b: int| 0 <= a < b < i ==> f[a] != f[b],
            decreases fields@.len() - i,
        {
            let mut j: usize = 0;
            while j < i
                invariant
                    j <= i < fields@.len(),
                    f == strs(fields@),
                    ltrim_spec(header@) == Ok::<Seq<char>, ErrorView>(tt),
                    f == split_on(tt, '|'),
                    forall|a: int| 0 <= a < j ==> f[a] != f[i as int],
                decreases i - j,
            {
                if fields[j] == fields[i] {
                    assert(f[j as int] == f[i as int]);
                    assert(has_dup(f));
                    return Err(Error::message("Duplicate key in LVM output"));
                }
                j = j + 1;
            }
            i = i + 1;
        }
        assert(!has_dup(f)) by {
            if has_dup(f) {
                let (a, b) = choose|a: int, b: int| 0 <= a < b < f.len() && f[a] == f[b];
            }
        }
        let lv_pos = match LvmDecoder::find_field(&fields, "LV") {
            Ok(p) => p,
            Err(e) => return Err(e),
        };
        let vg_pos = match LvmDecoder::find_field(&fields, "VG") {
            Ok(p) => p,
            Err(e) => return Err(e),
        };
        Ok(LvmDecoder { lv_pos, vg_pos })
    }

    /// Decodes one line of the listing.
    pub fn decode(&self, line: &str) -> (r: Result<LvmEntry, Error>)
        ensures
            match r {
                Ok(e) => decode_spec(self@.0, self@.1, line@) == Ok::<
                    (Seq<char>, Seq<char>),
                    ErrorView,
                >(e@),
                Err(e) => decode_spec(self@.0, self@.1, line@) == Err::<
                    (Seq<char>, Seq<char>),
                    ErrorView,
                >(e@),
            },
    {
        let t = match LvmDecoder::ltrim(line) {
            Ok(t) => t,
            Err(e) => return Err(e),
        };
        let tv = chars_of(t.as_str());
        let fields = split_chars(&tv, '|');
        if self.lv_pos >= fields.len() || self.vg_pos >= fields.len() {
            return Err(Error::message("LVM line has too few fields"));
        }
        Ok(LvmEntry { lv: fields[self.lv_pos].clone(), vg: fields[self.vg_pos].clone() })
    }

    /// The line without its two leading spaces.
    pub fn ltrim(line: &str) -> (r: Result<String, Error>)
        ensures
            match r {
                Ok(s) => ltrim_spec(line@) == Ok::<Seq<char>, ErrorView>(s@),
                Err(e) => ltrim_spec(line@) == Err::<Seq<char>, ErrorView>(e@),
            },
    {
        let v = chars_of(line);
        if v.len() < 3 {
            return Err(Error::message("LVM input line too short"));
        }
        if !(v[0] == ' ' && v[1] == ' ') {
            assert(v@.take(2)[0] == v@[0] && v@.take(2)[1] == v@[1]);
            return Err(Error::message("LVM input line doesn't start with two spaces"));
        }
        assert(v@.take(2) =~= seq![' ', ' ']);
        let s = string_of(&v, 2, v.len());
        assert(s@ =~= line@.skip(2));
        Ok(s)
    }

    /// The position of the field `name`.
    pub fn find_field(fields: &Vec<String>, name: &str) -> (r: Result<usize, Error>)
        ensures
            match first_pos(strs(fields@), name@) {
                Some(p) => r matches Ok(q) && q == p,
                None => r matches Err(e) && e@ == ErrorView::Message(
                    "missing key from LVM: "@ + name@,
                ),
            },
    {
        let want = name.to_owned();
        let ghost f = strs(fields@);
        let mut i: usize = 0;
        while i < fields.len()
            invariant
                i <= fields@.len(),
                f == strs(fields@),
                want@ == name@,
                forall|j: int| 0 <= j < i ==> f[j] != name@,
            decreases fields@.len() - i,
        {
            if fields[i] == want {
                proof {
                    lemma_first_pos(f, name@, i as int);
                }
                return Ok(i);
            }
            i = i + 1;
        }
        proof {
            lemma_first_pos(f, name@, i as int);
        }
        let mut msg = "missing key from LVM: ".to_owned();
        msg.append(name);
        Err(Error::Message(msg))
    }
}

/// The command line that lists the logical volumes, run with privilege.
pub fn lvs_command<S: Sudoer>(sudo: &S) -> (r: CommandLine)
    ensures
        r@ == sudo.cmd_words("lvs"@) + seq!["--separator"@, "|"@],
{
    let mut c = sudo.cmd("lvs");
    let ghost start = c@;
    c.arg("--separator");
    c.arg("|");
    assert(c@ =~= start + seq!["--separator"@, "|"@]);
    c
}

impl LvmInfo {
    /// Reads the listing printed by `lvs --separator |`: a header line, then
    /// one line per volume; the entries come out sorted.
    pub fn parse(text: &str) -> (r: Result<LvmInfo, Error>)
        ensures
            match r {
                Ok(info) => listing_spec(text@) matches Ok(es) && sorted_entries(
                    entries_view(info.entries@),
                ) && entries_view(info.entries@).to_multiset() == es.to_multiset(),
                Err(e) => listing_spec(text@) == Err::<Seq<(Seq<char>, Seq<char>)>, ErrorView>(e@),
            },
    {
        let ls = lines(text);
        let ghost all = strs(ls@);
        if ls.len() == 0 {
            return Err(Error::message("lvm had no header line"));
        }
        let dec = match LvmDecoder::new(ls[0].as_str()) {
            Ok(d) => d,
            Err(e) => return Err(e),
        };
        let ghost rest = all.skip(1);
        let ghost (lv, vg) = dec@;
        let mut items: Vec<LvmEntry> = Vec::new();
        let ghost mut got: Seq<(Seq<char>, Seq<char>)> = Seq::empty();
        let mut i: usize = 1;
        assert(rest.take(0) =~= Seq::<Seq<char>>::empty());
        assert(entries_view(items@) =~= Seq::<(Seq<char>, Seq<char>)>::empty());

        while i < ls.len()
            invariant
                1 <= i <= ls@.len(),
                all == strs(ls@),
                all == lines_of(text@),
                rest == all.skip(1),
                dec@ == (lv, vg),
                decoder_spec(all[0]) == Ok::<(int, int), ErrorView>((lv, vg)),
                decode_all(lv, vg, rest.take(i - 1)) == Ok::<
                    Seq<(Seq<char>, Seq<char>)>,
                    ErrorView,
                >(got),
                sorted_entries(entries_view(items@)),
                entries_view(items@).to_multiset() == got.to_multiset(),
            decreases ls@.len() - i,
        {
            proof {
                assert(rest.take(i as int).drop_last() =~= rest.take(i - 1));
                assert(rest.take(i as int).last() == ls@[i as int]@);
            }
            let e = match dec.decode(ls[i].as_str()) {
                Ok(e) => e,
                Err(err) => {
                    proof {
                        lemma_decode_all_err(lv, vg, rest, i as int);
                    }
                    return Err(err);
                },
            };
            // Insert after every entry that does not come after it.
            let mut p: usize = 0;
            while p < items.len()
                invariant
                    p <= items@.len(),
                    forall|k: int| 0 <= k < p ==> !entry_lt(e@, #[trigger] items@[k]@),
                    entries_view(items@).to_multiset() == got.to_multiset(),
                    sorted_entries(entries_view(items@)),
                ensures
                    entries_view(items@).to_multiset() == got.to_multiset(),
                    sorted_entries(entries_view(items@)),
                    p <= items@.len(),
                    forall|k: int| 0 <= k < p ==> !entry_lt(e@, #[trigger] items@[k]@),
                    p < items@.len() ==> entry_lt(e@, items@[p as int]@),
                decreases items@.len() - p,
            {
                if entry_less(&e, &items[p]) {
                    break;
                }
                p = p + 1;
            }
            let ghost before = entries_view(items@);
            proof {
                assert(p < items@.len() ==> entry_lt(e@, before[p as int]));
            }
            items.insert(p, e);
            proof {
                let now = entries_view(items@);
                assert(now =~= before.insert(p as int, e@));
                to_multiset_insert(before, p as int, e@);
                to_multiset_build(got, e@);
                got = got.push(e@);
                assert forall|a: int, b: int| 0 <= a < b < now.len() implies !entry_lt(
                    now[b],
                    now[a],
                ) by {
                    if a == p {
                        if entry_lt(now[b], e@) {
                            lemma_entry_lt_trans(now[b], e@, before[p as int]);
                            assert(now[b] == before[b - 1]);
                            if b - 1 > p {
                                assert(!entry_lt(before[b - 1], before[p as int]));
                            } else {
                                lemma_seq_lt_irrefl(before[p as int].0);
                                lemma_seq_lt_irrefl(before[p as int].1);
                            }
                        }
                    } else if b == p {
                        assert(now[a] == before[a]);
                        assert(!entry_lt(e@, items@[a]@));
                    } else {
                        let a0 = if a < p {
                            a
                        } else {
                            a - 1
                        };
                        let b0 = if b < p {
                            b
                        } else {
                            b - 1
                        };
                        assert(now[a] == before[a0]);
                        assert(now[b] == before[b0]);
                    }
                }
            }
            i = i + 1;
        }
        proof {
            assert(rest.take(ls@.len() - 1) =~= rest);
        }
        Ok(LvmInfo { entries: items })
    }
}

} // verus!
