//! Dataset properties, as `get -Hp all <dataset>` prints them.
use vstd::prelude::*;

use crate::catalog::DataSet;
use crate::command::CommandLine;
use crate::endpoint::ZfsPath;
use crate::error::{ZfsError, ZfsErrorView};
use crate::text::{lines, lines_of, split_once, split_once_spec, strs};

verus! {

/// One property: its name, its value and where the value comes from.
#[derive(Debug)]
pub struct Prop {
    name: String,
    value: String,
    origin: String,
}

pub struct PropView {
    pub name: Seq<char>,
    pub value: Seq<char>,
    pub origin: Seq<char>,
}

impl View for Prop {
    type V = PropView;

    closed spec fn view(&self) -> PropView {
        PropView { name: self.name@, value: self.value@, origin: self.origin@ }
    }
}

impl Prop {
    pub fn new(name: &str, value: &str, origin: &str) -> (r: Prop)
        ensures
            r@ == (PropView { name: name@, value: value@, origin: origin@ }),
    {
        Prop { name: name.to_owned(), value: value.to_owned(), origin: origin.to_owned() }
    }
}

/// The properties of one dataset, in the order the tool printed them.
#[derive(Debug)]
pub struct PropSet {
    props: Vec<Prop>,
}

pub open spec fn props_view(v: Seq<Prop>) -> Seq<PropView> {
    v.map_values(|p: Prop| p@)
}

impl View for PropSet {
    type V = Seq<PropView>;

    closed spec fn view(&self) -> Seq<PropView> {
        props_view(self.props@)
    }
}

/// The position of the first property called `name`.
pub open spec fn first_named(props: Seq<PropView>, name: Seq<char>) -> Option<int>
    decreases props.len(),
{
    if props.len() == 0 {
        None
    } else if props[0].name == name {
        Some(0)
    } else {
        match first_named(props.skip(1), name) {
            Some(i) => Some(i + 1),
            None => None,
        }
    }
}

proof fn lemma_first_named(props: Seq<PropView>, name: Seq<char>, i: int)
    requires
        0 <= i <= props.len(),
        forall|j: int| 0 <= j < i ==> (#[trigger] props[j]).name != name,
        i < props.len() ==> props[i].name == name,
    ensures
        first_named(props, name) == (if i < props.len() {
            Some(i)
        } else {
            None::<int>
        }),
    decreases props.len(),
{
    if props.len() > 0 && i > 0 {
        assert forall|j: int| 0 <= j < i - 1 implies (#[trigger] props.skip(1)[j]).name != name by {
            assert(props.skip(1)[j] == props[j + 1]);
        }
        lemma_first_named(props.skip(1), name, i - 1);
    }
}

/// `yes` is true, `no` is false, anything else is no answer.
pub open spec fn yes_no(text: Seq<char>) -> Option<bool> {
    if text == "yes"@ {
        Some(true)
    } else if text == "no"@ {
        Some(false)
    } else {
        None
    }
}

/// The value of the first property called `name`.
pub open spec fn prop_value(props: Seq<PropView>, name: Seq<char>) -> Option<Seq<char>> {
    match first_named(props, name) {
        Some(i) => Some(props[i].value),
        None => None,
    }
}

impl PropSet {
    /// Whether the filesystem is mounted; `None` when the property is absent
    /// or is neither `yes` nor `no`.
    pub fn is_mounted(&self) -> (r: Option<bool>)
        ensures
            r == (match prop_value(self@, "mounted"@) {
                Some(v) => yes_no(v),
                None => None,
            }),
    {
        match self.scan_name("mounted") {
            Some(p) => PropSet::from_yesno(p.value.as_str()),
            None => None,
        }
    }

    /// The mount point of the filesystem, when the property is present.
    pub fn mountpoint(&self) -> (r: Option<&str>)
        ensures
            match prop_value(self@, "mountpoint"@) {
                Some(v) => r is Some && r->0@ == v,
                None => r is None,
            },
    {
        match self.scan_name("mountpoint") {
            Some(p) => Some(p.value.as_str()),
            None => None,
        }
    }

    /// The first property called `name`.
    fn scan_name(&self, name: &str) -> (r: Option<&Prop>)
        ensures
            match first_named(self@, name@) {
                Some(i) => r is Some && r->0@ == self@[i],
                None => r is None,
            },
    {
        let want = name.to_owned();
        let mut i: usize = 0;
        while i < self.props.len()
            invariant
                i <= self.props@.len(),
                want@ == name@,
                forall|j: int| 0 <= j < i ==> (#[trigger] self@[j]).name != name@,
            decreases self.props@.len() - i,
        {
            let p = &self.props[i];
            if p.name == want {
                proof {
                    lemma_first_named(self@, name@, i as int);
                }
                return Some(p);
            }
            i = i + 1;
        }
        proof {
            lemma_first_named(self@, name@, i as int);
        }
        None
    }

    /// Reads a yes/no answer.
    fn from_yesno(text: &str) -> (r: Option<bool>)
        ensures
            r == yes_no(text@),
    {
        let t = text.to_owned();
        if t == "yes".to_owned() {
            Some(true)
        } else if t == "no".to_owned() {
            Some(false)
        } else {
            None
        }
    }
}

/// The three fields after the first of a `get` line, which must have four
/// tab-separated fields (the last may hold tabs).
pub open spec fn prop_fields(line: Seq<char>) -> Option<PropView> {
    match split_once_spec(line, '\t') {
        None => None,
        Some((f0, r0)) => match split_once_spec(r0, '\t') {
            None => None,
            Some((f1, r1)) => match split_once_spec(r1, '\t') {
                None => None,
                Some((f2, f3)) => Some(PropView { name: f1, value: f2, origin: f3 }),
            },
        },
    }
}

/// The properties that the lines of a `get` output describe, or the first
/// line of the wrong shape.
pub open spec fn props_from(lines: Seq<Seq<char>>) -> Result<Seq<PropView>, ZfsErrorView>
    decreases lines.len(),
{
    if lines.len() == 0 {
        Ok(Seq::empty())
    } else {
        match props_from(lines.drop_last()) {
            Err(e) => Err(e),
            Ok(ps) => match prop_fields(lines.last()) {
                None => Err(ZfsErrorView::MalformedOutput(lines.last())),
                Some(p) => Ok(ps.push(p)),
            },
        }
    }
}

proof fn lemma_props_from_err(lines: Seq<Seq<char>>, k: int)
    requires
        0 <= k <= lines.len(),
        props_from(lines.take(k)) is Err,
    ensures
        props_from(lines) == props_from(lines.take(k)),
    decreases lines.len() - k,
{
    if k < lines.len() {
        assert(lines.take(k + 1).drop_last() =~= lines.take(k));
        lemma_props_from_err(lines, k + 1);
    } else {
        assert(lines.take(k) =~= lines);
    }
}

/// Reads the output of `get -Hp all <dataset>`.
pub fn parse_props(text: &str) -> (r: Result<PropSet, ZfsError>)
    ensures
        match r {
            Ok(ps) => props_from(lines_of(text@)) == Ok::<Seq<PropView>, ZfsErrorView>(ps@),
            Err(e) => props_from(lines_of(text@)) == Err::<Seq<PropView>, ZfsErrorView>(e@),
        },
{
    let ls = lines(text);
    let ghost all = strs(ls@);
    let mut result: Vec<Prop> = Vec::new();
    let mut i: usize = 0;
    assert(all.take(0) =~= Seq::<Seq<char>>::empty());
    assert(props_view(result@) =~= Seq::<PropView>::empty());
    while i < ls.len()
        invariant
            i <= ls@.len(),
            all == strs(ls@),
            all == lines_of(text@),
            props_from(all.take(i as int)) == Ok::<Seq<PropView>, ZfsErrorView>(
                props_view(result@),
            ),
        decreases ls@.len() - i,
    {
        let line = &ls[i];
        proof {
            assert(all.take(i as int + 1).drop_last() =~= all.take(i as int));
            assert(all.take(i as int + 1).last() == line@);
        }
        let fields = match split_once(line.as_str(), '\t') {
            None => None,
            Some((_f0, r0)) => match split_once(r0.as_str(), '\t') {
                None => None,
                Some((f1, r1)) => match split_once(r1.as_str(), '\t') {
                    None => None,
                    Some((f2, f3)) => Some(Prop::new(f1.as_str(), f2.as_str(), f3.as_str())),
                },
            },
        };
        match fields {
            None => {
                proof {
                    lemma_props_from_err(all, i as int + 1);
                }
                return Err(ZfsError::MalformedOutput(line.clone()));
            },
            Some(p) => {
                let ghost before = result@;
                result.push(p);
                assert(props_view(result@) =~= props_view(before).push(p@));
            },
        }
        i = i + 1;
    }
    assert(all.take(ls@.len() as int) =~= all);
    Ok(PropSet { props: result })
}

/// The command line `get -Hp all <dataset>[@<snapshot>]` on `place`.
pub fn props_command(place: &ZfsPath, ds: &DataSet, snap: Option<&str>) -> (r: CommandLine)
    ensures
        r@ == place.spec_command() + seq![
            "get"@,
            "-Hp"@,
            "all"@,
            match snap {
                Some(s) => ds.name@ + seq!['@'] + s@,
                None => ds.name@,
            },
        ],
{
    let mut dname = ds.name.clone();
    match snap {
        Some(s) => {
            dname.append("@");
            dname.append(s);
            proof {
                reveal_strlit("@");
            }
            assert(dname@ =~= ds.name@ + seq!['@'] + s@);
        },
        None => {},
    }
    let mut c = place.command();
    let ghost start = c@;
    c.arg("get");
    c.arg("-Hp");
    c.arg("all");
    c.arg(dname.as_str());
    assert(c@ =~= start + seq!["get"@, "-Hp"@, "all"@, dname@]);
    c
}

} // verus!
