//! The host entries of the configuration, and picking the one for this machine.
use vstd::prelude::*;

verus! {

/// One host's settings: its name, the dataset under which its volumes live,
/// and the prefix of its managed snapshots.
#[derive(Clone, Debug)]
pub struct Host {
    pub host: String,
    pub base: String,
    pub snap_prefix: String,
}

#[derive(Debug)]
pub enum ConfigError {
    /// The configuration text could not be read; the text says why.
    Parse(String),
    /// No entry names this host.
    UnknownHost(String),
}

/// All the host entries of a configuration, in the order they were read.
#[derive(Debug)]
pub struct ConfigFile(pub Vec<Host>);

impl ConfigFile {
    /// The first entry for the host called `host`.
    pub fn lookup(&self, host: &str) -> (r: Result<&Host, ConfigError>)
        ensures
            match r {
                Ok(h) => exists|i: int|
                    0 <= i < self.0@.len() && self.0@[i] == *h && h.host@ == host@ && forall|
                        j: int,
                    | 0 <= j < i ==> (#[trigger] self.0@[j]).host@ != host@,
                Err(ConfigError::UnknownHost(name)) => name@ == host@ && forall|j: int|
                    0 <= j < self.0@.len() ==> (#[trigger] self.0@[j]).host@ != host@,
                Err(_) => false,
            },
    {
        let want = host.to_owned();
        let mut i: usize = 0;
        while i < self.0.len()
            invariant
                i <= self.0@.len(),
                want@ == host@,
                forall|j: int| 0 <= j < i ==> (#[trigger] self.0@[j]).host@ != host@,
            decreases self.0@.len() - i,
        {
            let ent = &self.0[i];
            if ent.host == want {
                return Ok(ent);
            }
            i = i + 1;
        }
        Err(ConfigError::UnknownHost(want))
    }
}

/// A string-valued field of an entry, or a field of another type (`None`).
pub type FieldView = (Seq<char>, Option<Seq<char>>);

/// The top-level values of a TOML text, in key order, when it parses: each a
/// table of fields, or `None` where the value is not a table.
pub uninterp spec fn toml_entries_of(text: Seq<char>) -> Option<Seq<Option<Seq<FieldView>>>>;

pub open spec fn fields_view(v: Seq<(String, Option<String>)>) -> Seq<FieldView> {
    v.map_values(
        |f: (String, Option<String>)|
            (
                f.0@,
                match f.1 {
                    Some(x) => Some(x@),
                    None => None,
                },
            ),
    )
}

pub open spec fn entries_view(v: Seq<Option<Vec<(String, Option<String>)>>>) -> Seq<
    Option<Seq<FieldView>>,
> {
    v.map_values(
        |e: Option<Vec<(String, Option<String>)>>|
            match e {
                Some(f) => Some(fields_view(f@)),
                None => None,
            },
    )
}

/// Relies on toml's `FromStr for toml::Table`: the text parses, or not, and
/// the parsed table depends on the text alone (its map keeps keys in order);
/// each top-level value is converted to its fields, each field to its string,
/// if it is one.
#[verifier::external_body]
fn toml_entries(text: &str) -> (r: Result<Vec<Option<Vec<(String, Option<String>)>>>, String>)
    ensures
        match r {
            Ok(v) => toml_entries_of(text@) == Some(entries_view(v@)),
            Err(_) => toml_entries_of(text@) is None,
        },
{
    let table: toml::Table = text.parse().map_err(|e: toml::de::Error| e.to_string())?;
    Ok(table.values().map(|v| v.as_table().map(|t| t.iter().map(|(k, x)|
        (k.clone(), x.as_str().map(|s| s.to_owned()))).collect())).collect())
}

/// The string value of the first field called `name`.
pub open spec fn field_of(fields: Seq<FieldView>, name: Seq<char>) -> Option<Seq<char>>
    decreases fields.len(),
{
    if fields.len() == 0 {
        None
    } else if fields[0].0 == name {
        fields[0].1
    } else {
        field_of(fields.skip(1), name)
    }
}

/// The host that an entry describes: a table with the string fields `host`,
/// `base` and `snap_prefix`.
pub open spec fn host_of(entry: Option<Seq<FieldView>>) -> Option<(Seq<char>, Seq<char>, Seq<char>)> {
    match entry {
        None => None,
        Some(f) => match (field_of(f, "host"@), field_of(f, "base"@), field_of(f, "snap_prefix"@)) {
            (Some(h), Some(b), Some(p)) => Some((h, b, p)),
            _ => None,
        },
    }
}

/// The hosts of all entries, if every entry describes one.
pub open spec fn hosts_of(entries: Seq<Option<Seq<FieldView>>>) -> Option<
    Seq<(Seq<char>, Seq<char>, Seq<char>)>,
>
    decreases entries.len(),
{
    if entries.len() == 0 {
        Some(Seq::empty())
    } else {
        match (hosts_of(entries.drop_last()), host_of(entries.last())) {
            (Some(hs), Some(h)) => Some(hs.push(h)),
            _ => None,
        }
    }
}

pub open spec fn hosts_view(v: Seq<Host>) -> Seq<(Seq<char>, Seq<char>, Seq<char>)> {
    v.map_values(|h: Host| (h.host@, h.base@, h.snap_prefix@))
}

proof fn lemma_hosts_of_none(entries: Seq<Option<Seq<FieldView>>>, k: int)
    requires
        0 <= k <= entries.len(),
        hosts_of(entries.take(k)) is None,
    ensures
        hosts_of(entries) is None,
    decreases entries.len() - k,
{
    if k < entries.len() {
        assert(entries.take(k + 1).drop_last() =~= entries.take(k));
        lemma_hosts_of_none(entries, k + 1);
    } else {
        assert(entries.take(k) =~= entries);
    }
}

fn find_field(fields: &Vec<(String, Option<String>)>, name: &str) -> (r: Option<String>)
    ensures
        match field_of(fields_view(fields@), name@) {
            Some(v) => r is Some && r->0@ == v,
            None => r is None,
        },
{
    let want = name.to_owned();
    let ghost fv = fields_view(fields@);
    let mut i: usize = 0;
    assert(fv.skip(0) =~= fv);
    while i < fields.len()
        invariant
            i <= fields@.len(),
            want@ == name@,
            fv == fields_view(fields@),
            field_of(fv.skip(i as int), name@) == field_of(fv, name@),
        decreases fields@.len() - i,
    {
        let f = &fields[i];
        assert(fv.skip(i as int)[0] == fv[i as int]);
        if f.0 == want {
            return match &f.1 {
                Some(v) => Some(v.clone()),
                None => None,
            };
        }
        assert(fv.skip(i as int).skip(1) =~= fv.skip(i as int + 1));
        i = i + 1;
    }
    None
}

impl ConfigFile {
    /// The host entries of TOML values already read: every entry must be a
    /// table with the string fields `host`, `base` and `snap_prefix`.
    pub fn from_entries(entries: &Vec<Option<Vec<(String, Option<String>)>>>) -> (r: Result<
        ConfigFile,
        ConfigError,
    >)
        ensures
            match hosts_of(entries_view(entries@)) {
                Some(hs) => r matches Ok(c) && hosts_view(c.0@) == hs,
                None => r matches Err(ConfigError::Parse(_)),
            },
    {
        let ghost ev = entries_view(entries@);
        let mut out: Vec<Host> = Vec::new();
        let mut i: usize = 0;
        assert(ev.take(0) =~= Seq::<Option<Seq<FieldView>>>::empty());
        assert(hosts_view(out@) =~= Seq::<(Seq<char>, Seq<char>, Seq<char>)>::empty());
        while i < entries.len()
            invariant
                i <= entries@.len(),
                ev == entries_view(entries@),
                hosts_of(ev.take(i as int)) == Some(hosts_view(out@)),
            decreases entries@.len() - i,
        {
            proof {
                assert(ev.take(i as int + 1).drop_last() =~= ev.take(i as int));
                assert(ev.take(i as int + 1).last() == ev[i as int]);
            }
            let host = match &entries[i] {
                None => None,
                Some(fields) => {
                    let h = find_field(fields, "host");
                    let b = find_field(fields, "base");
                    let p = find_field(fields, "snap_prefix");
                    match (h, b, p) {
                        (Some(h), Some(b), Some(p)) => Some(Host { host: h, base: b, snap_prefix: p }),
                        _ => None,
                    }
                },
            };
            match host {
                None => {
                    proof {
                        lemma_hosts_of_none(ev, i as int + 1);
                    }
                    return Err(ConfigError::Parse("a host entry lacks host, base or snap_prefix".to_owned()));
                },
                Some(h) => {
                    let ghost before = out@;
                    out.push(h);
                    assert(hosts_view(out@) =~= hosts_view(before).push((h.host@, h.base@, h.snap_prefix@)));
                },
            }
            i = i + 1;
        }
        assert(ev.take(entries@.len() as int) =~= ev);
        Ok(ConfigFile(out))
    }

    /// Reads a configuration text: a TOML table whose values are the host
    /// entries.
    pub fn parse(text: &str) -> (r: Result<ConfigFile, ConfigError>)
        ensures
            match toml_entries_of(text@) {
                None => r matches Err(ConfigError::Parse(_)),
                Some(es) => match hosts_of(es) {
                    Some(hs) => r matches Ok(c) && hosts_view(c.0@) == hs,
                    None => r matches Err(ConfigError::Parse(_)),
                },
            },
    {
        match toml_entries(text) {
            Err(e) => Err(ConfigError::Parse(e)),
            Ok(entries) => ConfigFile::from_entries(&entries),
        }
    }
}

} // verus!
