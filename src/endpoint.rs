//! Where a tree of volumes lives: on this machine, or on a host reached by a
//! remote shell.
use vstd::prelude::*;

use crate::command::CommandLine;
use crate::text::{find_char, lemma_find_char, lemma_find_char_found, split_once, split_once_spec};

verus! {

/// A path on this machine; the volume tool runs here.
#[derive(Debug)]
pub struct ZfsLocalPath(pub String);

/// A path on another host; the volume tool runs there through the remote shell.
#[derive(Debug)]
pub struct ZfsRemotePath {
    /// The host, as the remote shell takes it.
    pub host: String,
    /// The volume path on that host.
    pub path: String,
}

/// A place that holds volumes, and how to run the volume tool on it.
#[derive(Debug)]
pub enum ZfsPath {
    Local(ZfsLocalPath),
    Remote(ZfsRemotePath),
}

impl ZfsRemotePath {
    /// Reads `host:path`, cut at the first colon; `None` when there is none.
    pub fn parse(text: &str) -> (r: Option<ZfsRemotePath>)
        ensures
            match split_once_spec(text@, ':') {
                None => r is None,
                Some((h, p)) => r is Some && r->0.host@ == h && r->0.path@ == p,
            },
    {
        match split_once(text, ':') {
            None => None,
            Some((host, path)) => Some(ZfsRemotePath { host, path }),
        }
    }
}

impl ZfsPath {
    /// Whether this is a remote path, and its host and path.
    pub open spec fn spec_remote(&self) -> Option<(Seq<char>, Seq<char>)> {
        match self {
            ZfsPath::Local(_) => None,
            ZfsPath::Remote(r) => Some((r.host@, r.path@)),
        }
    }

    /// The volume path, without any host.
    pub open spec fn spec_name(&self) -> Seq<char> {
        match self {
            ZfsPath::Local(l) => l.0@,
            ZfsPath::Remote(r) => r.path@,
        }
    }

    /// The words that run the volume tool on this place.
    pub open spec fn spec_command(&self) -> Seq<Seq<char>> {
        match self {
            ZfsPath::Local(_) => seq!["zfs"@],
            ZfsPath::Remote(r) => seq!["ssh"@, r.host@, "zfs"@],
        }
    }

    /// Reads a place: remote when the text has a colon, local otherwise.
    pub fn parse(text: &str) -> (r: ZfsPath)
        ensures
            match split_once_spec(text@, ':') {
                None => r.spec_remote() is None && r.spec_name() == text@,
                Some((h, p)) => r.spec_remote() == Some((h, p)),
            },
    {
        match ZfsRemotePath::parse(text) {
            Some(zp) => ZfsPath::Remote(zp),
            None => ZfsPath::Local(ZfsLocalPath(text.to_owned())),
        }
    }

    /// A local place.
    pub fn local(path: &str) -> (r: ZfsPath)
        ensures
            r.spec_remote() is None,
            r.spec_name() == path@,
    {
        ZfsPath::Local(ZfsLocalPath(path.to_owned()))
    }

    /// The volume path, without any host.
    pub fn name(&self) -> (r: &str)
        ensures
            r@ == self.spec_name(),
    {
        match self {
            ZfsPath::Local(l) => l.0.as_str(),
            ZfsPath::Remote(r) => r.path.as_str(),
        }
    }

    /// The command line that runs the volume tool on this place.
    pub fn command(&self) -> (r: CommandLine)
        ensures
            r@ == self.spec_command(),
    {
        match self {
            ZfsPath::Local(_) => CommandLine::new("zfs"),
            ZfsPath::Remote(r) => {
                let mut c = CommandLine::new("ssh");
                c.arg(r.host.as_str());
                c.arg("zfs");
                assert(c@ =~= seq!["ssh"@, r.host@, "zfs"@]);
                c
            },
        }
    }

    /// The command line `list -H -t all -o name,mountpoint -r <path>`, which
    /// prints the volumes and snapshots under this place.
    pub fn list_command(&self) -> (r: CommandLine)
        ensures
            r@ == self.spec_command() + seq![
                "list"@,
                "-H"@,
                "-t"@,
                "all"@,
                "-o"@,
                "name,mountpoint"@,
                "-r"@,
                self.spec_name(),
            ],
    {
        let mut c = self.command();
        c.arg("list");
        c.arg("-H");
        c.arg("-t");
        c.arg("all");
        c.arg("-o");
        c.arg("name,mountpoint");
        c.arg("-r");
        c.arg(self.name());
        assert(c@ =~= self.spec_command() + seq![
            "list"@,
            "-H"@,
            "-t"@,
            "all"@,
            "-o"@,
            "name,mountpoint"@,
            "-r"@,
            self.spec_name(),
        ]);
        c
    }
}

/// A text without a colon always reads as a local path, and a text with one
/// as a remote path whose host is everything before the first colon.
pub proof fn lemma_colon_decides_place(text: Seq<char>)
    ensures
        !text.contains(':') ==> split_once_spec(text, ':') is None,
        text.contains(':') ==> (split_once_spec(text, ':') matches Some((h, p)) && text == h
            + seq![':'] + p && !h.contains(':')),
{
    if text.contains(':') {
        lemma_find_char_found(text, ':');
        let i = find_char(text, ':')->0;
        assert(text =~= text.take(i) + seq![':'] + text.skip(i + 1));
        assert(!text.take(i).contains(':')) by {
            if text.take(i).contains(':') {
                let j = choose|j: int| 0 <= j < i && text.take(i)[j] == ':';
                assert(text[j] == ':');
            }
        }
    } else {
        lemma_find_char(text, ':', text.len() as int);
    }
}

} // verus!
