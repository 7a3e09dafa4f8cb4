//! Lockfile entries: resolved packages and canister records, and the
//! canonical identity key under which each resolved package is deduplicated.

use vstd::prelude::*;
use vstd::string::*;

use crate::github::RepoInfo;
use crate::strutil::{dash_join, starts_with, str_eq, substr};

verus! {

/// One resolved package of the lockfile. `source` is a storage locator for
/// registry packages, the word `github` for repository packages (with the
/// checkout in `repo`), or `file://` followed by a canonical path for local
/// packages. `dependencies` holds the display keys of its requirements.
#[derive(Debug, Clone)]
pub struct Package {
    pub name: String,
    pub version: Option<String>,
    pub source: String,
    pub base_dir: String,
    pub repo: Option<RepoInfo>,
    pub dependencies: Vec<String>,
}

/// The source kind of a resolved package, with the fields its backend needs.
#[derive(Debug)]
pub enum PackageType<'a> {
    Mops { ver: &'a str, id: &'a str },
    Local(&'a str),
    Repo(&'a RepoInfo),
}

impl Package {
    /// A local package: its source is a `file://` path.
    pub open spec fn spec_is_local(self) -> bool {
        "file://"@.is_prefix_of(self.source@)
    }

    /// A repository package: its source is the word `github`.
    pub open spec fn spec_is_repo(self) -> bool {
        !self.spec_is_local() && self.source@ == "github"@
    }

    /// A registry package: its source is the storage locator.
    pub open spec fn spec_is_registry(self) -> bool {
        !self.spec_is_local() && !self.spec_is_repo()
    }

    /// What every lockfile entry satisfies: the fields its source kind
    /// reads are present, and a repository commit is long enough to carve
    /// a cache-directory name out of it.
    pub open spec fn wf(self) -> bool {
        &&& (self.spec_is_registry() ==> self.version is Some)
        &&& (self.spec_is_repo() ==> self.repo is Some && self.repo->Some_0.commit@.len() >= 8)
    }

    /// The canonical local path of a local package.
    pub open spec fn spec_local_path(self) -> Seq<char>
        recommends
            self.spec_is_local(),
    {
        self.source@.skip(7)
    }

    /// The package's deduplication key: name plus exact version for registry
    /// packages, name plus repository and commit for repository packages,
    /// name plus canonical path for local packages.
    pub open spec fn spec_key(self) -> Seq<char>
        recommends
            self.wf(),
    {
        if self.spec_is_local() {
            self.name@ + seq!['-'] + self.spec_local_path()
        } else if self.spec_is_repo() {
            self.name@ + seq!['-'] + self.repo->Some_0.repo@ + seq!['-']
                + self.repo->Some_0.commit@
        } else {
            self.name@ + seq!['-'] + self.version->Some_0@
        }
    }

    /// The package's cache subdirectory: `mops/<name>-<version>` for registry
    /// packages, `git/<owner>-<name>/<commit prefix>` for repository
    /// packages, the canonical path itself for local packages.
    pub open spec fn spec_path(self) -> Seq<char>
        recommends
            self.wf(),
    {
        if self.spec_is_local() {
            self.spec_local_path()
        } else if self.spec_is_repo() {
            "git/"@ + self.repo->Some_0.repo@.map_values(
                |c: char| if c == '/' { '-' } else { c },
            ) + seq!['/'] + self.repo->Some_0.commit@.subrange(0, 8)
        } else {
            "mops/"@ + self.name@ + seq!['-'] + self.version->Some_0@
        }
    }

    /// The name of the completion marker that proves this package's fetch
    /// finished: empty for local packages, which are never fetched.
    pub open spec fn spec_done_file(self) -> Seq<char>
        recommends
            self.wf(),
    {
        if self.spec_is_local() {
            Seq::empty()
        } else if self.spec_is_repo() {
            "DONE-"@ + self.repo->Some_0.base_dir@.map_values(
                |c: char| if c == '/' { '-' } else { c },
            )
        } else {
            "DONE"@
        }
    }

    /// Dispatches the package by its source kind.
    pub fn get_type<'a>(&'a self) -> (r: PackageType<'a>)
        requires
            self.wf(),
        ensures
            match r {
                PackageType::Mops { ver, id } => self.spec_is_registry() && ver@
                    == self.version->Some_0@ && id@ == self.source@,
                PackageType::Local(p) => self.spec_is_local() && p@ == self.spec_local_path(),
                PackageType::Repo(ri) => self.spec_is_repo() && *ri == self.repo->Some_0,
            },
    {
        proof {
            reveal_strlit("file://");
            reveal_strlit("github");
        }
        if starts_with(self.source.as_str(), "file://") {
            let n = self.source.unicode_len();
            let local = self.source.as_str().substring_char(7, n);
            proof {
                assert(local@ =~= self.source@.skip(7));
            }
            PackageType::Local(local)
        } else if str_eq(self.source.as_str(), "github") {
            match &self.repo {
                Some(ri) => PackageType::Repo(ri),
                None => {
                    proof {
                        assert(false);
                    }
                    unreached()
                },
            }
        } else {
            match &self.version {
                Some(v) => PackageType::Mops { ver: v.as_str(), id: self.source.as_str() },
                None => {
                    proof {
                        assert(false);
                    }
                    unreached()
                },
            }
        }
    }

    /// The package's deduplication key.
    pub fn get_key(&self) -> (r: String)
        requires
            self.wf(),
        ensures
            r@ == self.spec_key(),
    {
        match self.get_type() {
            PackageType::Mops { ver, .. } => dash_join(self.name.as_str(), ver),
            PackageType::Repo(ri) => {
                let head = dash_join(self.name.as_str(), ri.repo.as_str());
                dash_join(head.as_str(), ri.commit.as_str())
            },
            PackageType::Local(p) => dash_join(self.name.as_str(), p),
        }
    }

    /// The package's cache subdirectory.
    pub fn get_path(&self) -> (r: String)
        requires
            self.wf(),
        ensures
            r@ == self.spec_path(),
    {
        match self.get_type() {
            PackageType::Mops { ver, .. } => {
                let mut s: String = "mops/".to_owned();
                s.append(self.name.as_str());
                crate::strutil::push_char(&mut s, '-');
                s.append(ver);
                proof {
                    assert(s@ =~= self.spec_path());
                }
                s
            },
            PackageType::Repo(ri) => {
                let mut s: String = "git/".to_owned();
                let flat = crate::strutil::replace_char(ri.repo.as_str(), '/', '-');
                s.append(flat.as_str());
                crate::strutil::push_char(&mut s, '/');
                let prefix = substr(ri.commit.as_str(), 0, 8);
                s.append(prefix.as_str());
                proof {
                    assert(s@ =~= self.spec_path());
                }
                s
            },
            PackageType::Local(p) => p.to_owned(),
        }
    }

    /// The name of the completion marker for this package's cache directory.
    pub fn get_done_file(&self) -> (r: String)
        requires
            self.wf(),
        ensures
            r@ == self.spec_done_file(),
    {
        match self.get_type() {
            PackageType::Mops { .. } => "DONE".to_owned(),
            PackageType::Repo(ri) => {
                let r = ri.get_done_file();
                proof {
                    assert(r@ =~= self.spec_done_file());
                }
                r
            },
            PackageType::Local(_) => String::new(),
        }
    }

}

/// One canister record of the lockfile: an id-backed entry carries the
/// canister id and, after a live fetch, a timestamp; a type-only entry
/// carries a static interface path and the declared output path. `candid`
/// holds the interface payload or path.
#[derive(Debug, Clone)]
pub struct Canister {
    pub canister_id: Option<String>,
    pub name: Option<String>,
    pub timestamp: Option<String>,
    pub output: Option<String>,
    pub candid: String,
}

/// One canister declaration of the manifest.
#[derive(Debug, Clone)]
pub struct CanisterInfo {
    pub canister_id: Option<String>,
    pub name: Option<String>,
    pub candid: Option<String>,
    pub output: Option<String>,
}

/// The key a canister record or declaration is deduplicated under: its name
/// when present, else its canister id, else its output path.
pub open spec fn spec_canister_key(
    name: Option<Seq<char>>,
    canister_id: Option<Seq<char>>,
    output: Option<Seq<char>>,
) -> Seq<char>
    recommends
        name is Some || canister_id is Some || output is Some,
{
    if name is Some {
        name->Some_0
    } else if canister_id is Some {
        canister_id->Some_0
    } else {
        output->Some_0
    }
}

fn keyed_option(name: &Option<String>, canister_id: &Option<String>, output: &Option<String>) -> (r:
    String)
    requires
        name is Some || canister_id is Some || output is Some,
    ensures
        r@ == spec_canister_key(name.deep_view(), canister_id.deep_view(), output.deep_view()),
{
    match name {
        Some(n) => n.clone(),
        None => match canister_id {
            Some(id) => id.clone(),
            None => match output {
                Some(o) => o.clone(),
                None => {
                    proof {
                        assert(false);
                    }
                    unreached()
                },
            },
        },
    }
}

impl Canister {
    /// A canister record names at least one identity to key it by.
    pub open spec fn wf(self) -> bool {
        self.name is Some || self.canister_id is Some || self.output is Some
    }

    pub open spec fn spec_key(self) -> Seq<char>
        recommends
            self.wf(),
    {
        spec_canister_key(
            self.name.deep_view(),
            self.canister_id.deep_view(),
            self.output.deep_view(),
        )
    }

    /// The record's deduplication key.
    pub fn get_key(&self) -> (r: String)
        requires
            self.wf(),
        ensures
            r@ == self.spec_key(),
    {
        keyed_option(&self.name, &self.canister_id, &self.output)
    }

    /// Whether this record already covers the declaration `new`: the ids
    /// agree, and either a live fetch is recorded and the declaration stays
    /// id-backed, or the declaration's static interface is unchanged.
    pub open spec fn spec_no_need_to_update(self, new: CanisterInfo) -> bool {
        if self.canister_id.deep_view() != new.canister_id.deep_view() {
            false
        } else if self.timestamp is Some {
            new.candid is None
        } else {
            new.candid matches Some(c) && c@ == self.candid@
        }
    }

    /// Decides whether the record for `new`'s key can be kept as is, so that
    /// no interface fetch or rewrite is needed.
    pub fn no_need_to_update(&self, new: &CanisterInfo) -> (r: bool)
        ensures
            r == self.spec_no_need_to_update(*new),
    {
        if !opt_str_eq(&self.canister_id, &new.canister_id) {
            return false;
        }
        if self.timestamp.is_some() {
            new.candid.is_none()
        } else {
            match &new.candid {
                Some(c) => str_eq(c.as_str(), self.candid.as_str()),
                None => false,
            }
        }
    }
}

impl CanisterInfo {
    /// A declaration names at least one identity to key it by.
    pub open spec fn wf(self) -> bool {
        self.name is Some || self.canister_id is Some || self.output is Some
    }

    pub open spec fn spec_key(self) -> Seq<char>
        recommends
            self.wf(),
    {
        spec_canister_key(
            self.name.deep_view(),
            self.canister_id.deep_view(),
            self.output.deep_view(),
        )
    }

    /// The declaration's deduplication key.
    pub fn get_key(&self) -> (r: String)
        requires
            self.wf(),
        ensures
            r@ == self.spec_key(),
    {
        keyed_option(&self.name, &self.canister_id, &self.output)
    }
}

/// Whether two optional strings hold the same text (or are both absent).
pub fn opt_str_eq(a: &Option<String>, b: &Option<String>) -> (r: bool)
    ensures
        r == (a.deep_view() == b.deep_view()),
{
    match (a, b) {
        (Some(x), Some(y)) => str_eq(x.as_str(), y.as_str()),
        (None, None) => true,
        _ => false,
    }
}

/// One requirement discovered in a manifest or in a package's own manifest:
/// a registry version, a repository URL, or a local path.
#[derive(Debug, Clone)]
pub enum Mops {
    Mops { name: String, version: String },
    Repo { name: String, repo: String },
    Local { name: String, path: String },
}

impl Mops {
    /// The requirement's name.
    pub open spec fn spec_name(self) -> Seq<char> {
        match self {
            Mops::Mops { name, .. } => name@,
            Mops::Repo { name, .. } => name@,
            Mops::Local { name, .. } => name@,
        }
    }

    /// The key a requirement is displayed under in a package's dependency
    /// list: its name joined with the version, repository URL or path it
    /// was requested by.
    pub open spec fn spec_display_key(self) -> Seq<char> {
        match self {
            Mops::Mops { name, version } => name@ + seq!['-'] + version@,
            Mops::Repo { name, repo } => name@ + seq!['-'] + repo@,
            Mops::Local { name, path } => name@ + seq!['-'] + path@,
        }
    }

    /// Renders the requirement's display key.
    pub fn get_display_key(&self) -> (r: String)
        ensures
            r@ == self.spec_display_key(),
    {
        match self {
            Mops::Mops { name, version } => dash_join(name.as_str(), version.as_str()),
            Mops::Repo { name, repo } => dash_join(name.as_str(), repo.as_str()),
            Mops::Local { name, path } => dash_join(name.as_str(), path.as_str()),
        }
    }
}

} // verus!
