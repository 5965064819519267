//! The records that the package databases and the installed-package ledger hold.

use vstd::prelude::*;
use crate::lists::{clone_names, views};

verus! {

/// A package as a repository publishes it. The list-valued fields are
/// comma-joined texts; the empty text stands for no entries.
#[derive(Debug, PartialEq, Eq, Hash)]
pub struct PS4Package {
    pub name: String,
    pub version: String,
    pub upstream: i32,
    pub description: String,
    pub groups: String,
    pub url: String,
    pub license: String,
    pub depends: String,
    pub optional_depends: String,
    pub provides: String,
    pub conflicts: String,
    pub replaces: String,
    pub sha512sum: String,
}

impl Clone for PS4Package {
    fn clone(&self) -> (r: Self)
        ensures
            r == *self,
    {
        PS4Package {
            name: self.name.clone(),
            version: self.version.clone(),
            upstream: self.upstream,
            description: self.description.clone(),
            groups: self.groups.clone(),
            url: self.url.clone(),
            license: self.license.clone(),
            depends: self.depends.clone(),
            optional_depends: self.optional_depends.clone(),
            provides: self.provides.clone(),
            conflicts: self.conflicts.clone(),
            replaces: self.replaces.clone(),
            sha512sum: self.sha512sum.clone(),
        }
    }
}

/// What an install hands to the ledger: the package's identity, the files it
/// wrote and its lists, already split.
pub struct PS4NewPackage {
    pub name: String,
    pub groups: String,
    pub version: String,
    pub upstream: i32,
    pub installed_files: Vec<String>,
    pub provides: Vec<String>,
    pub conflicts: Vec<String>,
    pub dependencies: Vec<String>,
}

/// A row of the installed-package ledger.
#[derive(Debug, PartialEq, Eq, Hash)]
pub struct InstalledPS4Packages {
    pub name: String,
    pub groups: Vec<String>,
    pub source: String,
    pub version: String,
    pub upstream: i32,
    pub installed_files: Vec<String>,
    pub provides: Vec<String>,
    pub conflicts: Vec<String>,
    pub dependencies: Vec<String>,
}

/// The content of a ledger row.
pub struct InstalledRow {
    pub name: Seq<char>,
    pub groups: Seq<Seq<char>>,
    pub source: Seq<char>,
    pub version: Seq<char>,
    pub upstream: i32,
    pub installed_files: Seq<Seq<char>>,
    pub provides: Seq<Seq<char>>,
    pub conflicts: Seq<Seq<char>>,
    pub dependencies: Seq<Seq<char>>,
}

impl View for InstalledPS4Packages {
    type V = InstalledRow;

    open spec fn view(&self) -> InstalledRow {
        InstalledRow {
            name: self.name@,
            groups: views(self.groups@),
            source: self.source@,
            version: self.version@,
            upstream: self.upstream,
            installed_files: views(self.installed_files@),
            provides: views(self.provides@),
            conflicts: views(self.conflicts@),
            dependencies: views(self.dependencies@),
        }
    }
}

impl Clone for InstalledPS4Packages {
    fn clone(&self) -> (r: Self)
        ensures
            r@ == self@,
    {
        InstalledPS4Packages {
            name: self.name.clone(),
            groups: clone_names(&self.groups),
            source: self.source.clone(),
            version: self.version.clone(),
            upstream: self.upstream,
            installed_files: clone_names(&self.installed_files),
            provides: clone_names(&self.provides),
            conflicts: clone_names(&self.conflicts),
            dependencies: clone_names(&self.dependencies),
        }
    }
}

/// A repository descriptor: its name and, where present, a URL that replaces
/// the mirror list for it.
#[derive(Debug, PartialEq, Eq, Hash)]
pub struct Source {
    pub name: String,
    pub url: Option<String>,
}

impl Clone for Source {
    fn clone(&self) -> (r: Self)
        ensures
            r == *self,
    {
        let url = match &self.url {
            Some(u) => Some(u.clone()),
            None => None,
        };
        Source { name: self.name.clone(), url }
    }
}

/// A package about to be installed, with the repository it came from.
#[derive(Debug, PartialEq, Eq, Hash)]
pub struct InstallTransaction {
    pub package: PS4Package,
    pub source: Source,
}

impl Clone for InstallTransaction {
    fn clone(&self) -> (r: Self)
        ensures
            r == *self,
    {
        InstallTransaction { package: self.package.clone(), source: self.source.clone() }
    }
}

/// A repository's verified hash and the time it was recorded.
#[derive(Debug, PartialEq, Eq, Hash)]
pub struct RepoSyncRecord {
    pub name: String,
    pub repo_hash: String,
    pub last_updated: String,
}

/// The cached database of one repository: its packages in table order.
pub struct Repo {
    pub name: String,
    pub packages: Vec<PS4Package>,
}

/// The local ledger: the installed packages and the audit trail of syncs.
pub struct Ledger {
    pub packages: Vec<InstalledPS4Packages>,
    pub repos: Vec<RepoSyncRecord>,
}

/// A record was asked for that the database does not hold.
#[derive(Debug, PartialEq, Eq)]
pub struct PackageDBError;

/// The names of a repository's packages, in table order.
pub open spec fn package_names(packages: Seq<PS4Package>) -> Seq<Seq<char>> {
    Seq::new(packages.len(), |i: int| packages[i].name@)
}

/// The names of the installed packages, in ledger order.
pub open spec fn installed_names(packages: Seq<InstalledPS4Packages>) -> Seq<Seq<char>> {
    Seq::new(packages.len(), |i: int| packages[i].name@)
}

/// The names of the repositories with a sync record.
pub open spec fn synced_names(repos: Seq<RepoSyncRecord>) -> Seq<Seq<char>> {
    Seq::new(repos.len(), |i: int| repos[i].name@)
}

/// `i` is the first place at which `name` stands in `names`.
pub open spec fn is_first(names: Seq<Seq<char>>, name: Seq<char>, i: int) -> bool {
    &&& 0 <= i < names.len()
    &&& names[i] == name
    &&& forall|k: int| 0 <= k < i ==> names[k] != name
}

/// The first place at which `name` stands in `names`, where it stands there.
pub open spec fn position(names: Seq<Seq<char>>, name: Seq<char>) -> int {
    choose|i: int| is_first(names, name, i)
}

/// No name stands twice.
pub open spec fn distinct(names: Seq<Seq<char>>) -> bool {
    forall|i: int, j: int| 0 <= i < j < names.len() ==> names[i] != names[j]
}

impl Ledger {
    /// Each package and each repository has one row at most.
    pub open spec fn wf(&self) -> bool {
        &&& distinct(installed_names(self.packages@))
        &&& distinct(synced_names(self.repos@))
    }
}

} // verus!
