//! Generating a repository database: what goes into a package's row and
//! into the flat list of names.

use vstd::prelude::*;
use vstd::string::*;
use crate::lists::{join, vec_to_string, views};
use crate::records::PS4Package;
use crate::text::{ends_with, has_suffix, starts_with_char};

verus! {

/// A package's description in the source tree, with its lists as lists.
pub struct PackageInfo {
    pub name: String,
    pub version: String,
    pub upstream: i32,
    pub description: String,
    pub groups: Vec<String>,
    pub url: String,
    pub license: Vec<String>,
    pub depends: Vec<String>,
    pub optional_depends: Vec<String>,
    pub make_depends: Vec<String>,
    pub provides: Vec<String>,
    pub conflicts: Vec<String>,
    pub replaces: Vec<String>,
    pub maintainers: Vec<String>,
}

/// The row that a repository database holds of a package: its lists joined
/// by commas, the checksum left empty.
pub fn package_row(info: &PackageInfo) -> (r: PS4Package)
    ensures
        r.name == info.name,
        r.version == info.version,
        r.upstream == info.upstream,
        r.description == info.description,
        r.groups@ == join(views(info.groups@)),
        r.url == info.url,
        r.license@ == join(views(info.license@)),
        r.depends@ == join(views(info.depends@)),
        r.optional_depends@ == join(views(info.optional_depends@)),
        r.provides@ == join(views(info.provides@)),
        r.conflicts@ == join(views(info.conflicts@)),
        r.replaces@ == join(views(info.replaces@)),
        r.sha512sum@ == Seq::<char>::empty(),
{
    PS4Package {
        name: info.name.clone(),
        version: info.version.clone(),
        upstream: info.upstream,
        description: info.description.clone(),
        groups: vec_to_string(&info.groups),
        url: info.url.clone(),
        license: vec_to_string(&info.license),
        depends: vec_to_string(&info.depends),
        optional_depends: vec_to_string(&info.optional_depends),
        provides: vec_to_string(&info.provides),
        conflicts: vec_to_string(&info.conflicts),
        replaces: vec_to_string(&info.replaces),
        sha512sum: String::new(),
    }
}

/// Whether a directory entry is hidden: its name starts with a dot.
pub fn is_hidden(file_name: &str) -> (r: bool)
    ensures
        r == (file_name@.len() > 0 && file_name@[0] == '.'),
{
    starts_with_char(file_name, '.')
}

/// Whether a file describes a package: its name ends in `SRCINFO`.
pub fn is_source_info(file_name: &str) -> (r: bool)
    ensures
        r == has_suffix(file_name@, "SRCINFO"@),
{
    ends_with(file_name, "SRCINFO")
}

/// The flat database: each name followed by a line feed.
pub open spec fn flat_text(names: Seq<Seq<char>>) -> Seq<char>
    decreases names.len(),
{
    if names.len() == 0 {
        Seq::<char>::empty()
    } else {
        flat_text(names.drop_last()) + names.last() + seq!['\n']
    }
}

/// Writes the flat database of the packages' names.
pub fn flat_database(names: &Vec<String>) -> (r: String)
    ensures
        r@ == flat_text(views(names@)),
{
    let mut out = String::new();
    let n = names.len();
    let mut i: usize = 0;
    assert(views(names@).take(0) =~= Seq::<Seq<char>>::empty());
    while i < n
        invariant
            n == names.len(),
            i <= n,
            out@ == flat_text(views(names@).take(i as int)),
        decreases n - i,
    {
        proof {
            reveal_strlit("\n");
            assert("\n"@ =~= seq!['\n']);
            assert(views(names@).take(i + 1).drop_last() =~= views(names@).take(i as int));
        }
        out.append(names[i].as_str());
        out.append("\n");
        i = i + 1;
    }
    assert(views(names@).take(n as int) =~= views(names@));
    out
}

} // verus!
