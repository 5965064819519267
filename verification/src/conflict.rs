//! Conflict detection: files that an install would overwrite, and installed
//! packages that declare a conflict with an incoming one.

use vstd::prelude::*;
use vstd::string::*;
use crate::database::{list_has, lists_name};
use crate::ledger::{conflicting, get_conflicts, rows};
use crate::lists::{contains_name, views};
use crate::records::{InstalledPS4Packages, InstalledRow, Ledger, PS4Package};

verus! {

/// The paths that an install would overwrite.
pub struct ConflictingFiles {
    pub is_conflict: bool,
    pub files: Vec<String>,
}

/// The installed packages that conflict with an incoming one.
pub struct ConflictingPackages {
    pub is_conflict: bool,
    pub packages: Vec<InstalledPS4Packages>,
}

/// For one incoming package: the installed packages that it can take the
/// place of, and those that forbid its installation.
pub struct ConflictVerdict {
    pub replaceable: Vec<String>,
    pub hard: Vec<String>,
}

/// The paths `root + file`, for the files of `files` in their order, that
/// stand in `existing`.
pub open spec fn colliding(
    root: Seq<char>,
    files: Seq<Seq<char>>,
    existing: Seq<Seq<char>>,
) -> Seq<Seq<char>>
    decreases files.len(),
{
    if files.len() == 0 {
        Seq::<Seq<char>>::empty()
    } else {
        let rest = colliding(root, files.drop_last(), existing);
        if existing.contains(root + files.last()) {
            rest.push(root + files.last())
        } else {
            rest
        }
    }
}

/// The file-level conflicts of an install: none for a reinstall, else the
/// paths under the root that already exist.
pub open spec fn file_conflicts(
    files: Seq<Seq<char>>,
    is_installed: bool,
    root: Seq<char>,
    existing: Seq<Seq<char>>,
) -> Seq<Seq<char>> {
    if is_installed {
        Seq::<Seq<char>>::empty()
    } else {
        colliding(root, files, existing)
    }
}

/// A file of the list whose path exists is among the colliding paths.
pub proof fn lemma_colliding_has(
    root: Seq<char>,
    files: Seq<Seq<char>>,
    existing: Seq<Seq<char>>,
    i: int,
)
    requires
        0 <= i < files.len(),
        existing.contains(root + files[i]),
    ensures
        colliding(root, files, existing).contains(root + files[i]),
    decreases files.len(),
{
    let rest = colliding(root, files.drop_last(), existing);
    if i == files.len() - 1 {
        assert(rest.push(root + files.last())[rest.len() as int] == root + files[i]);
    } else {
        lemma_colliding_has(root, files.drop_last(), existing, i);
        let j = choose|j: int| 0 <= j < rest.len() && rest[j] == root + files[i];
        if existing.contains(root + files.last()) {
            assert(rest.push(root + files.last())[j] == root + files[i]);
        }
    }
}

/// Reinstalling a package never raises a file-level conflict, whatever files
/// it owns and whatever exists; a package that is not installed and claims a
/// path that exists does raise one, and that path is reported.
pub proof fn lemma_conflict_exemption(
    files: Seq<Seq<char>>,
    root: Seq<char>,
    existing: Seq<Seq<char>>,
    other_files: Seq<Seq<char>>,
    i: int,
)
    requires
        0 <= i < other_files.len(),
        existing.contains(root + other_files[i]),
    ensures
        file_conflicts(files, true, root, existing).len() == 0,
        file_conflicts(other_files, false, root, existing).contains(root + other_files[i]),
        file_conflicts(other_files, false, root, existing).len() > 0,
{
    lemma_colliding_has(root, other_files, existing, i);
}

/// The paths `root + file`, for the files of `files` in their order.
pub open spec fn rooted_paths(root: Seq<char>, files: Seq<Seq<char>>) -> Seq<Seq<char>> {
    Seq::new(files.len(), |i: int| root + files[i])
}

/// The places of files below a root: each file's path behind the root's.
pub fn rooted(root: &String, files: &Vec<String>) -> (r: Vec<String>)
    ensures
        views(r@) == rooted_paths(root@, views(files@)),
{
    let mut out: Vec<String> = Vec::new();
    let n = files.len();
    let mut i: usize = 0;
    while i < n
        invariant
            n == files.len(),
            i <= n,
            views(out@) == rooted_paths(root@, views(files@)).take(i as int),
        decreases n - i,
    {
        let mut path = root.clone();
        path.append(files[i].as_str());
        let ghost before = views(out@);
        out.push(path);
        assert(views(out@) =~= before.push(root@ + files@[i as int]@));
        assert(views(out@) =~= rooted_paths(root@, views(files@)).take(i + 1));
        i = i + 1;
    }
    assert(rooted_paths(root@, views(files@)).take(n as int) =~= rooted_paths(
        root@,
        views(files@),
    ));
    out
}

/// Checks the files of an install against the paths that exist under the
/// root. `existing` holds the paths found on the file system; a reinstall
/// (`is_installed`) is exempt.
pub fn run_conflict_check(
    files: &Vec<String>,
    is_installed: bool,
    root: String,
    existing: &Vec<String>,
) -> (r: ConflictingFiles)
    ensures
        views(r.files@) == file_conflicts(views(files@), is_installed, root@, views(existing@)),
        r.is_conflict == (r.files@.len() > 0),
        is_installed ==> !r.is_conflict,
{
    let mut conflicting_struct = ConflictingFiles { is_conflict: false, files: Vec::new() };
    let n = files.len();
    let mut i: usize = 0;
    assert(views(files@).take(0) =~= Seq::<Seq<char>>::empty());
    assert(views(conflicting_struct.files@) =~= Seq::<Seq<char>>::empty());
    if is_installed {
        return conflicting_struct;
    }
    while i < n
        invariant
            n == files.len(),
            i <= n,
            views(conflicting_struct.files@) == colliding(
                root@,
                views(files@).take(i as int),
                views(existing@),
            ),
            conflicting_struct.is_conflict == (conflicting_struct.files@.len() > 0),
        decreases n - i,
    {
        proof {
            assert(views(files@).take(i + 1).drop_last() =~= views(files@).take(i as int));
        }
        let mut path = root.clone();
        path.append(files[i].as_str());
        let ghost before = views(conflicting_struct.files@);
        if contains_name(existing, &path) {
            conflicting_struct.is_conflict = true;
            conflicting_struct.files.push(path);
            assert(views(conflicting_struct.files@) =~= before.push(root@ + files@[i as int]@));
        }
        i = i + 1;
    }
    assert(views(files@).take(n as int) =~= views(files@));
    conflicting_struct
}

/// The installed rows that conflict with `name`: those that list it among
/// their conflicts, the row of `name` itself left out.
pub open spec fn package_conflicts(all: Seq<InstalledRow>, name: Seq<char>) -> Seq<InstalledRow> {
    conflicting(all, name).filter(|r: InstalledRow| r.name != name)
}

/// Looks for installed packages that declare a conflict with `package`.
pub fn run_conflict_package_check(package: &String, ledger: &Ledger) -> (r: ConflictingPackages)
    ensures
        rows(r.packages@) == package_conflicts(rows(ledger.packages@), package@),
        r.is_conflict == (r.packages@.len() > 0),
{
    let mut conflicting_struct = ConflictingPackages { is_conflict: false, packages: Vec::new() };
    let found = get_conflicts(package, ledger);
    let n = found.len();
    let mut i: usize = 0;
    proof {
        reveal(Seq::filter);
        assert(rows(found@.take(0)) =~= Seq::<InstalledRow>::empty());
        assert(rows(conflicting_struct.packages@) =~= Seq::<InstalledRow>::empty());
    }
    while i < n
        invariant
            n == found.len(),
            i <= n,
            rows(conflicting_struct.packages@) == rows(found@.take(i as int)).filter(
                |r: InstalledRow| r.name != package@,
            ),
            conflicting_struct.is_conflict == (conflicting_struct.packages@.len() > 0),
        decreases n - i,
    {
        proof {
            reveal(Seq::filter);
            assert(rows(found@.take(i + 1)).drop_last() =~= rows(found@.take(i as int)));
        }
        let ghost before = rows(conflicting_struct.packages@);
        if found[i].name != *package {
            conflicting_struct.is_conflict = true;
            conflicting_struct.packages.push(found[i].clone());
            assert(rows(conflicting_struct.packages@) =~= before.push(found@[i as int]@));
        }
        i = i + 1;
    }
    assert(found@.take(n as int) =~= found@);
    conflicting_struct
}

/// The names of `all` that the incoming package can replace (`wanted`), or
/// cannot: a conflicting installed package is replaceable where the incoming
/// package provides its name.
pub open spec fn verdict_names(all: Seq<InstalledRow>, provides: Seq<char>, wanted: bool) -> Seq<
    Seq<char>,
>
    decreases all.len(),
{
    if all.len() == 0 {
        Seq::<Seq<char>>::empty()
    } else {
        let rest = verdict_names(all.drop_last(), provides, wanted);
        if lists_name(provides, all.last().name) == wanted {
            rest.push(all.last().name)
        } else {
            rest
        }
    }
}

/// Sorts the installed packages that conflict with `incoming` into those it
/// can replace and those that forbid it.
pub fn classify_conflicts(incoming: &PS4Package, ledger: &Ledger) -> (r: ConflictVerdict)
    ensures
        views(r.replaceable@) == verdict_names(
            package_conflicts(rows(ledger.packages@), incoming.name@),
            incoming.provides@,
            true,
        ),
        views(r.hard@) == verdict_names(
            package_conflicts(rows(ledger.packages@), incoming.name@),
            incoming.provides@,
            false,
        ),
{
    let found = run_conflict_package_check(&incoming.name, ledger);
    let mut verdict = ConflictVerdict { replaceable: Vec::new(), hard: Vec::new() };
    let n = found.packages.len();
    let mut i: usize = 0;
    proof {
        assert(rows(found.packages@).take(0) =~= Seq::<InstalledRow>::empty());
        assert(views(verdict.replaceable@) =~= Seq::<Seq<char>>::empty());
        assert(views(verdict.hard@) =~= Seq::<Seq<char>>::empty());
    }
    while i < n
        invariant
            n == found.packages.len(),
            i <= n,
            views(verdict.replaceable@) == verdict_names(
                rows(found.packages@).take(i as int),
                incoming.provides@,
                true,
            ),
            views(verdict.hard@) == verdict_names(
                rows(found.packages@).take(i as int),
                incoming.provides@,
                false,
            ),
        decreases n - i,
    {
        proof {
            assert(rows(found.packages@).take(i + 1).drop_last() =~= rows(found.packages@).take(
                i as int,
            ));
        }
        let ghost before_yes = views(verdict.replaceable@);
        let ghost before_no = views(verdict.hard@);
        if list_has(&incoming.provides, &found.packages[i].name) {
            verdict.replaceable.push(found.packages[i].name.clone());
            assert(views(verdict.replaceable@) =~= before_yes.push(found.packages@[i as int].name@));
        } else {
            verdict.hard.push(found.packages[i].name.clone());
            assert(views(verdict.hard@) =~= before_no.push(found.packages@[i as int].name@));
        }
        i = i + 1;
    }
    assert(rows(found.packages@).take(n as int) =~= rows(found.packages@));
    verdict
}

} // verus!
