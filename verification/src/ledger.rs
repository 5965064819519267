//! The installed-package ledger: one row per installed package, keyed by name.

use vstd::prelude::*;
use vstd::string::*;
use crate::lists::{clone_names, contains_name, entries, views};
use crate::database::entries_of;
use crate::records::{
    distinct, installed_names, is_first, position, synced_names, InstalledPS4Packages,
    InstalledRow, Ledger, PS4NewPackage, PackageDBError, RepoSyncRecord, Source,
};

verus! {

/// The contents of the ledger's rows, in ledger order.
pub open spec fn rows(packages: Seq<InstalledPS4Packages>) -> Seq<InstalledRow> {
    Seq::new(packages.len(), |i: int| packages[i]@)
}

/// A package of that name is installed.
pub open spec fn is_installed(ledger: Ledger, name: Seq<char>) -> bool {
    installed_names(ledger.packages@).contains(name)
}

/// The row of an installed package.
pub open spec fn installed_row(ledger: Ledger, name: Seq<char>) -> InstalledRow {
    ledger.packages@[position(installed_names(ledger.packages@), name)]@
}

/// The rows that list `name` among their conflicts, in ledger order.
pub open spec fn conflicting(all: Seq<InstalledRow>, name: Seq<char>) -> Seq<InstalledRow> {
    all.filter(|r: InstalledRow| r.conflicts.contains(name))
}

/// The rows that list `name` among their dependencies, in ledger order.
pub open spec fn dependents(all: Seq<InstalledRow>, name: Seq<char>) -> Seq<InstalledRow> {
    all.filter(|r: InstalledRow| r.dependencies.contains(name))
}

/// How a source is written in a ledger row: its name, followed by a comma and
/// its URL where it has one.
pub open spec fn source_text(source: Source) -> Seq<char> {
    match source.url {
        Some(url) => source.name@ + seq![','] + url@,
        None => source.name@,
    }
}

/// The row that records an installed package.
pub open spec fn new_row(package: PS4NewPackage, source: Source) -> InstalledRow {
    InstalledRow {
        name: package.name@,
        groups: entries(package.groups@),
        source: source_text(source),
        version: package.version@,
        upstream: package.upstream,
        installed_files: views(package.installed_files@),
        provides: views(package.provides@),
        conflicts: views(package.conflicts@),
        dependencies: views(package.dependencies@),
    }
}

/// The names that a sequence of rows carries.
pub open spec fn row_names(all: Seq<InstalledRow>) -> Seq<Seq<char>> {
    Seq::new(all.len(), |i: int| all[i].name)
}

/// Insert-or-replace keyed on the name: the row takes the place of the first
/// row of its name, or goes to the end where there is none.
pub open spec fn recorded(all: Seq<InstalledRow>, row: InstalledRow) -> Seq<InstalledRow> {
    if row_names(all).contains(row.name) {
        all.update(position(row_names(all), row.name), row)
    } else {
        all.push(row)
    }
}

/// The rows without the first row named `name`.
pub open spec fn erased(all: Seq<InstalledRow>, name: Seq<char>) -> Seq<InstalledRow> {
    if row_names(all).contains(name) {
        all.remove(position(row_names(all), name))
    } else {
        all
    }
}

/// Recording the same row twice in a row leaves the ledger as the first
/// recording left it.
pub proof fn lemma_record_twice(all: Seq<InstalledRow>, row: InstalledRow)
    ensures
        recorded(recorded(all, row), row) == recorded(all, row),
{
    let once = recorded(all, row);
    if row_names(all).contains(row.name) {
        let i = choose|i: int| 0 <= i < all.len() && row_names(all)[i] == row.name;
        lemma_first_exists(row_names(all), row.name, i);
        let p = position(row_names(all), row.name);
        assert(row_names(once) =~= row_names(all));
        assert(is_first(row_names(once), row.name, p));
        assert(row_names(once).contains(row.name));
        let q = position(row_names(once), row.name);
        assert(is_first(row_names(once), row.name, q));
        assert(p == q);
        assert(recorded(once, row) =~= once);
    } else {
        let p = all.len() as int;
        assert(row_names(once)[p] == row.name);
        assert(is_first(row_names(once), row.name, p)) by {
            assert forall|k: int| 0 <= k < p implies row_names(once)[k] != row.name by {
                assert(row_names(all)[k] == row_names(once)[k]);
            }
        }
        assert(row_names(once).contains(row.name));
        let q = position(row_names(once), row.name);
        assert(is_first(row_names(once), row.name, q));
        assert(p == q);
        assert(recorded(once, row) =~= once);
    }
}

/// A name that stands in a list has a first place there.
pub proof fn lemma_first_exists(names: Seq<Seq<char>>, name: Seq<char>, i: int)
    requires
        0 <= i < names.len(),
        names[i] == name,
    ensures
        is_first(names, name, position(names, name)),
        position(names, name) <= i,
    decreases i,
{
    if exists|k: int| 0 <= k < i && names[k] == name {
        let k = choose|k: int| 0 <= k < i && names[k] == name;
        lemma_first_exists(names, name, k);
    } else {
        assert(is_first(names, name, i));
        let p = position(names, name);
        assert(is_first(names, name, p));
    }
}

/// The first row of an installed package named `name`.
pub fn find_installed(packages: &Vec<InstalledPS4Packages>, name: &String) -> (r: Option<usize>)
    ensures
        match r {
            Some(i) => is_first(installed_names(packages@), name@, i as int) && i as int
                == position(installed_names(packages@), name@),
            None => !installed_names(packages@).contains(name@),
        },
{
    let n = packages.len();
    let mut i: usize = 0;
    while i < n
        invariant
            n == packages.len(),
            i <= n,
            forall|k: int| 0 <= k < i ==> installed_names(packages@)[k] != name@,
        decreases n - i,
    {
        if packages[i].name == *name {
            assert(is_first(installed_names(packages@), name@, i as int));
            return Some(i);
        }
        i = i + 1;
    }
    None
}

/// The ledger row of an installed package.
pub fn get_installed_package(package: &String, ledger: &Ledger) -> (r: Result<
    InstalledPS4Packages,
    PackageDBError,
>)
    ensures
        r is Ok <==> is_installed(*ledger, package@),
        r is Ok ==> r->Ok_0@ == installed_row(*ledger, package@),
{
    match find_installed(&ledger.packages, package) {
        Some(i) => Ok(ledger.packages[i].clone()),
        None => Err(PackageDBError),
    }
}

/// All rows of the ledger, in ledger order.
pub fn get_all_installed(ledger: &Ledger) -> (r: Vec<InstalledPS4Packages>)
    ensures
        rows(r@) == rows(ledger.packages@),
{
    let mut out: Vec<InstalledPS4Packages> = Vec::new();
    let n = ledger.packages.len();
    let mut i: usize = 0;
    while i < n
        invariant
            n == ledger.packages.len(),
            i <= n,
            rows(out@) == rows(ledger.packages@.take(i as int)),
        decreases n - i,
    {
        let ghost before = rows(out@);
        out.push(ledger.packages[i].clone());
        assert(rows(out@) =~= before.push(ledger.packages@[i as int]@));
        assert(rows(out@) =~= rows(ledger.packages@.take(i + 1)));
        i = i + 1;
    }
    assert(ledger.packages@.take(n as int) =~= ledger.packages@);
    out
}

/// The installed packages that list `package` among their conflicts.
pub fn get_conflicts(package: &String, ledger: &Ledger) -> (r: Vec<InstalledPS4Packages>)
    ensures
        rows(r@) == conflicting(rows(ledger.packages@), package@),
{
    let mut out: Vec<InstalledPS4Packages> = Vec::new();
    let n = ledger.packages.len();
    let mut i: usize = 0;
    proof {
        reveal(Seq::filter);
        assert(rows(ledger.packages@.take(0)) =~= Seq::<InstalledRow>::empty());
    }
    while i < n
        invariant
            n == ledger.packages.len(),
            i <= n,
            rows(out@) == conflicting(rows(ledger.packages@.take(i as int)), package@),
        decreases n - i,
    {
        proof {
            reveal(Seq::filter);
            assert(rows(ledger.packages@.take(i + 1)).drop_last() =~= rows(
                ledger.packages@.take(i as int),
            ));
        }
        let ghost before = rows(out@);
        if contains_name(&ledger.packages[i].conflicts, package) {
            out.push(ledger.packages[i].clone());
            assert(rows(out@) =~= before.push(ledger.packages@[i as int]@));
        }
        i = i + 1;
    }
    assert(ledger.packages@.take(n as int) =~= ledger.packages@);
    out
}

/// The installed packages that list `package` among their dependencies.
pub fn get_depended_on(package: &String, ledger: &Ledger) -> (r: Vec<InstalledPS4Packages>)
    ensures
        rows(r@) == dependents(rows(ledger.packages@), package@),
{
    let mut out: Vec<InstalledPS4Packages> = Vec::new();
    let n = ledger.packages.len();
    let mut i: usize = 0;
    proof {
        reveal(Seq::filter);
        assert(rows(ledger.packages@.take(0)) =~= Seq::<InstalledRow>::empty());
    }
    while i < n
        invariant
            n == ledger.packages.len(),
            i <= n,
            rows(out@) == dependents(rows(ledger.packages@.take(i as int)), package@),
        decreases n - i,
    {
        proof {
            reveal(Seq::filter);
            assert(rows(ledger.packages@.take(i + 1)).drop_last() =~= rows(
                ledger.packages@.take(i as int),
            ));
        }
        let ghost before = rows(out@);
        if contains_name(&ledger.packages[i].dependencies, package) {
            out.push(ledger.packages[i].clone());
            assert(rows(out@) =~= before.push(ledger.packages@[i as int]@));
        }
        i = i + 1;
    }
    assert(ledger.packages@.take(n as int) =~= ledger.packages@);
    out
}

/// The files that an installed package owns; none where it is not installed.
pub fn return_owned_files(package: &String, ledger: &Ledger) -> (r: Vec<String>)
    ensures
        views(r@) == if is_installed(*ledger, package@) {
            installed_row(*ledger, package@).installed_files
        } else {
            Seq::<Seq<char>>::empty()
        },
{
    match find_installed(&ledger.packages, package) {
        Some(i) => clone_names(&ledger.packages[i].installed_files),
        None => {
            let out: Vec<String> = Vec::new();
            assert(views(out@) =~= Seq::<Seq<char>>::empty());
            out
        },
    }
}

/// The text that stands for a source in a ledger row.
pub fn source_string(source: &Source) -> (r: String)
    ensures
        r@ == source_text(*source),
{
    let mut out = source.name.clone();
    match &source.url {
        Some(url) => {
            proof {
                reveal_strlit(",");
                assert(","@ =~= seq![',']);
            }
            out.append(",");
            out.append(url.as_str());
        },
        None => {},
    }
    out
}

/// Adds a package to the ledger, in place of the row of its name where there
/// is one.
pub fn add_package_to_installed(package: PS4NewPackage, source: Source, ledger: &mut Ledger)
    ensures
        rows(final(ledger).packages@) == recorded(
            rows(old(ledger).packages@),
            new_row(package, source),
        ),
        final(ledger).repos == old(ledger).repos,
        old(ledger).wf() ==> final(ledger).wf(),
        is_installed(*final(ledger), package.name@),
{
    let ghost old_rows = rows(ledger.packages@);
    let ghost old_names = installed_names(ledger.packages@);
    let ghost name = package.name@;
    let ghost fresh = new_row(package, source);
    assert(row_names(old_rows) =~= old_names);
    let found = find_installed(&ledger.packages, &package.name);
    let row = InstalledPS4Packages {
        groups: entries_of(&package.groups),
        source: source_string(&source),
        name: package.name,
        version: package.version,
        upstream: package.upstream,
        installed_files: package.installed_files,
        provides: package.provides,
        conflicts: package.conflicts,
        dependencies: package.dependencies,
    };
    assert(row@ == fresh);
    match found {
        Some(i) => {
            ledger.packages[i] = row;
            assert(rows(ledger.packages@) =~= old_rows.update(i as int, fresh));
            assert(installed_names(ledger.packages@) =~= old_names);
        },
        None => {
            ledger.packages.push(row);
            assert(rows(ledger.packages@) =~= old_rows.push(fresh));
            assert(installed_names(ledger.packages@) =~= old_names.push(name));
            assert(installed_names(ledger.packages@)[old_names.len() as int] == name);
        },
    }
}

/// Removes a package's row from the ledger.
pub fn remove_package_from_installed(package: &String, ledger: &mut Ledger)
    ensures
        rows(final(ledger).packages@) == erased(rows(old(ledger).packages@), package@),
        final(ledger).repos == old(ledger).repos,
        old(ledger).wf() ==> final(ledger).wf() && !is_installed(*final(ledger), package@),
{
    let ghost old_rows = rows(ledger.packages@);
    let ghost old_names = installed_names(ledger.packages@);
    assert(row_names(old_rows) =~= old_names);
    match find_installed(&ledger.packages, package) {
        Some(i) => {
            let _gone = ledger.packages.remove(i);
            assert(rows(ledger.packages@) =~= old_rows.remove(i as int));
            assert(installed_names(ledger.packages@) =~= old_names.remove(i as int));
            assert(distinct(old_names) ==> distinct(old_names.remove(i as int))) by {
                if distinct(old_names) {
                    assert forall|a: int, b: int|
                        0 <= a < b < old_names.remove(i as int).len() implies old_names.remove(
                        i as int,
                    )[a] != old_names.remove(i as int)[b] by {
                        let a2 = if a < i { a } else { a + 1 };
                        let b2 = if b < i { b } else { b + 1 };
                        assert(old_names[a2] != old_names[b2]);
                    }
                }
            }
            assert(distinct(old_names) ==> !old_names.remove(i as int).contains(package@)) by {
                if distinct(old_names) && old_names.remove(i as int).contains(package@) {
                    let a = choose|a: int|
                        0 <= a < old_names.remove(i as int).len() && old_names.remove(i as int)[a]
                            == package@;
                    let a2 = if a < i { a } else { a + 1 };
                    assert(old_names[a2] == package@);
                    if a2 < i {
                        assert(old_names[a2] != old_names[i as int]);
                    } else {
                        assert(old_names[i as int] != old_names[a2]);
                    }
                }
            }
        },
        None => {},
    }
}

/// The first sync record of a repository named `name`.
pub fn find_synced(repos: &Vec<RepoSyncRecord>, name: &String) -> (r: Option<usize>)
    ensures
        match r {
            Some(i) => is_first(synced_names(repos@), name@, i as int),
            None => !synced_names(repos@).contains(name@),
        },
{
    let n = repos.len();
    let mut i: usize = 0;
    while i < n
        invariant
            n == repos.len(),
            i <= n,
            forall|k: int| 0 <= k < i ==> synced_names(repos@)[k] != name@,
        decreases n - i,
    {
        if repos[i].name == *name {
            return Some(i);
        }
        i = i + 1;
    }
    None
}

/// Records that a repository was verified with `repo_hash` at `current_time`,
/// in place of its earlier record where there is one.
pub fn update_cached_repos(
    repo: &String,
    repo_hash: &String,
    current_time: String,
    ledger: &mut Ledger,
)
    ensures
        final(ledger).packages == old(ledger).packages,
        synced_names(final(ledger).repos@).contains(repo@),
        forall|i: int|
            0 <= i < final(ledger).repos@.len() ==> #[trigger] final(ledger).repos@[i] == (
            if final(ledger).repos@[i].name@ == repo@ && is_first(
                synced_names(final(ledger).repos@),
                repo@,
                i,
            ) {
                RepoSyncRecord { name: *repo, repo_hash: *repo_hash, last_updated: current_time }
            } else {
                old(ledger).repos@[i]
            }),
        final(ledger).repos@.len() == old(ledger).repos@.len() + (if synced_names(
            old(ledger).repos@,
        ).contains(repo@) {
            0int
        } else {
            1int
        }),
        old(ledger).wf() ==> final(ledger).wf(),
{
    let ghost old_names = synced_names(ledger.repos@);
    let record = RepoSyncRecord {
        name: repo.clone(),
        repo_hash: repo_hash.clone(),
        last_updated: current_time,
    };
    match find_synced(&ledger.repos, repo) {
        Some(i) => {
            ledger.repos[i] = record;
            assert(synced_names(ledger.repos@) =~= old_names);
            assert(synced_names(ledger.repos@)[i as int] == repo@);
        },
        None => {
            ledger.repos.push(record);
            assert(synced_names(ledger.repos@) =~= old_names.push(repo@));
            assert(synced_names(ledger.repos@)[old_names.len() as int] == repo@);
        },
    }
}

/// The ledger of a new installation: it holds the package manager itself,
/// in the given version, as installed from the repository `core`.
pub fn init_database(version: String) -> (r: Ledger)
    ensures
        r.wf(),
        r.repos@.len() == 0,
        r.packages@.len() == 1,
        r.packages@[0]@ == (InstalledRow {
            name: "ps4"@,
            groups: seq!["core"@],
            source: "core"@,
            version: version@,
            upstream: 0,
            installed_files: Seq::<Seq<char>>::empty(),
            provides: seq!["ps4"@],
            conflicts: Seq::<Seq<char>>::empty(),
            dependencies: seq!["curl"@, "sqlite"@],
        }),
{
    let row = InstalledPS4Packages {
        name: String::from_str("ps4"),
        groups: vec![String::from_str("core")],
        source: String::from_str("core"),
        version,
        upstream: 0,
        installed_files: Vec::new(),
        provides: vec![String::from_str("ps4")],
        conflicts: Vec::new(),
        dependencies: vec![String::from_str("curl"), String::from_str("sqlite")],
    };
    proof {
        assert(views(row.groups@) =~= seq!["core"@]);
        assert(views(row.provides@) =~= seq!["ps4"@]);
        assert(views(row.dependencies@) =~= seq!["curl"@, "sqlite"@]);
        assert(views(row.installed_files@) =~= Seq::<Seq<char>>::empty());
        assert(views(row.conflicts@) =~= Seq::<Seq<char>>::empty());
    }
    Ledger { packages: vec![row], repos: Vec::new() }
}

} // verus!
