//! Lookups in the cached repository databases.

use vstd::prelude::*;
use crate::lists::{contains_name, entries, split_commas, views};
use crate::records::{is_first, package_names, position, PS4Package, PackageDBError, Repo};

verus! {

/// The names of the repositories, in source-list order.
pub open spec fn repo_names(repos: Seq<Repo>) -> Seq<Seq<char>> {
    Seq::new(repos.len(), |i: int| repos[i].name@)
}

/// The repository lists a package of that name.
pub open spec fn holds(repo: Repo, name: Seq<char>) -> bool {
    package_names(repo.packages@).contains(name)
}

/// `r` is the first repository, in source-list order, that lists `name`.
pub open spec fn is_home(repos: Seq<Repo>, name: Seq<char>, r: int) -> bool {
    &&& 0 <= r < repos.len()
    &&& holds(repos[r], name)
    &&& forall|k: int| 0 <= k < r ==> !holds(#[trigger] repos[k], name)
}

/// Some repository lists `name`.
pub open spec fn resolvable(repos: Seq<Repo>, name: Seq<char>) -> bool {
    exists|r: int| is_home(repos, name, r)
}

/// The first repository that lists `name`, where one does.
pub open spec fn home(repos: Seq<Repo>, name: Seq<char>) -> int {
    choose|r: int| is_home(repos, name, r)
}

/// The record of `name` in a repository that lists it.
pub open spec fn record_in(repo: Repo, name: Seq<char>) -> PS4Package {
    repo.packages@[position(package_names(repo.packages@), name)]
}

/// The record that `name` resolves to: the one in its first repository.
pub open spec fn remote_record(repos: Seq<Repo>, name: Seq<char>) -> PS4Package {
    record_in(repos[home(repos, name)], name)
}

/// The stored list `list` has `name` among its entries.
pub open spec fn lists_name(list: Seq<char>, name: Seq<char>) -> bool {
    entries(list).contains(name)
}

/// The packages of `packages` that provide `name`, in table order.
pub open spec fn providers(packages: Seq<PS4Package>, name: Seq<char>) -> Seq<PS4Package> {
    packages.filter(|p: PS4Package| lists_name(p.provides@, name))
}

/// The packages of `packages` that belong to `group`, in table order.
pub open spec fn members(packages: Seq<PS4Package>, group: Seq<char>) -> Seq<PS4Package> {
    packages.filter(|p: PS4Package| lists_name(p.groups@, group))
}

/// The repository has a package in that group.
pub open spec fn has_group(repo: Repo, group: Seq<char>) -> bool {
    exists|i: int|
        0 <= i < repo.packages@.len() && lists_name(#[trigger] repo.packages@[i].groups@, group)
}

/// `r` is the first repository with a package in `group`.
pub open spec fn is_group_home(repos: Seq<Repo>, group: Seq<char>, r: int) -> bool {
    &&& 0 <= r < repos.len()
    &&& has_group(repos[r], group)
    &&& forall|k: int| 0 <= k < r ==> !has_group(#[trigger] repos[k], group)
}

/// The entries of a stored list; none for the empty text.
pub fn entries_of(list: &String) -> (r: Vec<String>)
    ensures
        views(r@) == entries(list@),
{
    if list.as_str().unicode_len() == 0 {
        let out: Vec<String> = Vec::new();
        assert(views(out@) =~= entries(list@));
        out
    } else {
        split_commas(list)
    }
}

/// Whether a stored list has `name` among its entries.
pub fn list_has(list: &String, name: &String) -> (r: bool)
    ensures
        r == lists_name(list@, name@),
{
    let items = entries_of(list);
    contains_name(&items, name)
}

/// The first place of a package named `name` in a table.
pub fn find_package(packages: &Vec<PS4Package>, name: &String) -> (r: Option<usize>)
    ensures
        match r {
            Some(i) => is_first(package_names(packages@), name@, i as int) && i as int == position(
                package_names(packages@),
                name@,
            ),
            None => !package_names(packages@).contains(name@),
        },
{
    let n = packages.len();
    let mut i: usize = 0;
    while i < n
        invariant
            n == packages.len(),
            i <= n,
            forall|k: int| 0 <= k < i ==> package_names(packages@)[k] != name@,
        decreases n - i,
    {
        if packages[i].name == *name {
            assert(is_first(package_names(packages@), name@, i as int));
            return Some(i);
        }
        i = i + 1;
    }
    None
}

/// The first repository, in source-list order, that lists `package`.
pub fn find_repo(package: &String, repos: &Vec<Repo>) -> (r: Option<usize>)
    ensures
        match r {
            Some(i) => is_home(repos@, package@, i as int) && i as int == home(repos@, package@),
            None => !resolvable(repos@, package@),
        },
{
    let n = repos.len();
    let mut i: usize = 0;
    while i < n
        invariant
            n == repos.len(),
            i <= n,
            forall|k: int| 0 <= k < i ==> !holds(#[trigger] repos@[k], package@),
        decreases n - i,
    {
        if find_package(&repos[i].packages, package).is_some() {
            assert(is_home(repos@, package@, i as int));
            return Some(i);
        }
        i = i + 1;
    }
    None
}

/// Looks for a package in the repositories and returns the name of the first
/// one that lists it.
pub fn search_for_package(package: &String, repos: &Vec<Repo>) -> (r: Result<
    String,
    PackageDBError,
>)
    ensures
        r is Ok <==> resolvable(repos@, package@),
        r is Ok ==> r->Ok_0@ == repos@[home(repos@, package@)].name@,
{
    match find_repo(package, repos) {
        Some(i) => Ok(repos[i].name.clone()),
        None => Err(PackageDBError),
    }
}

/// The first repository of that name.
pub fn find_repo_named(repo: &String, repos: &Vec<Repo>) -> (r: Option<usize>)
    ensures
        match r {
            Some(i) => is_first(repo_names(repos@), repo@, i as int) && i as int == position(
                repo_names(repos@),
                repo@,
            ),
            None => !repo_names(repos@).contains(repo@),
        },
{
    let n = repos.len();
    let mut i: usize = 0;
    while i < n
        invariant
            n == repos.len(),
            i <= n,
            forall|k: int| 0 <= k < i ==> repo_names(repos@)[k] != repo@,
        decreases n - i,
    {
        if repos[i].name == *repo {
            assert(is_first(repo_names(repos@), repo@, i as int));
            return Some(i);
        }
        i = i + 1;
    }
    None
}

/// The repository named `repo` exists and lists `package`.
pub open spec fn listed_in(repos: Seq<Repo>, repo: Seq<char>, package: Seq<char>) -> bool {
    repo_names(repos).contains(repo) && holds(repos[position(repo_names(repos), repo)], package)
}

/// The record of `package` in the repository named `repo`.
pub fn get_remote_package(package: &String, repo: &String, repos: &Vec<Repo>) -> (r: Result<
    PS4Package,
    PackageDBError,
>)
    ensures
        r is Ok <==> listed_in(repos@, repo@, package@),
        r is Ok ==> r->Ok_0 == record_in(repos@[position(repo_names(repos@), repo@)], package@),
{
    match find_repo_named(repo, repos) {
        Some(i) => match find_package(&repos[i].packages, package) {
            Some(j) => Ok(repos[i].packages[j].clone()),
            None => Err(PackageDBError),
        },
        None => Err(PackageDBError),
    }
}

/// The record that `package` resolves to: the one in the first repository
/// that lists it.
pub fn resolve<'a>(package: &String, repos: &'a Vec<Repo>) -> (r: Option<&'a PS4Package>)
    ensures
        r is Some <==> resolvable(repos@, package@),
        r is Some ==> *r->Some_0 == remote_record(repos@, package@),
        r is Some ==> r->Some_0.name@ == package@,
{
    match find_repo(package, repos) {
        Some(i) => match find_package(&repos[i].packages, package) {
            Some(j) => Some(&repos[i].packages[j]),
            None => None,
        },
        None => None,
    }
}

/// The direct dependencies of `package` are all listed in its own repository.
pub open spec fn dependencies_listed(repos: Seq<Repo>, package: Seq<char>) -> bool {
    &&& resolvable(repos, package)
    &&& forall|k: int|
        0 <= k < entries(remote_record(repos, package).depends@).len() ==> holds(
            repos[home(repos, package)],
            #[trigger] entries(remote_record(repos, package).depends@)[k],
        )
}

/// The records of the direct dependencies of a package, in the order in which
/// it names them, each taken from the package's own repository.
pub fn get_dependencies(package_name: String, repos: &Vec<Repo>) -> (r: Result<
    Vec<PS4Package>,
    PackageDBError,
>)
    ensures
        r is Ok <==> dependencies_listed(repos@, package_name@),
        r is Ok ==> {
            let deps = entries(remote_record(repos@, package_name@).depends@);
            &&& r->Ok_0@.len() == deps.len()
            &&& forall|k: int|
                0 <= k < deps.len() ==> #[trigger] r->Ok_0@[k] == record_in(
                    repos@[home(repos@, package_name@)],
                    deps[k],
                )
        },
{
    let mut dependencies: Vec<PS4Package> = Vec::new();
    let h = match find_repo(&package_name, repos) {
        Some(h) => h,
        None => {
            return Err(PackageDBError);
        },
    };
    let j = match find_package(&repos[h].packages, &package_name) {
        Some(j) => j,
        None => {
            return Err(PackageDBError);
        },
    };
    let names = entries_of(&repos[h].packages[j].depends);
    let ghost deps = entries(remote_record(repos@, package_name@).depends@);
    let n = names.len();
    let mut i: usize = 0;
    while i < n
        invariant
            n == names.len(),
            i <= n,
            h < repos.len(),
            views(names@) == deps,
            deps == entries(remote_record(repos@, package_name@).depends@),
            h as int == home(repos@, package_name@),
            resolvable(repos@, package_name@),
            dependencies@.len() == i,
            forall|k: int| 0 <= k < i ==> holds(repos@[h as int], #[trigger] deps[k]),
            forall|k: int|
                0 <= k < i ==> #[trigger] dependencies@[k] == record_in(repos@[h as int], deps[k]),
        decreases n - i,
    {
        match find_package(&repos[h].packages, &names[i]) {
            Some(d) => {
                dependencies.push(repos[h].packages[d].clone());
            },
            None => {
                assert(deps[i as int] == names@[i as int]@);
                assert(!holds(repos@[h as int], deps[i as int]));
                return Err(PackageDBError);
            },
        }
        assert(deps[i as int] == names@[i as int]@);
        i = i + 1;
    }
    Ok(dependencies)
}

/// The packages of the repository named `repo` that provide `package`, in
/// table order; none where no repository has that name.
pub fn get_provides(repo: &String, package: &String, repos: &Vec<Repo>) -> (r: Vec<PS4Package>)
    ensures
        r@ == if repo_names(repos@).contains(repo@) {
            providers(repos@[position(repo_names(repos@), repo@)].packages@, package@)
        } else {
            Seq::<PS4Package>::empty()
        },
{
    let mut out: Vec<PS4Package> = Vec::new();
    match find_repo_named(repo, repos) {
        Some(h) => {
            let packages = &repos[h].packages;
            let n = packages.len();
            let mut i: usize = 0;
            assert(packages@.take(0) =~= Seq::<PS4Package>::empty());
            proof {
                reveal(Seq::filter);
            }
            while i < n
                invariant
                    n == packages.len(),
                    i <= n,
                    out@ == providers(packages@.take(i as int), package@),
                decreases n - i,
            {
                proof {
                    reveal(Seq::filter);
                    assert(packages@.take(i + 1).drop_last() =~= packages@.take(i as int));
                }
                if list_has(&packages[i].provides, package) {
                    out.push(packages[i].clone());
                }
                i = i + 1;
            }
            assert(packages@.take(n as int) =~= packages@);
        },
        None => {},
    }
    out
}

/// All packages of the repository named `repo` that belong to `group`, in
/// table order; none where no repository has that name.
pub fn get_group(repo: &String, group: &String, repos: &Vec<Repo>) -> (r: Vec<PS4Package>)
    ensures
        r@ == if repo_names(repos@).contains(repo@) {
            members(repos@[position(repo_names(repos@), repo@)].packages@, group@)
        } else {
            Seq::<PS4Package>::empty()
        },
{
    let mut out: Vec<PS4Package> = Vec::new();
    match find_repo_named(repo, repos) {
        Some(h) => {
            let packages = &repos[h].packages;
            let n = packages.len();
            let mut i: usize = 0;
            assert(packages@.take(0) =~= Seq::<PS4Package>::empty());
            proof {
                reveal(Seq::filter);
            }
            while i < n
                invariant
                    n == packages.len(),
                    i <= n,
                    out@ == members(packages@.take(i as int), group@),
                decreases n - i,
            {
                proof {
                    reveal(Seq::filter);
                    assert(packages@.take(i + 1).drop_last() =~= packages@.take(i as int));
                }
                if list_has(&packages[i].groups, group) {
                    out.push(packages[i].clone());
                }
                i = i + 1;
            }
            assert(packages@.take(n as int) =~= packages@);
        },
        None => {},
    }
    out
}

/// Whether a repository has a package in `group`.
pub fn repo_has_group(repo: &Repo, group: &String) -> (r: bool)
    ensures
        r == has_group(*repo, group@),
{
    let n = repo.packages.len();
    let mut i: usize = 0;
    while i < n
        invariant
            n == repo.packages.len(),
            i <= n,
            forall|k: int| 0 <= k < i ==> !lists_name(#[trigger] repo.packages@[k].groups@, group@),
        decreases n - i,
    {
        if list_has(&repo.packages[i].groups, group) {
            return true;
        }
        i = i + 1;
    }
    false
}

/// Looks for a group in the repositories and returns the name of the first
/// one that has a package in it.
pub fn search_for_group(group: &String, repos: &Vec<Repo>) -> (r: Result<String, PackageDBError>)
    ensures
        r is Ok <==> exists|h: int| is_group_home(repos@, group@, h),
        r is Ok ==> exists|h: int|
            is_group_home(repos@, group@, h) && r->Ok_0@ == repos@[h].name@,
{
    let n = repos.len();
    let mut i: usize = 0;
    while i < n
        invariant
            n == repos.len(),
            i <= n,
            forall|k: int| 0 <= k < i ==> !has_group(#[trigger] repos@[k], group@),
        decreases n - i,
    {
        if repo_has_group(&repos[i], group) {
            assert(is_group_home(repos@, group@, i as int));
            return Ok(repos[i].name.clone());
        }
        i = i + 1;
    }
    Err(PackageDBError)
}

} // verus!
