//! Planning an install command: the queue of packages that the requested
//! names stand for, and what the conflicts found allow.

use vstd::prelude::*;
use vstd::string::*;
use crate::conflict::{classify_conflicts, package_conflicts, verdict_names, ConflictVerdict};
use crate::database::{find_repo, home, remote_record, resolvable, resolve};
use crate::dependencies::{
    admissible, all_resolvable, asks_for, depends_of, name_set, required, run_depend_check,
    run_depend_resolve, satisfied, DependencyUnresolved,
};
use crate::ledger::rows;
use crate::lists::views;
use crate::records::{distinct, InstallTransaction, Ledger, PS4Package, Repo, Source};
use crate::text::{decimal, decimal_string, replace_all, replaced};

verus! {

/// Why no queue could be planned.
#[derive(Debug, PartialEq, Eq)]
pub enum InstallError {
    /// A dependency is listed by no repository.
    DependencyUnresolved(DependencyUnresolved),
    /// None of the requested names is listed by a repository.
    EmptyQueue,
}

/// The names of the queued packages, in queue order.
pub open spec fn queue_names(queue: Seq<InstallTransaction>) -> Seq<Seq<char>> {
    Seq::new(queue.len(), |i: int| queue[i].package.name@)
}

/// `name` is reached from the dependencies `roots`, nothing being decided
/// beforehand.
pub open spec fn reached(repos: Seq<Repo>, roots: Seq<Seq<char>>, name: Seq<char>) -> bool {
    required(repos, Set::<Seq<char>>::empty(), roots, name)
}

/// Every name reached from the dependencies of `request` is listed by some
/// repository.
pub open spec fn dependencies_resolve(repos: Seq<Repo>, request: Seq<char>) -> bool {
    all_resolvable(repos, Set::<Seq<char>>::empty(), depends_of(repos, request))
}

/// While the dependencies of `request` are resolved, `by` asks for `name`
/// directly: `by` is the request or a name reached from it, and its record
/// names `name` among its dependencies.
pub open spec fn asked_by(
    repos: Seq<Repo>,
    request: Seq<char>,
    by: Seq<char>,
    name: Seq<char>,
) -> bool {
    asks_for(repos, remote_record(repos, request), Set::<Seq<char>>::empty(), by, name)
}

/// The request brings `name` into the queue: the request is listed by a
/// repository, and `name` is the request itself or one of its dependencies,
/// direct or not, for which no installed package stands.
pub open spec fn wanted(repos: Seq<Repo>, ledger: Ledger, request: Seq<char>, name: Seq<char>) -> bool {
    resolvable(repos, request) && (name == request || (reached(
        repos,
        depends_of(repos, request),
        name,
    ) && !satisfied(repos, ledger, name)))
}

/// Each queued package is the record that its name resolves to, with the
/// repository that lists it first as its source.
pub open spec fn queue_ok(repos: Seq<Repo>, queue: Seq<InstallTransaction>) -> bool {
    forall|i: int|
        0 <= i < queue.len() ==> {
            &&& resolvable(repos, (#[trigger] queue[i]).package.name@)
            &&& queue[i].package == remote_record(repos, queue[i].package.name@)
            &&& queue[i].source.name@ == repos[home(repos, queue[i].package.name@)].name@
            &&& queue[i].source.url is None
        }
}

/// Whether a package of that name is queued.
pub fn is_queued(queue: &Vec<InstallTransaction>, name: &String) -> (r: bool)
    ensures
        r == queue_names(queue@).contains(name@),
{
    let n = queue.len();
    let mut i: usize = 0;
    while i < n
        invariant
            n == queue.len(),
            i <= n,
            forall|k: int| 0 <= k < i ==> queue_names(queue@)[k] != name@,
        decreases n - i,
    {
        if queue[i].package.name == *name {
            assert(queue_names(queue@)[i as int] == name@);
            return true;
        }
        i = i + 1;
    }
    false
}

/// Queues the record that `name` resolves to, unless a package of that name
/// is queued already.
fn enqueue(name: &String, repos: &Vec<Repo>, queue: &mut Vec<InstallTransaction>)
    requires
        resolvable(repos@, name@),
        queue_ok(repos@, old(queue)@),
    ensures
        queue_ok(repos@, final(queue)@),
        distinct(queue_names(old(queue)@)) ==> distinct(queue_names(final(queue)@)),
        forall|x: Seq<char>|
            #![trigger queue_names(final(queue)@).contains(x)]
            queue_names(final(queue)@).contains(x) <==> queue_names(old(queue)@).contains(x) || x
                == name@,
{
    let ghost before = queue_names(queue@);
    if is_queued(queue, name) {
        return ;
    }
    let h = find_repo(name, repos).unwrap();
    let record = resolve(name, repos).unwrap();
    let entry = InstallTransaction {
        package: record.clone(),
        source: Source { name: repos[h].name.clone(), url: None },
    };
    queue.push(entry);
    proof {
        assert(queue_names(queue@) =~= before.push(name@));
        assert(queue_names(queue@)[before.len() as int] == name@);
        assert forall|x: Seq<char>| #![trigger queue_names(queue@).contains(x)]
            queue_names(queue@).contains(x) <==> before.contains(x) || x == name@ by {
            if before.contains(x) {
                let i = choose|i: int| 0 <= i < before.len() && before[i] == x;
                assert(queue_names(queue@)[i] == x);
            }
            if queue_names(queue@).contains(x) {
                let i = choose|i: int|
                    0 <= i < queue_names(queue@).len() && queue_names(queue@)[i] == x;
                if i < before.len() {
                    assert(before[i] == x);
                }
            }
        }
    }
}

/// Brings one requested name into the queue: the package itself and each of
/// its dependencies, direct or not, for which no installed package stands.
/// A name that no repository lists is passed over (`Ok(false)`).
pub fn expand_request(
    request: &String,
    repos: &Vec<Repo>,
    ledger: &Ledger,
    queue: &mut Vec<InstallTransaction>,
) -> (r: Result<bool, DependencyUnresolved>)
    requires
        queue_ok(repos@, old(queue)@),
    ensures
        queue_ok(repos@, final(queue)@),
        distinct(queue_names(old(queue)@)) ==> distinct(queue_names(final(queue)@)),
        forall|x: Seq<char>|
            queue_names(old(queue)@).contains(x) ==> queue_names(final(queue)@).contains(x),
        match r {
            Ok(found) => {
                &&& found == resolvable(repos@, request@)
                &&& resolvable(repos@, request@) ==> dependencies_resolve(repos@, request@)
                &&& forall|x: Seq<char>|
                    #![trigger queue_names(final(queue)@).contains(x)]
                    queue_names(final(queue)@).contains(x) <==> queue_names(old(queue)@).contains(
                        x,
                    ) || wanted(repos@, *ledger, request@, x)
            },
            Err(e) => {
                &&& resolvable(repos@, request@)
                &&& !dependencies_resolve(repos@, request@)
                &&& !resolvable(repos@, e.name@)
                &&& reached(repos@, depends_of(repos@, request@), e.name@)
                &&& asked_by(repos@, request@, e.required_by@, e.name@)
            },
        },
{
    let ghost before = queue_names(queue@);
    let record = match resolve(request, repos) {
        Some(record) => record,
        None => {
            return Ok(false);
        },
    };
    let mut found: Vec<String> = Vec::new();
    let ghost roots = depends_of(repos@, request@);
    let ghost none = Set::<Seq<char>>::empty();
    assert(name_set(found@) =~= none);
    let resolved = run_depend_resolve(record, repos, &mut found);
    enqueue(request, repos, queue);
    match resolved {
        Err(e) => Err(e),
        Ok(()) => {
            let checked = run_depend_check(&found, repos, ledger);
            let n = checked.len();
            let mut i: usize = 0;
            proof {
                assert forall|x: Seq<char>| views(found@).contains(x) <==> reached(
                    repos@,
                    roots,
                    x,
                ) by {
                    if views(found@).contains(x) {
                        assert(name_set(found@).contains(x));
                    }
                    if reached(repos@, roots, x) {
                        assert(admissible(repos@, none, roots, name_set(found@)));
                        assert(name_set(found@).contains(x));
                    }
                }
            }
            while i < n
                invariant
                    n == checked.len(),
                    n == found.len(),
                    i <= n,
                    resolvable(repos@, request@),
                    roots == depends_of(repos@, request@),
                    none == Set::<Seq<char>>::empty(),
                    queue_ok(repos@, queue@),
                    distinct(before) ==> distinct(queue_names(queue@)),
                    all_resolvable(repos@, none, roots),
                    forall|x: Seq<char>| views(found@).contains(x) <==> reached(repos@, roots, x),
                    forall|k: int|
                        0 <= k < n ==> (#[trigger] checked@[k]).0@ == found@[k]@ && checked@[k].1
                            == satisfied(repos@, *ledger, found@[k]@),
                    forall|x: Seq<char>|
                        #![trigger queue_names(queue@).contains(x)]
                        queue_names(queue@).contains(x) <==> before.contains(x) || x == request@
                            || exists|k: int|
                            0 <= k < i && views(found@)[k] == x && !satisfied(repos@, *ledger, x),
                decreases n - i,
            {
                let ghost mid = queue_names(queue@);
                let ghost name = found@[i as int]@;
                proof {
                    assert(views(found@)[i as int] == name);
                    assert(views(found@).contains(name));
                    assert(reached(repos@, roots, name));
                    assert(!none.contains(name));
                    assert(resolvable(repos@, name));
                }
                if !checked[i].1 {
                    enqueue(&checked[i].0, repos, queue);
                }
                proof {
                    assert forall|x: Seq<char>| #![trigger queue_names(queue@).contains(x)]
                        queue_names(queue@).contains(x) <==> before.contains(x) || x == request@
                            || exists|k: int|
                            0 <= k < i + 1 && views(found@)[k] == x && !satisfied(
                                repos@,
                                *ledger,
                                x,
                            ) by {
                        if mid.contains(x) && !(before.contains(x) || x == request@) {
                            let k = choose|k: int|
                                0 <= k < i && views(found@)[k] == x && !satisfied(
                                    repos@,
                                    *ledger,
                                    x,
                                );
                            assert(0 <= k < i + 1 && views(found@)[k] == x);
                        }
                        if exists|k: int|
                            0 <= k < i + 1 && views(found@)[k] == x && !satisfied(
                                repos@,
                                *ledger,
                                x,
                            ) {
                            let k = choose|k: int|
                                0 <= k < i + 1 && views(found@)[k] == x && !satisfied(
                                    repos@,
                                    *ledger,
                                    x,
                                );
                            if k < i {
                                assert(mid.contains(x));
                            }
                        }
                    }
                }
                i = i + 1;
            }
            proof {
                assert forall|x: Seq<char>| #![trigger queue_names(queue@).contains(x)]
                    queue_names(queue@).contains(x) <==> before.contains(x) || wanted(
                        repos@,
                        *ledger,
                        request@,
                        x,
                    ) by {
                    if queue_names(queue@).contains(x) && !before.contains(x) && x != request@ {
                        let k = choose|k: int|
                            0 <= k < n && views(found@)[k] == x && !satisfied(repos@, *ledger, x);
                        assert(views(found@).contains(x));
                    }
                    if reached(repos@, roots, x) && !satisfied(repos@, *ledger, x) {
                        assert(views(found@).contains(x));
                        let k = choose|k: int| 0 <= k < views(found@).len() && views(found@)[k] == x;
                        assert(0 <= k < n && views(found@)[k] == x);
                    }
                }
            }
            Ok(true)
        },
    }
}

/// The packages to install and the requested names that no repository
/// lists.
pub struct InstallQueue {
    pub packages: Vec<InstallTransaction>,
    pub missing: Vec<String>,
}

/// One of the first `upto` requests brings `name` into the queue.
pub open spec fn wanted_by(
    repos: Seq<Repo>,
    ledger: Ledger,
    requested: Seq<Seq<char>>,
    upto: int,
    name: Seq<char>,
) -> bool {
    exists|k: int| 0 <= k < upto && wanted(repos, ledger, #[trigger] requested[k], name)
}

/// `name` is one of the first `upto` requests and no repository lists it.
pub open spec fn missing_in(
    repos: Seq<Repo>,
    requested: Seq<Seq<char>>,
    upto: int,
    name: Seq<char>,
) -> bool {
    exists|k: int| 0 <= k < upto && #[trigger] requested[k] == name && !resolvable(repos, name)
}

/// The requested names that no repository lists, in the order of the
/// requests.
pub open spec fn unlisted(repos: Seq<Repo>, requested: Seq<Seq<char>>) -> Seq<Seq<char>>
    decreases requested.len(),
{
    if requested.len() == 0 {
        Seq::<Seq<char>>::empty()
    } else {
        let rest = unlisted(repos, requested.drop_last());
        if resolvable(repos, requested.last()) {
            rest
        } else {
            rest.push(requested.last())
        }
    }
}

/// Plans the queue of an install command: each requested package that a
/// repository lists, with the dependencies that are not yet satisfied. A
/// dependency that cannot be resolved ends the planning, and so does a queue
/// that stays empty.
pub fn plan_install(requested: &Vec<String>, repos: &Vec<Repo>, ledger: &Ledger) -> (r: Result<
    InstallQueue,
    InstallError,
>)
    ensures
        match r {
            Ok(q) => {
                &&& queue_ok(repos@, q.packages@)
                &&& distinct(queue_names(q.packages@))
                &&& q.packages@.len() > 0
                &&& forall|k: int|
                    0 <= k < requested@.len() && resolvable(repos@, #[trigger] views(requested@)[k])
                        ==> dependencies_resolve(repos@, views(requested@)[k])
                &&& forall|x: Seq<char>|
                    #![trigger queue_names(q.packages@).contains(x)]
                    queue_names(q.packages@).contains(x) <==> wanted_by(
                        repos@,
                        *ledger,
                        views(requested@),
                        requested@.len() as int,
                        x,
                    )
                &&& views(q.missing@) == unlisted(repos@, views(requested@))
                &&& forall|x: Seq<char>|
                    #![trigger views(q.missing@).contains(x)]
                    views(q.missing@).contains(x) <==> missing_in(
                        repos@,
                        views(requested@),
                        requested@.len() as int,
                        x,
                    )
            },
            Err(InstallError::EmptyQueue) => forall|k: int|
                0 <= k < requested@.len() ==> !resolvable(repos@, #[trigger] views(requested@)[k]),
            Err(InstallError::DependencyUnresolved(e)) => exists|k: int|
                {
                    &&& 0 <= k < requested@.len()
                    &&& resolvable(repos@, #[trigger] views(requested@)[k])
                    &&& !dependencies_resolve(repos@, views(requested@)[k])
                    &&& reached(repos@, depends_of(repos@, views(requested@)[k]), e.name@)
                    &&& !resolvable(repos@, e.name@)
                    &&& asked_by(repos@, views(requested@)[k], e.required_by@, e.name@)
                },
        },
{
    let mut packages: Vec<InstallTransaction> = Vec::new();
    let mut missing: Vec<String> = Vec::new();
    let ghost all = views(requested@);
    let n = requested.len();
    let mut i: usize = 0;
    assert(all.take(0) =~= Seq::<Seq<char>>::empty());
    assert(views(missing@) =~= Seq::<Seq<char>>::empty());
    while i < n
        invariant
            n == requested.len(),
            i <= n,
            all == views(requested@),
            views(missing@) == unlisted(repos@, all.take(i as int)),
            queue_ok(repos@, packages@),
            distinct(queue_names(packages@)),
            forall|k: int|
                0 <= k < i && resolvable(repos@, #[trigger] all[k]) ==> dependencies_resolve(
                    repos@,
                    all[k],
                ),
            forall|x: Seq<char>|
                #![trigger queue_names(packages@).contains(x)]
                queue_names(packages@).contains(x) <==> wanted_by(
                    repos@,
                    *ledger,
                    all,
                    i as int,
                    x,
                ),
            forall|x: Seq<char>|
                #![trigger views(missing@).contains(x)]
                views(missing@).contains(x) <==> missing_in(repos@, all, i as int, x),
        decreases n - i,
    {
        let ghost names_before = queue_names(packages@);
        let ghost missing_before = views(missing@);
        let ghost request = all[i as int];
        assert(request == requested@[i as int]@);
        assert(all.take(i + 1).drop_last() =~= all.take(i as int));
        match expand_request(&requested[i], repos, ledger, &mut packages) {
            Err(e) => {
                return Err(InstallError::DependencyUnresolved(e));
            },
            Ok(found) => {
                if !found {
                    missing.push(requested[i].clone());
                    assert(views(missing@) =~= missing_before.push(request));
                }
                proof {
                    assert forall|x: Seq<char>| #![trigger views(missing@).contains(x)]
                        views(missing@).contains(x) <==> missing_in(repos@, all, i + 1, x) by {
                        if missing_before.contains(x) {
                            let j = choose|j: int|
                                0 <= j < missing_before.len() && missing_before[j] == x;
                            if !found {
                                assert(views(missing@)[j] == x);
                            }
                            assert(missing_in(repos@, all, i as int, x));
                            let k = choose|k: int|
                                0 <= k < i && #[trigger] all[k] == x && !resolvable(repos@, x);
                            assert(0 <= k < i + 1 && all[k] == x);
                        }
                        if views(missing@).contains(x) && !missing_before.contains(x) {
                            let j = choose|j: int|
                                0 <= j < views(missing@).len() && views(missing@)[j] == x;
                            if j < missing_before.len() {
                                assert(missing_before[j] == x);
                            }
                            assert(x == request);
                            assert(all[i as int] == x);
                        }
                        if missing_in(repos@, all, i + 1, x) {
                            let k = choose|k: int|
                                0 <= k < i + 1 && #[trigger] all[k] == x && !resolvable(repos@, x);
                            if k < i {
                                assert(missing_in(repos@, all, i as int, x));
                            } else {
                                assert(views(missing@)[missing_before.len() as int] == x);
                            }
                        }
                    }
                    assert forall|x: Seq<char>| #![trigger queue_names(packages@).contains(x)]
                        queue_names(packages@).contains(x) <==> wanted_by(
                            repos@,
                            *ledger,
                            all,
                            i + 1,
                            x,
                        ) by {
                        if names_before.contains(x) {
                            assert(wanted_by(repos@, *ledger, all, i as int, x));
                            let k = choose|k: int|
                                0 <= k < i && wanted(repos@, *ledger, #[trigger] all[k], x);
                            assert(0 <= k < i + 1 && wanted(repos@, *ledger, all[k], x));
                        }
                        if wanted(repos@, *ledger, request, x) {
                            assert(wanted(repos@, *ledger, all[i as int], x));
                        }
                        if wanted_by(repos@, *ledger, all, i + 1, x) {
                            let k = choose|k: int|
                                0 <= k < i + 1 && wanted(repos@, *ledger, #[trigger] all[k], x);
                            if k < i {
                                assert(wanted_by(repos@, *ledger, all, i as int, x));
                            }
                        }
                    }
                }
            },
        }
        i = i + 1;
    }
    if packages.len() == 0 {
        proof {
            assert forall|k: int| 0 <= k < n implies !resolvable(repos@, #[trigger] all[k]) by {
                if resolvable(repos@, all[k]) {
                    assert(wanted(repos@, *ledger, all[k], all[k]));
                    assert(wanted_by(repos@, *ledger, all, n as int, all[k]));
                    assert(queue_names(packages@).contains(all[k]));
                }
            }
        }
        return Err(InstallError::EmptyQueue);
    }
    assert(all.take(n as int) =~= all);
    Ok(InstallQueue { packages, missing })
}

/// For each queued package, in queue order, the installed packages that
/// conflict with it, sorted into those it can replace and those that forbid
/// it.
pub fn check_queue_conflicts(queue: &Vec<InstallTransaction>, ledger: &Ledger) -> (r: Vec<
    ConflictVerdict,
>)
    ensures
        r@.len() == queue@.len(),
        forall|i: int|
            0 <= i < r@.len() ==> {
                &&& views((#[trigger] r@[i]).replaceable@) == verdict_names(
                    package_conflicts(rows(ledger.packages@), queue@[i].package.name@),
                    queue@[i].package.provides@,
                    true,
                )
                &&& views(r@[i].hard@) == verdict_names(
                    package_conflicts(rows(ledger.packages@), queue@[i].package.name@),
                    queue@[i].package.provides@,
                    false,
                )
            },
{
    let mut out: Vec<ConflictVerdict> = Vec::new();
    let n = queue.len();
    let mut i: usize = 0;
    while i < n
        invariant
            n == queue.len(),
            i <= n,
            out@.len() == i,
            forall|k: int|
                0 <= k < i ==> {
                    &&& views((#[trigger] out@[k]).replaceable@) == verdict_names(
                        package_conflicts(rows(ledger.packages@), queue@[k].package.name@),
                        queue@[k].package.provides@,
                        true,
                    )
                    &&& views(out@[k].hard@) == verdict_names(
                        package_conflicts(rows(ledger.packages@), queue@[k].package.name@),
                        queue@[k].package.provides@,
                        false,
                    )
                },
        decreases n - i,
    {
        out.push(classify_conflicts(&queue[i].package, ledger));
        i = i + 1;
    }
    out
}

/// What the conflicts found allow.
#[derive(Debug, Clone, Copy, PartialEq, Eq, Structural)]
pub enum ConflictDecision {
    /// No installed package conflicts.
    Proceed,
    /// Every conflicting package can be replaced: the operator decides.
    AskReplace,
    /// A conflicting package cannot be replaced: the transaction ends.
    Abort,
}

/// Some verdict names a package that forbids the install.
pub open spec fn any_hard(verdicts: Seq<ConflictVerdict>) -> bool {
    exists|i: int| 0 <= i < verdicts.len() && (#[trigger] verdicts[i]).hard@.len() > 0
}

/// Some verdict names a package that can be replaced.
pub open spec fn any_replaceable(verdicts: Seq<ConflictVerdict>) -> bool {
    exists|i: int| 0 <= i < verdicts.len() && (#[trigger] verdicts[i]).replaceable@.len() > 0
}

/// Decides from the verdicts whether the transaction goes on: a conflict
/// that no replacement resolves ends it; replacements alone are put to the
/// operator.
pub fn conflict_decision(verdicts: &Vec<ConflictVerdict>) -> (r: ConflictDecision)
    ensures
        r == if any_hard(verdicts@) {
            ConflictDecision::Abort
        } else if any_replaceable(verdicts@) {
            ConflictDecision::AskReplace
        } else {
            ConflictDecision::Proceed
        },
{
    let n = verdicts.len();
    let mut replace = false;
    let mut i: usize = 0;
    while i < n
        invariant
            n == verdicts.len(),
            i <= n,
            forall|k: int| 0 <= k < i ==> (#[trigger] verdicts@[k]).hard@.len() == 0,
            replace == exists|k: int|
                0 <= k < i && (#[trigger] verdicts@[k]).replaceable@.len() > 0,
        decreases n - i,
    {
        if verdicts[i].hard.len() > 0 {
            return ConflictDecision::Abort;
        }
        if verdicts[i].replaceable.len() > 0 {
            replace = true;
        }
        i = i + 1;
    }
    if replace {
        ConflictDecision::AskReplace
    } else {
        ConflictDecision::Proceed
    }
}

/// The file name of a package's archive: name, version and epoch joined by
/// hyphens, with the ending `.tar.gz`.
pub open spec fn archive_file(package: PS4Package) -> Seq<char> {
    package.name@ + "-"@ + package.version@ + "-"@ + decimal(package.upstream as int) + ".tar.gz"@
}

/// The file name of a package's archive.
pub fn archive_name(package: &PS4Package) -> (r: String)
    ensures
        r@ == archive_file(*package),
{
    let mut out = package.name.clone();
    out.append("-");
    out.append(package.version.as_str());
    out.append("-");
    let epoch = decimal_string(package.upstream);
    out.append(epoch.as_str());
    out.append(".tar.gz");
    out
}

/// The address of a package's archive at a mirror: the mirror template with
/// `$repo` filled in, a slash and the archive's file name.
pub fn archive_address(mirror: &String, repo: &String, package: &PS4Package) -> (r: String)
    ensures
        r@ == replaced(mirror@, "$repo"@, repo@) + "/"@ + archive_file(*package),
{
    let mut out = replace_all(mirror.as_str(), "$repo", repo.as_str());
    out.append("/");
    let name = archive_name(package);
    out.append(name.as_str());
    out
}

} // verus!
