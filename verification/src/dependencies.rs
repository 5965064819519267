//! Dependency resolution: the transitive closure of `depends`, and which of
//! the names found are already satisfied by an installed package.

use vstd::prelude::*;
use crate::database::{
    entries_of, find_repo, holds, home, is_home, list_has, lists_name, remote_record, resolvable,
    resolve,
};
use crate::ledger::{find_installed, is_installed};
use crate::lists::{contains_name, entries, views};
use crate::records::{distinct, package_names, Ledger, PS4Package, Repo};

verus! {

/// A dependency that no repository lists, with the package that asks for
/// it.
#[derive(Debug, PartialEq, Eq)]
pub struct DependencyUnresolved {
    /// The name that no repository lists.
    pub name: String,
    /// The package that names it among its dependencies.
    pub required_by: String,
}

/// The names that the record of `name` depends on directly.
pub open spec fn depends_of(repos: Seq<Repo>, name: Seq<char>) -> Seq<Seq<char>> {
    entries(remote_record(repos, name).depends@)
}

/// The names that a list holds, as a set.
pub open spec fn name_set(names: Seq<String>) -> Set<Seq<char>> {
    views(names).to_set()
}

/// Every root is in `s`.
pub open spec fn covers(roots: Seq<Seq<char>>, s: Set<Seq<char>>) -> bool {
    forall|k: int| 0 <= k < roots.len() ==> s.contains(#[trigger] roots[k])
}

/// `s` holds the direct dependencies of each of its resolvable names that was
/// not decided beforehand.
pub open spec fn closed(repos: Seq<Repo>, decided: Set<Seq<char>>, s: Set<Seq<char>>) -> bool {
    forall|n: Seq<char>, k: int|
        s.contains(n) && !decided.contains(n) && resolvable(repos, n) && 0 <= k < depends_of(
            repos,
            n,
        ).len() ==> s.contains(#[trigger] depends_of(repos, n)[k])
}

/// `s` is a candidate for the resolved set: it keeps what was decided, holds
/// the roots and is closed under dependencies.
pub open spec fn admissible(
    repos: Seq<Repo>,
    decided: Set<Seq<char>>,
    roots: Seq<Seq<char>>,
    s: Set<Seq<char>>,
) -> bool {
    &&& decided.subset_of(s)
    &&& covers(roots, s)
    &&& closed(repos, decided, s)
}

/// `name` is in every candidate: resolving the roots cannot leave it out.
pub open spec fn required(
    repos: Seq<Repo>,
    decided: Set<Seq<char>>,
    roots: Seq<Seq<char>>,
    name: Seq<char>,
) -> bool {
    forall|s: Set<Seq<char>>| #[trigger] admissible(repos, decided, roots, s) ==> s.contains(name)
}

/// Every name that resolution reaches, and that was not decided beforehand,
/// is listed by some repository.
pub open spec fn all_resolvable(
    repos: Seq<Repo>,
    decided: Set<Seq<char>>,
    roots: Seq<Seq<char>>,
) -> bool {
    forall|n: Seq<char>| #[trigger]
        required(repos, decided, roots, n) && !decided.contains(n) ==> resolvable(repos, n)
}

/// The package names of all repositories, one repository after the other.
pub open spec fn all_names(repos: Seq<Repo>) -> Seq<Seq<char>>
    decreases repos.len(),
{
    if repos.len() == 0 {
        Seq::<Seq<char>>::empty()
    } else {
        all_names(repos.drop_last()) + package_names(repos.last().packages@)
    }
}

proof fn lemma_all_names(repos: Seq<Repo>, r: int, name: Seq<char>)
    requires
        0 <= r < repos.len(),
        holds(repos[r], name),
    ensures
        all_names(repos).contains(name),
    decreases repos.len(),
{
    let last = package_names(repos.last().packages@);
    let init = all_names(repos.drop_last());
    if r == repos.len() - 1 {
        let i = choose|i: int| 0 <= i < last.len() && last[i] == name;
        assert((init + last)[init.len() + i] == name);
    } else {
        lemma_all_names(repos.drop_last(), r, name);
        let i = choose|i: int| 0 <= i < init.len() && init[i] == name;
        assert((init + last)[i] == name);
    }
}

/// `x` is one of `items` from place `k` on.
pub open spec fn in_tail(items: Seq<Seq<char>>, k: int, x: Seq<char>) -> bool {
    exists|j: int| k <= j < items.len() && items[j] == x
}

/// `by` asks for `name` directly: it is the package whose dependencies are
/// resolved and names it among them, or it is a name reached on the way
/// whose record names it.
pub open spec fn asks_for(
    repos: Seq<Repo>,
    package: PS4Package,
    decided: Set<Seq<char>>,
    by: Seq<char>,
    name: Seq<char>,
) -> bool {
    ||| by == package.name@ && entries(package.depends@).contains(name)
    ||| {
        &&& resolvable(repos, by)
        &&& !decided.contains(by)
        &&& required(repos, decided, entries(package.depends@), by)
        &&& depends_of(repos, by).contains(name)
    }
}

/// Puts `items` on the stack, the first of them on top, and `by` beside
/// each of them as the package that asks for it.
fn push_pending(
    stack: &mut Vec<String>,
    parents: &mut Vec<String>,
    items: &Vec<String>,
    by: &String,
)
    requires
        old(parents)@.len() == old(stack)@.len(),
    ensures
        forall|x: Seq<char>|
            #![trigger views(final(stack)@).contains(x)]
            views(final(stack)@).contains(x) <==> views(old(stack)@).contains(x) || views(
                items@,
            ).contains(x),
        final(stack)@.len() == old(stack)@.len() + items@.len(),
        final(parents)@.len() == final(stack)@.len(),
        forall|i: int|
            0 <= i < old(stack)@.len() ==> (#[trigger] final(stack)@[i]) == old(stack)@[i]
                && final(parents)@[i] == old(parents)@[i],
        forall|i: int|
            old(stack)@.len() <= i < final(stack)@.len() ==> views(items@).contains(
                (#[trigger] final(stack)@[i])@,
            ) && final(parents)@[i]@ == by@,
{
    let ghost before = views(stack@);
    let ghost all = views(items@);
    let mut k: usize = items.len();
    while k > 0
        invariant
            k <= items.len(),
            all == views(items@),
            stack@.len() == old(stack)@.len() + (items@.len() - k),
            parents@.len() == stack@.len(),
            forall|i: int|
                0 <= i < old(stack)@.len() ==> (#[trigger] stack@[i]) == old(stack)@[i]
                    && parents@[i] == old(parents)@[i],
            forall|i: int|
                old(stack)@.len() <= i < stack@.len() ==> all.contains((#[trigger] stack@[i])@)
                    && parents@[i]@ == by@,
            forall|x: Seq<char>|
                #![trigger views(stack@).contains(x)]
                views(stack@).contains(x) <==> before.contains(x) || in_tail(all, k as int, x),
        decreases k,
    {
        let ghost prev = k as int;
        k = k - 1;
        let ghost mid = views(stack@);
        stack.push(items[k].clone());
        parents.push(by.clone());
        assert(views(stack@) =~= mid.push(all[k as int]));
        assert(all[k as int] == items@[k as int]@);
        assert(all.contains(all[k as int]));
        assert forall|x: Seq<char>|
            views(stack@).contains(x) <==> before.contains(x) || in_tail(all, k as int, x) by {
            if views(stack@).contains(x) {
                let i = choose|i: int| 0 <= i < views(stack@).len() && views(stack@)[i] == x;
                if i < mid.len() {
                    assert(mid[i] == x);
                    assert(mid.contains(x));
                    if !before.contains(x) {
                        assert(in_tail(all, prev, x));
                        let j = choose|j: int| prev <= j < all.len() && all[j] == x;
                        assert(k <= j < all.len() && all[j] == x);
                    }
                } else {
                    assert(all[k as int] == x);
                }
            }
            if before.contains(x) || in_tail(all, k as int, x) {
                if before.contains(x) || in_tail(all, prev, x) {
                    assert(mid.contains(x));
                    let i = choose|i: int| 0 <= i < mid.len() && mid[i] == x;
                    assert(views(stack@)[i] == x);
                } else {
                    let j = choose|j: int| k <= j < all.len() && all[j] == x;
                    if j > k {
                        assert(prev <= j < all.len() && all[j] == x);
                    }
                    assert(views(stack@)[mid.len() as int] == x);
                }
            }
        }
    }
    assert forall|x: Seq<char>|
        views(stack@).contains(x) <==> before.contains(x) || all.contains(x) by {
        assert(views(stack@).contains(x) <==> before.contains(x) || in_tail(all, k as int, x));
        if in_tail(all, 0, x) {
            let j = choose|j: int| 0 <= j < all.len() && all[j] == x;
            assert(all[j] == x);
        }
        if all.contains(x) {
            let j = choose|j: int| 0 <= j < all.len() && all[j] == x;
            assert(0 <= j < all.len() && all[j] == x);
        }
    }
}

/// Adds to `dependencies` every name that `package` depends on, directly or
/// through other packages. A name already in `dependencies` counts as decided
/// and is not looked into again, so a cycle ends the walk. Each new name is
/// resolved in the first repository that lists it; a name that none lists
/// stops the resolution.
pub fn run_depend_resolve(
    package: &PS4Package,
    repos: &Vec<Repo>,
    dependencies: &mut Vec<String>,
) -> (r: Result<(), DependencyUnresolved>)
    ensures
        final(dependencies)@.len() >= old(dependencies)@.len(),
        final(dependencies)@.take(old(dependencies)@.len() as int) == old(dependencies)@,
        distinct(views(old(dependencies)@)) ==> distinct(views(final(dependencies)@)),
        forall|n: Seq<char>| #[trigger]
            name_set(final(dependencies)@).contains(n) ==> required(
                repos@,
                name_set(old(dependencies)@),
                entries(package.depends@),
                n,
            ),
        r is Ok <==> all_resolvable(
            repos@,
            name_set(old(dependencies)@),
            entries(package.depends@),
        ),
        r is Ok ==> admissible(
            repos@,
            name_set(old(dependencies)@),
            entries(package.depends@),
            name_set(final(dependencies)@),
        ),
        r is Err ==> {
            &&& !resolvable(repos@, r->Err_0.name@)
            &&& !name_set(old(dependencies)@).contains(r->Err_0.name@)
            &&& required(
                repos@,
                name_set(old(dependencies)@),
                entries(package.depends@),
                r->Err_0.name@,
            )
            &&& asks_for(
                repos@,
                *package,
                name_set(old(dependencies)@),
                r->Err_0.required_by@,
                r->Err_0.name@,
            )
        },
{
    let ghost start = dependencies@;
    let ghost decided = name_set(start);
    let ghost roots = entries(package.depends@);
    let ghost mut remaining = all_names(repos@).to_set();
    let mut stack: Vec<String> = Vec::new();
    let mut parents: Vec<String> = Vec::new();
    let direct = entries_of(&package.depends);
    assert(views(stack@) =~= Seq::<Seq<char>>::empty());
    push_pending(&mut stack, &mut parents, &direct, &package.name);
    proof {
        vstd::seq_lib::seq_to_set_is_finite(all_names(repos@));
        assert forall|n: Seq<char>| resolvable(repos@, n) implies remaining.contains(n) by {
            let h = choose|h: int| is_home(repos@, n, h);
            lemma_all_names(repos@, h, n);
        }
        assert forall|n: Seq<char>| views(stack@).contains(n) implies required(
            repos@,
            decided,
            roots,
            n,
        ) by {
            assert forall|s: Set<Seq<char>>| #[trigger]
                admissible(repos@, decided, roots, s) implies s.contains(n) by {
                assert(roots.contains(n));
                let k = choose|k: int| 0 <= k < roots.len() && roots[k] == n;
                assert(s.contains(roots[k]));
            }
        }
        assert forall|n: Seq<char>| views(dependencies@).contains(n) implies required(
            repos@,
            decided,
            roots,
            n,
        ) by {
            assert(decided.contains(n));
        }
        assert(dependencies@.take(start.len() as int) =~= start);
        assert forall|k: int| 0 <= k < roots.len() implies views(stack@).contains(
            #[trigger] roots[k],
        ) by {
            assert(views(direct@)[k] == roots[k]);
            assert(views(direct@).contains(roots[k]));
        }
    }
    let mut unresolved: Option<DependencyUnresolved> = None;
    while stack.len() > 0 && unresolved.is_none()
        invariant
            parents@.len() == stack@.len(),
            forall|i: int|
                0 <= i < stack@.len() ==> asks_for(
                    repos@,
                    *package,
                    decided,
                    parents@[i]@,
                    (#[trigger] stack@[i])@,
                ),
            dependencies@.len() >= start.len(),
            dependencies@.take(start.len() as int) == start,
            decided == name_set(start),
            roots == entries(package.depends@),
            distinct(views(start)) ==> distinct(views(dependencies@)),
            remaining.finite(),
            forall|n: Seq<char>|
                resolvable(repos@, n) && !views(dependencies@).contains(n) ==> remaining.contains(
                    n,
                ),
            unresolved is None ==> forall|k: int|
                0 <= k < roots.len() ==> views(dependencies@).contains(#[trigger] roots[k])
                    || views(stack@).contains(roots[k]),
            unresolved is None ==> forall|n: Seq<char>, k: int|
                views(dependencies@).contains(n) && !decided.contains(n) && 0 <= k < depends_of(
                    repos@,
                    n,
                ).len() ==> views(dependencies@).contains(#[trigger] depends_of(repos@, n)[k])
                    || views(stack@).contains(depends_of(repos@, n)[k]),
            forall|n: Seq<char>| #[trigger]
                views(dependencies@).contains(n) && !decided.contains(n) ==> resolvable(repos@, n),
            forall|n: Seq<char>| #[trigger]
                views(dependencies@).contains(n) ==> required(repos@, decided, roots, n),
            forall|n: Seq<char>| #[trigger]
                views(stack@).contains(n) ==> required(repos@, decided, roots, n),
            forall|n: Seq<char>| decided.contains(n) ==> views(dependencies@).contains(n),
            unresolved is Some ==> {
                &&& !resolvable(repos@, unresolved->Some_0.name@)
                &&& !decided.contains(unresolved->Some_0.name@)
                &&& required(repos@, decided, roots, unresolved->Some_0.name@)
                &&& asks_for(
                    repos@,
                    *package,
                    decided,
                    unresolved->Some_0.required_by@,
                    unresolved->Some_0.name@,
                )
            },
        decreases remaining.len(), stack.len(),
    {
        let ghost stack_before = views(stack@);
        let ghost acc_before = views(dependencies@);
        let ghost top = stack@.len() - 1;
        assert(asks_for(repos@, *package, decided, parents@[top]@, stack@[top]@));
        let next = stack.pop().unwrap();
        let asked_by = parents.pop().unwrap();
        proof {
            assert(views(stack@) =~= stack_before.drop_last());
            assert(stack_before.last() == next@);
            assert forall|x: Seq<char>| stack_before.contains(x) implies views(stack@).contains(x)
                || x == next@ by {
                let i = choose|i: int| 0 <= i < stack_before.len() && stack_before[i] == x;
                if i < stack_before.len() - 1 {
                    assert(views(stack@)[i] == x);
                }
            }
            assert(stack_before.contains(next@));
            assert forall|x: Seq<char>| #[trigger]
                views(stack@).contains(x) implies stack_before.contains(x) && required(
                repos@,
                decided,
                roots,
                x,
            ) by {
                let i = choose|i: int| 0 <= i < views(stack@).len() && views(stack@)[i] == x;
                assert(stack_before[i] == x);
            }
        }
        if !contains_name(dependencies, &next) {
            match resolve(&next, repos) {
                None => {
                    unresolved = Some(DependencyUnresolved { name: next, required_by: asked_by });
                },
                Some(record) => {
                    let found = entries_of(&record.depends);
                    let ghost stack_mid = views(stack@);
                    push_pending(&mut stack, &mut parents, &found, &next);
                    dependencies.push(next);
                    proof {
                        let name = next@;
                        assert(views(dependencies@) =~= acc_before.push(name));
                        assert(views(dependencies@)[acc_before.len() as int] == name);
                        assert forall|x: Seq<char>| acc_before.contains(x) implies views(
                            dependencies@,
                        ).contains(x) by {
                            let i = choose|i: int| 0 <= i < acc_before.len() && acc_before[i] == x;
                            assert(views(dependencies@)[i] == x);
                        }
                        assert forall|x: Seq<char>| views(dependencies@).contains(x) implies
                            acc_before.contains(x) || x == name by {
                            let i = choose|i: int|
                                0 <= i < views(dependencies@).len() && views(dependencies@)[i]
                                    == x;
                            if i < acc_before.len() {
                                assert(acc_before[i] == x);
                            }
                        }
                        assert(dependencies@.take(start.len() as int) =~= start);
                        assert(remaining.contains(name));
                        remaining = remaining.remove(name);
                        assert forall|k: int|
                            0 <= k < depends_of(repos@, name).len() implies views(
                            stack@,
                        ).contains(#[trigger] depends_of(repos@, name)[k]) && required(
                            repos@,
                            decided,
                            roots,
                            depends_of(repos@, name)[k],
                        ) by {
                            let dep = depends_of(repos@, name)[k];
                            assert(views(found@)[k] == dep);
                            assert(views(found@).contains(dep));
                            assert forall|s: Set<Seq<char>>| #[trigger]
                                admissible(repos@, decided, roots, s) implies s.contains(dep) by {
                                assert(s.contains(name));
                                assert(s.contains(depends_of(repos@, name)[k]));
                            }
                        }
                        assert(required(repos@, decided, roots, name));
                        assert(resolvable(repos@, name));
                        assert forall|x: Seq<char>| #[trigger]
                            views(dependencies@).contains(x) implies required(
                            repos@,
                            decided,
                            roots,
                            x,
                        ) && (!decided.contains(x) ==> resolvable(repos@, x)) by {
                            if x != name {
                                assert(acc_before.contains(x));
                            }
                        }
                        assert forall|x: Seq<char>| stack_before.contains(x) implies views(
                            stack@,
                        ).contains(x) || views(dependencies@).contains(x) by {
                            if x != name {
                                assert(stack_mid.contains(x));
                                assert(views(stack@).contains(x));
                            } else {
                                assert(views(dependencies@).contains(x));
                            }
                        }
                        assert forall|k: int| 0 <= k < roots.len() implies views(
                            dependencies@,
                        ).contains(#[trigger] roots[k]) || views(stack@).contains(roots[k]) by {
                            if !acc_before.contains(roots[k]) {
                                assert(stack_before.contains(roots[k]));
                            }
                        }
                        assert forall|n: Seq<char>, k: int|
                            views(dependencies@).contains(n) && !decided.contains(n) && 0 <= k
                                < depends_of(repos@, n).len() implies views(
                            dependencies@,
                        ).contains(#[trigger] depends_of(repos@, n)[k]) || views(stack@).contains(
                            depends_of(repos@, n)[k],
                        ) by {
                            if n != name {
                                assert(acc_before.contains(n));
                                if !acc_before.contains(depends_of(repos@, n)[k]) {
                                    assert(stack_before.contains(depends_of(repos@, n)[k]));
                                }
                            }
                        }
                        assert forall|n: Seq<char>| views(stack@).contains(n) implies required(
                            repos@,
                            decided,
                            roots,
                            n,
                        ) by {
                            if stack_mid.contains(n) {
                                assert(stack_before.contains(n));
                            }
                            if !stack_mid.contains(n) {
                                assert(views(found@).contains(n));
                                let k = choose|k: int|
                                    0 <= k < views(found@).len() && views(found@)[k] == n;
                                assert(depends_of(repos@, name)[k] == n);
                            }
                        }
                    }
                },
            }
        }
    }
    proof {
        assert forall|n: Seq<char>| #[trigger]
            name_set(dependencies@).contains(n) implies required(repos@, decided, roots, n) by {
            assert(views(dependencies@).contains(n));
        }
    }
    if let Some(missing) = unresolved {
        proof {
            lemma_settled(repos@, decided, roots, missing.name@);
        }
        return Err(missing);
    }
    proof {
        let result = name_set(dependencies@);
        assert(start == old(dependencies)@);
        assert(covers(roots, result));
        assert(closed(repos@, decided, result));
        assert(decided.subset_of(result));
        assert(admissible(repos@, decided, roots, result));
        assert forall|n: Seq<char>| #[trigger]
            required(repos@, decided, roots, n) && !decided.contains(n) implies resolvable(
            repos@,
            n,
        ) by {
            assert(result.contains(n));
        }
    }
    Ok(())
}

/// A required name that is not decided and that no repository lists shows
/// that resolution cannot succeed.
proof fn lemma_settled(
    repos: Seq<Repo>,
    decided: Set<Seq<char>>,
    roots: Seq<Seq<char>>,
    name: Seq<char>,
)
    requires
        required(repos, decided, roots, name),
        !decided.contains(name),
        !resolvable(repos, name),
    ensures
        !all_resolvable(repos, decided, roots),
{
}

/// An installed package stands for `name`: one of that name, or one that the
/// first repository listing `name` says provides it.
pub open spec fn satisfied(repos: Seq<Repo>, ledger: Ledger, name: Seq<char>) -> bool {
    ||| is_installed(ledger, name)
    ||| resolvable(repos, name) && provided_by_installed(
        repos[home(repos, name)].packages@,
        ledger,
        name,
    )
}

/// One of `packages` provides `name` and is installed.
pub open spec fn provided_by_installed(
    packages: Seq<PS4Package>,
    ledger: Ledger,
    name: Seq<char>,
) -> bool {
    exists|i: int|
        0 <= i < packages.len() && lists_name(#[trigger] packages[i].provides@, name)
            && is_installed(ledger, packages[i].name@)
}

/// Whether an installed package stands for `name`.
pub fn check_installed(name: &String, repos: &Vec<Repo>, ledger: &Ledger) -> (r: bool)
    ensures
        r == satisfied(repos@, *ledger, name@),
{
    if find_installed(&ledger.packages, name).is_some() {
        return true;
    }
    match find_repo(name, repos) {
        None => false,
        Some(h) => {
            let packages = &repos[h].packages;
            let n = packages.len();
            let mut i: usize = 0;
            while i < n
                invariant
                    n == packages.len(),
                    i <= n,
                    resolvable(repos@, name@),
                    packages@ == repos@[home(repos@, name@)].packages@,
                    !is_installed(*ledger, name@),
                    forall|k: int|
                        0 <= k < i ==> !(lists_name(#[trigger] packages@[k].provides@, name@)
                            && is_installed(*ledger, packages@[k].name@)),
                decreases n - i,
            {
                if list_has(&packages[i].provides, name) && find_installed(
                    &ledger.packages,
                    &packages[i].name,
                ).is_some() {
                    assert(lists_name(packages@[i as int].provides@, name@) && is_installed(
                        *ledger,
                        packages@[i as int].name@,
                    ));
                    assert(provided_by_installed(packages@, *ledger, name@));
                    return true;
                }
                i = i + 1;
            }
            assert(!provided_by_installed(packages@, *ledger, name@));
            false
        },
    }
}

/// For each of `packages`, in their order, whether an installed package
/// already stands for it.
pub fn run_depend_check(packages: &Vec<String>, repos: &Vec<Repo>, ledger: &Ledger) -> (r: Vec<
    (String, bool),
>)
    ensures
        r@.len() == packages@.len(),
        forall|i: int|
            0 <= i < r@.len() ==> (#[trigger] r@[i]).0@ == packages@[i]@ && r@[i].1 == satisfied(
                repos@,
                *ledger,
                packages@[i]@,
            ),
{
    let mut out: Vec<(String, bool)> = Vec::new();
    let n = packages.len();
    let mut i: usize = 0;
    while i < n
        invariant
            n == packages.len(),
            i <= n,
            out@.len() == i,
            forall|k: int|
                0 <= k < i ==> (#[trigger] out@[k]).0@ == packages@[k]@ && out@[k].1 == satisfied(
                    repos@,
                    *ledger,
                    packages@[k]@,
                ),
        decreases n - i,
    {
        let done = check_installed(&packages[i], repos, ledger);
        out.push((packages[i].clone(), done));
        i = i + 1;
    }
    out
}

} // verus!
