//! What the remove, upgrade, group-install and list commands decide, and
//! the small decisions around them: the operator's answer and the lock.

use vstd::prelude::*;
use vstd::string::*;
use crate::database::{
    get_remote_package, has_group, is_group_home, list_has, listed_in, lists_name, record_in,
    repo_has_group, repo_names,
};
use crate::ledger::{dependents, find_installed, get_depended_on, is_installed, row_names, rows};
use crate::lists::{
    chars_of, contains_name, insert_name, lemma_split_nonempty, split, split_commas, views,
};
use crate::records::{
    distinct, position, InstalledPS4Packages, InstalledRow, Ledger, PackageDBError, Repo,
};
use crate::text::{strip, stripped};
use crate::version::{is_newer, is_update, version_order};

verus! {

/// What a remove command found out before anything is deleted.
pub struct RemovalPlan {
    /// The requested packages that are installed, each once.
    pub packages: Vec<String>,
    /// The requested names that are not installed.
    pub missing: Vec<String>,
    /// For each of `packages`, the installed packages that depend on it.
    pub depended_on: Vec<Vec<String>>,
    /// Some requested package is depended on: nothing may be removed.
    pub abort: bool,
}

/// Some package of the plan is depended on.
pub open spec fn any_dependent(depended_on: Seq<Vec<String>>) -> bool {
    exists|k: int| 0 <= k < depended_on.len() && (#[trigger] depended_on[k])@.len() > 0
}

/// The names of the installed packages that depend on `package`.
pub fn dependent_names(package: &String, ledger: &Ledger) -> (r: Vec<String>)
    ensures
        views(r@) == row_names(dependents(rows(ledger.packages@), package@)),
{
    let found = get_depended_on(package, ledger);
    let mut out: Vec<String> = Vec::new();
    let n = found.len();
    let mut i: usize = 0;
    while i < n
        invariant
            n == found.len(),
            i <= n,
            views(out@) == row_names(rows(found@)).take(i as int),
        decreases n - i,
    {
        let ghost before = views(out@);
        out.push(found[i].name.clone());
        assert(views(out@) =~= before.push(found@[i as int].name@));
        assert(row_names(rows(found@))[i as int] == found@[i as int].name@);
        assert(views(out@) =~= row_names(rows(found@)).take(i + 1));
        i = i + 1;
    }
    assert(row_names(rows(found@)).take(n as int) =~= row_names(rows(found@)));
    out
}

/// The requested names that are installed (`wanted`) or are not, each once,
/// in the order in which they were first asked for.
pub open spec fn chosen(requested: Seq<Seq<char>>, ledger: Ledger, wanted: bool) -> Seq<Seq<char>>
    decreases requested.len(),
{
    if requested.len() == 0 {
        Seq::<Seq<char>>::empty()
    } else {
        let rest = chosen(requested.drop_last(), ledger, wanted);
        if is_installed(ledger, requested.last()) == wanted && !rest.contains(requested.last()) {
            rest.push(requested.last())
        } else {
            rest
        }
    }
}

/// Examines a remove command: which of the requested packages are
/// installed, and which installed packages depend on them. Where any does,
/// the command has to end without touching the file system.
pub fn plan_remove(requested: &Vec<String>, ledger: &Ledger) -> (r: RemovalPlan)
    ensures
        views(r.packages@) == chosen(views(requested@), *ledger, true),
        views(r.missing@) == chosen(views(requested@), *ledger, false),
        forall|x: Seq<char>|
            #![trigger views(r.packages@).contains(x)]
            views(r.packages@).contains(x) <==> views(requested@).contains(x) && is_installed(
                *ledger,
                x,
            ),
        forall|x: Seq<char>|
            #![trigger views(r.missing@).contains(x)]
            views(r.missing@).contains(x) <==> views(requested@).contains(x) && !is_installed(
                *ledger,
                x,
            ),
        distinct(views(r.packages@)),
        r.depended_on@.len() == r.packages@.len(),
        forall|k: int|
            0 <= k < r.packages@.len() ==> views((#[trigger] r.depended_on@[k])@) == row_names(
                dependents(rows(ledger.packages@), r.packages@[k]@),
            ),
        r.abort == any_dependent(r.depended_on@),
{
    let mut packages: Vec<String> = Vec::new();
    let mut missing: Vec<String> = Vec::new();
    let n = requested.len();
    let mut i: usize = 0;
    assert(views(packages@) =~= Seq::<Seq<char>>::empty());
    assert(views(missing@) =~= Seq::<Seq<char>>::empty());
    assert(views(requested@).take(0) =~= Seq::<Seq<char>>::empty());
    while i < n
        invariant
            n == requested.len(),
            i <= n,
            distinct(views(packages@)),
            views(packages@) == chosen(views(requested@).take(i as int), *ledger, true),
            views(missing@) == chosen(views(requested@).take(i as int), *ledger, false),
            forall|x: Seq<char>|
                #![trigger views(packages@).contains(x)]
                views(packages@).contains(x) <==> views(requested@).take(i as int).contains(x)
                    && is_installed(*ledger, x),
            forall|x: Seq<char>|
                #![trigger views(missing@).contains(x)]
                views(missing@).contains(x) <==> views(requested@).take(i as int).contains(x)
                    && !is_installed(*ledger, x),
        decreases n - i,
    {
        let ghost name = requested@[i as int]@;
        proof {
            let before = views(requested@).take(i as int);
            let after = views(requested@).take(i + 1);
            assert(after =~= before.push(name));
            assert(after.drop_last() =~= before);
            assert(after[i as int] == name);
            assert forall|x: Seq<char>| after.contains(x) <==> before.contains(x) || x
                == name by {
                if before.contains(x) {
                    let j = choose|j: int| 0 <= j < before.len() && before[j] == x;
                    assert(after[j] == x);
                }
                if after.contains(x) {
                    let j = choose|j: int| 0 <= j < after.len() && after[j] == x;
                    if j < before.len() {
                        assert(before[j] == x);
                    }
                }
            }
        }
        if find_installed(&ledger.packages, &requested[i]).is_some() {
            insert_name(&mut packages, requested[i].clone());
        } else {
            insert_name(&mut missing, requested[i].clone());
        }
        i = i + 1;
    }
    assert(views(requested@).take(n as int) =~= views(requested@));
    let mut depended_on: Vec<Vec<String>> = Vec::new();
    let mut abort = false;
    let m = packages.len();
    let mut k: usize = 0;
    while k < m
        invariant
            m == packages.len(),
            k <= m,
            depended_on@.len() == k,
            forall|j: int|
                0 <= j < k ==> views((#[trigger] depended_on@[j])@) == row_names(
                    dependents(rows(ledger.packages@), packages@[j]@),
                ),
            abort == any_dependent(depended_on@),
        decreases m - k,
    {
        let ghost before = depended_on@;
        let users = dependent_names(&packages[k], ledger);
        let some = users.len() > 0;
        depended_on.push(users);
        proof {
            assert(depended_on@ =~= before.push(depended_on@[k as int]));
            if any_dependent(before) {
                let j = choose|j: int| 0 <= j < before.len() && (#[trigger] before[j])@.len() > 0;
                assert(depended_on@[j]@.len() > 0);
            }
            if any_dependent(depended_on@) && !some {
                let j = choose|j: int|
                    0 <= j < depended_on@.len() && (#[trigger] depended_on@[j])@.len() > 0;
                assert(before[j]@.len() > 0);
            }
        }
        abort = abort || some;
        k = k + 1;
    }
    RemovalPlan { packages, missing, depended_on, abort }
}

/// The repository that a ledger row names as its source: the text before
/// the first comma.
pub open spec fn source_name(source: Seq<char>) -> Seq<char> {
    split(source)[0]
}

/// The repository of the row lists a newer package of the row's name.
/// Packages installed from a local archive have no repository.
pub open spec fn update_available(repos: Seq<Repo>, row: InstalledRow) -> bool {
    let from = source_name(row.source);
    &&& from != "local"@
    &&& listed_in(repos, from, row.name)
    &&& {
        let remote = record_in(repos[position(repo_names(repos), from)], row.name);
        is_newer(remote.upstream, row.upstream, version_order(remote.version@, row.version))
    }
}

/// The names of the rows for which an update is available, in ledger order.
pub open spec fn updates(repos: Seq<Repo>, all: Seq<InstalledRow>) -> Seq<Seq<char>>
    decreases all.len(),
{
    if all.len() == 0 {
        Seq::<Seq<char>>::empty()
    } else {
        let rest = updates(repos, all.drop_last());
        if update_available(repos, all.last()) {
            rest.push(all.last().name)
        } else {
            rest
        }
    }
}

/// Whether the repository that `package` was installed from lists a newer
/// one.
pub fn has_update(package: &InstalledPS4Packages, repos: &Vec<Repo>) -> (r: bool)
    ensures
        r == update_available(repos@, package@),
{
    let parts = split_commas(&package.source);
    proof {
        lemma_split_nonempty(package.source@);
    }
    let local = String::from_str("local");
    if parts[0] == local {
        return false;
    }
    match get_remote_package(&package.name, &parts[0], repos) {
        Ok(remote) => is_update(&remote, package),
        Err(_) => false,
    }
}

/// The installed packages for which their repository lists a newer one.
pub fn find_updates(ledger: &Ledger, repos: &Vec<Repo>) -> (r: Vec<String>)
    ensures
        views(r@) == updates(repos@, rows(ledger.packages@)),
{
    let mut out: Vec<String> = Vec::new();
    let n = ledger.packages.len();
    let mut i: usize = 0;
    assert(rows(ledger.packages@).take(0) =~= Seq::<InstalledRow>::empty());
    assert(views(out@) =~= Seq::<Seq<char>>::empty());
    while i < n
        invariant
            n == ledger.packages.len(),
            i <= n,
            views(out@) == updates(repos@, rows(ledger.packages@).take(i as int)),
        decreases n - i,
    {
        proof {
            assert(rows(ledger.packages@).take(i + 1).drop_last() =~= rows(ledger.packages@).take(
                i as int,
            ));
        }
        let ghost before = views(out@);
        if has_update(&ledger.packages[i], repos) {
            out.push(ledger.packages[i].name.clone());
            assert(views(out@) =~= before.push(ledger.packages@[i as int].name@));
        }
        i = i + 1;
    }
    assert(rows(ledger.packages@).take(n as int) =~= rows(ledger.packages@));
    out
}

/// The first repository with a package in `group` has a package named
/// `name` in that group.
pub open spec fn in_group(repos: Seq<Repo>, group: Seq<char>, name: Seq<char>) -> bool {
    exists|h: int, i: int|
        is_group_home(repos, group, h) && 0 <= i < repos[h].packages@.len() && lists_name(
            (#[trigger] repos[h].packages@[i]).groups@,
            group,
        ) && repos[h].packages@[i].name@ == name
}

/// Some repository has a package in the group.
pub open spec fn group_known(repos: Seq<Repo>, group: Seq<char>) -> bool {
    exists|h: int| is_group_home(repos, group, h)
}

/// One of the first `upto` groups brings `name`.
pub open spec fn in_groups(
    repos: Seq<Repo>,
    groups: Seq<Seq<char>>,
    upto: int,
    name: Seq<char>,
) -> bool {
    exists|k: int| 0 <= k < upto && in_group(repos, #[trigger] groups[k], name)
}

/// The first repository that has a package in `group`.
pub fn find_group_repo(group: &String, repos: &Vec<Repo>) -> (r: Option<usize>)
    ensures
        match r {
            Some(h) => is_group_home(repos@, group@, h as int),
            None => !group_known(repos@, group@),
        },
{
    let n = repos.len();
    let mut i: usize = 0;
    while i < n
        invariant
            n == repos.len(),
            i <= n,
            forall|k: int| 0 <= k < i ==> !has_group(#[trigger] repos@[k], group@),
        decreases n - i,
    {
        if repo_has_group(&repos[i], group) {
            return Some(i);
        }
        i = i + 1;
    }
    None
}

/// The packages that a group-install command asks for: for each group, the
/// packages in it in the first repository that has any, each name once. A
/// group that no repository knows ends the command.
pub fn group_queue(groups: &Vec<String>, repos: &Vec<Repo>) -> (r: Result<
    Vec<String>,
    PackageDBError,
>)
    ensures
        r is Ok <==> forall|k: int|
            0 <= k < groups@.len() ==> group_known(repos@, #[trigger] views(groups@)[k]),
        r is Ok ==> distinct(views(r->Ok_0@)) && forall|x: Seq<char>|
            #![trigger views(r->Ok_0@).contains(x)]
            views(r->Ok_0@).contains(x) <==> in_groups(
                repos@,
                views(groups@),
                groups@.len() as int,
                x,
            ),
{
    let mut out: Vec<String> = Vec::new();
    let ghost all = views(groups@);
    let n = groups.len();
    let mut g: usize = 0;
    assert(views(out@) =~= Seq::<Seq<char>>::empty());
    while g < n
        invariant
            n == groups.len(),
            g <= n,
            all == views(groups@),
            distinct(views(out@)),
            forall|k: int| 0 <= k < g ==> group_known(repos@, #[trigger] all[k]),
            forall|x: Seq<char>|
                #![trigger views(out@).contains(x)]
                views(out@).contains(x) <==> in_groups(repos@, all, g as int, x),
        decreases n - g,
    {
        let ghost group = all[g as int];
        assert(group == groups@[g as int]@);
        let h = match find_group_repo(&groups[g], repos) {
            Some(h) => h,
            None => {
                return Err(PackageDBError);
            },
        };
        let packages = &repos[h].packages;
        let m = packages.len();
        let mut i: usize = 0;
        let ghost start = views(out@);
        while i < m
            invariant
                m == packages.len(),
                i <= m,
                g < n,
                n == groups.len(),
                h < repos.len(),
                packages@ == repos@[h as int].packages@,
                group == groups@[g as int]@,
                is_group_home(repos@, group, h as int),
                distinct(views(out@)),
                forall|x: Seq<char>|
                    #![trigger views(out@).contains(x)]
                    views(out@).contains(x) <==> start.contains(x) || exists|j: int|
                        0 <= j < i && lists_name((#[trigger] packages@[j]).groups@, group)
                            && packages@[j].name@ == x,
            decreases m - i,
        {
            let ghost mid = views(out@);
            if list_has(&packages[i].groups, &groups[g]) {
                insert_name(&mut out, packages[i].name.clone());
            }
            proof {
                assert forall|x: Seq<char>| #![trigger views(out@).contains(x)]
                    views(out@).contains(x) <==> start.contains(x) || exists|j: int|
                        0 <= j < i + 1 && lists_name((#[trigger] packages@[j]).groups@, group)
                            && packages@[j].name@ == x by {
                    if mid.contains(x) && !start.contains(x) {
                        let j = choose|j: int|
                            0 <= j < i && lists_name((#[trigger] packages@[j]).groups@, group)
                                && packages@[j].name@ == x;
                        assert(0 <= j < i + 1 && lists_name(packages@[j].groups@, group));
                    }
                    if exists|j: int|
                        0 <= j < i + 1 && lists_name((#[trigger] packages@[j]).groups@, group)
                            && packages@[j].name@ == x {
                        let j = choose|j: int|
                            0 <= j < i + 1 && lists_name((#[trigger] packages@[j]).groups@, group)
                                && packages@[j].name@ == x;
                        if j < i {
                            assert(mid.contains(x));
                        }
                    }
                }
            }
            i = i + 1;
        }
        proof {
            assert(group_known(repos@, all[g as int]));
            assert forall|x: Seq<char>| #![trigger views(out@).contains(x)]
                views(out@).contains(x) <==> in_groups(repos@, all, g + 1, x) by {
                if start.contains(x) {
                    assert(in_groups(repos@, all, g as int, x));
                    let k = choose|k: int| 0 <= k < g && in_group(repos@, #[trigger] all[k], x);
                    assert(0 <= k < g + 1 && in_group(repos@, all[k], x));
                }
                if views(out@).contains(x) && !start.contains(x) {
                    let j = choose|j: int|
                        0 <= j < m && lists_name((#[trigger] packages@[j]).groups@, group)
                            && packages@[j].name@ == x;
                    assert(lists_name(repos@[h as int].packages@[j].groups@, group));
                    assert(in_group(repos@, all[g as int], x));
                }
                if in_groups(repos@, all, g + 1, x) {
                    let k = choose|k: int| 0 <= k < g + 1 && in_group(repos@, #[trigger] all[k], x);
                    if k < g {
                        assert(in_groups(repos@, all, g as int, x));
                    } else {
                        let (h2, j) = choose|h2: int, j: int|
                            is_group_home(repos@, group, h2) && 0 <= j < repos@[h2].packages@.len()
                                && lists_name((#[trigger] repos@[h2].packages@[j]).groups@, group)
                                && repos@[h2].packages@[j].name@ == x;
                        assert(h2 == h);
                        assert(lists_name(packages@[j].groups@, group));
                    }
                }
            }
        }
        g = g + 1;
    }
    Ok(out)
}

/// The operator's answer is a yes: `y` or `yes`, in either case, white space
/// around it aside. Anything else is a no.
pub open spec fn affirmative(input: Seq<char>) -> bool {
    let t = stripped(input, false);
    ||| (t.len() == 1 && (t[0] == 'y' || t[0] == 'Y'))
    ||| (t.len() == 3 && (t[0] == 'y' || t[0] == 'Y') && (t[1] == 'e' || t[1] == 'E') && (t[2]
        == 's' || t[2] == 'S'))
}

/// Reads the operator's answer to a yes/no question.
pub fn is_yes(input: &str) -> (r: bool)
    ensures
        r == affirmative(input@),
{
    let t = chars_of(strip(input, false));
    if t.len() == 1 {
        t[0] == 'y' || t[0] == 'Y'
    } else if t.len() == 3 {
        (t[0] == 'y' || t[0] == 'Y') && (t[1] == 'e' || t[1] == 'E') && (t[2] == 's' || t[2]
            == 'S')
    } else {
        false
    }
}

/// What a command does about the lock before it changes anything.
#[derive(Debug, Clone, Copy, PartialEq, Eq, Structural)]
pub enum LockDecision {
    /// No marker is there: set it and go on.
    Acquire,
    /// A marker is there: ask the operator whether to clear it.
    AskOverride,
    /// The operator cleared the marker: remove it, set it anew and go on.
    ClearAndAcquire,
    /// The operator left the marker: another instance is running.
    AlreadyRunning,
}

/// Decides about the lock from whether the marker exists and from what the
/// operator answered, where asked already.
pub fn lock_exists(marker_present: bool, answer: Option<bool>) -> (r: LockDecision)
    ensures
        r == match (marker_present, answer) {
            (false, _) => LockDecision::Acquire,
            (true, None) => LockDecision::AskOverride,
            (true, Some(true)) => LockDecision::ClearAndAcquire,
            (true, Some(false)) => LockDecision::AlreadyRunning,
        },
{
    if !marker_present {
        LockDecision::Acquire
    } else {
        match answer {
            None => LockDecision::AskOverride,
            Some(true) => LockDecision::ClearAndAcquire,
            Some(false) => LockDecision::AlreadyRunning,
        }
    }
}

/// What the program is asked to do.
#[derive(Debug, Clone, Copy, PartialEq, Eq, Structural)]
pub enum Command {
    Help,
    Sync,
    Upgrade,
    Install,
    LocalInstall,
    GroupInstall,
    Remove,
    List,
    Invalid,
}

/// The command that a word of the command line, in lower case, stands for.
pub open spec fn command_of(word: Seq<char>) -> Command {
    if word == "-h"@ || word == "--help"@ {
        Command::Help
    } else if word == "s"@ || word == "--sync"@ {
        Command::Sync
    } else if word == "u"@ || word == "--upgrade"@ {
        Command::Upgrade
    } else if word == "i"@ || word == "--install"@ {
        Command::Install
    } else if word == "--local"@ {
        Command::LocalInstall
    } else if word == "gi"@ || word == "--groupinstall"@ {
        Command::GroupInstall
    } else if word == "remove"@ || word == "--uninstall"@ {
        Command::Remove
    } else if word == "--list"@ {
        Command::List
    } else {
        Command::Invalid
    }
}

fn same(a: &str, b: &str) -> (r: bool)
    ensures
        r == (a@ == b@),
{
    String::from_str(a) == String::from_str(b)
}

/// Reads the command from the first word of the command line, given in lower
/// case.
pub fn parse_command(word: &str) -> (r: Command)
    ensures
        r == command_of(word@),
{
    if same(word, "-h") || same(word, "--help") {
        Command::Help
    } else if same(word, "s") || same(word, "--sync") {
        Command::Sync
    } else if same(word, "u") || same(word, "--upgrade") {
        Command::Upgrade
    } else if same(word, "i") || same(word, "--install") {
        Command::Install
    } else if same(word, "--local") {
        Command::LocalInstall
    } else if same(word, "gi") || same(word, "--groupinstall") {
        Command::GroupInstall
    } else if same(word, "remove") || same(word, "--uninstall") {
        Command::Remove
    } else if same(word, "--list") {
        Command::List
    } else {
        Command::Invalid
    }
}

} // verus!
