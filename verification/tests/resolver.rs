use ps4::commands::{group_queue, plan_remove};
use ps4::database::{
    get_dependencies, get_group, get_provides, get_remote_package, search_for_group,
    search_for_package,
};
use ps4::dependencies::{run_depend_check, run_depend_resolve, DependencyUnresolved};
use ps4::install::{plan_install, InstallError};
use ps4::records::{InstalledPS4Packages, Ledger, PS4Package, PackageDBError, Repo};

fn s(text: &str) -> String {
    text.to_string()
}

fn pkg(name: &str, depends: &str, provides: &str) -> PS4Package {
    PS4Package {
        name: s(name),
        version: s("1.0.0"),
        upstream: 0,
        description: s(""),
        groups: s(""),
        url: s(""),
        license: s(""),
        depends: s(depends),
        optional_depends: s(""),
        provides: s(provides),
        conflicts: s(""),
        replaces: s(""),
        sha512sum: s(""),
    }
}

fn grouped(name: &str, groups: &str) -> PS4Package {
    let mut p = pkg(name, "", "");
    p.groups = s(groups);
    p
}

fn repo(name: &str, packages: Vec<PS4Package>) -> Repo {
    Repo { name: s(name), packages }
}

fn row(name: &str, dependencies: &[&str]) -> InstalledPS4Packages {
    InstalledPS4Packages {
        name: s(name),
        groups: vec![],
        source: s("core"),
        version: s("1.0.0"),
        upstream: 0,
        installed_files: vec![],
        provides: vec![s(name)],
        conflicts: vec![],
        dependencies: dependencies.iter().map(|d| s(d)).collect(),
    }
}

fn ledger(packages: Vec<InstalledPS4Packages>) -> Ledger {
    Ledger { packages, repos: vec![] }
}

fn sorted(mut names: Vec<String>) -> Vec<String> {
    names.sort();
    names
}

#[test]
fn cycle_terminates_with_each_name_once() {
    let repos = vec![repo("core", vec![pkg("A", "B", ""), pkg("B", "A", "")])];
    let mut found: Vec<String> = Vec::new();
    let result = run_depend_resolve(&repos[0].packages[0], &repos, &mut found);
    assert!(result.is_ok());
    assert_eq!(found, vec![s("B"), s("A")]);
}

#[test]
fn self_dependency_terminates() {
    let repos = vec![repo("core", vec![pkg("A", "A", "")])];
    let mut found: Vec<String> = Vec::new();
    assert!(run_depend_resolve(&repos[0].packages[0], &repos, &mut found).is_ok());
    assert_eq!(found, vec![s("A")]);
}

#[test]
fn resolve_walks_the_whole_chain_in_order() {
    let repos = vec![
        repo("core", vec![pkg("a", "b,c", ""), pkg("b", "d", ""), pkg("c", "", "")]),
        repo("extra", vec![pkg("d", "c", "")]),
    ];
    let mut found: Vec<String> = Vec::new();
    assert!(run_depend_resolve(&repos[0].packages[0], &repos, &mut found).is_ok());
    assert_eq!(found, vec![s("b"), s("d"), s("c")]);
}

#[test]
fn resolve_without_dependencies_adds_nothing() {
    let repos = vec![repo("core", vec![pkg("a", "", "")])];
    let mut found: Vec<String> = vec![s("kept")];
    assert!(run_depend_resolve(&repos[0].packages[0], &repos, &mut found).is_ok());
    assert_eq!(found, vec![s("kept")]);
}

#[test]
fn resolve_does_not_look_into_decided_names() {
    let repos = vec![repo("core", vec![pkg("a", "b", ""), pkg("b", "c", ""), pkg("c", "", "")])];
    let mut found: Vec<String> = vec![s("b")];
    assert!(run_depend_resolve(&repos[0].packages[0], &repos, &mut found).is_ok());
    assert_eq!(found, vec![s("b")]);
}

#[test]
fn resolve_reports_the_unresolved_dependency() {
    let repos = vec![repo("core", vec![pkg("a", "b", ""), pkg("b", "ghost", "")])];
    let mut found: Vec<String> = Vec::new();
    let result = run_depend_resolve(&repos[0].packages[0], &repos, &mut found);
    assert_eq!(result, Err(DependencyUnresolved { name: s("ghost"), required_by: s("b") }));
}

#[test]
fn unresolved_direct_dependency_names_the_package_itself() {
    let repos = vec![repo("core", vec![pkg("a", "b,ghost", ""), pkg("b", "", "")])];
    let mut found: Vec<String> = Vec::new();
    let result = run_depend_resolve(&repos[0].packages[0], &repos, &mut found);
    assert_eq!(result, Err(DependencyUnresolved { name: s("ghost"), required_by: s("a") }));
}

#[test]
fn installing_foo_queues_foo_and_bar_with_nothing_satisfied() {
    let repos = vec![repo("core", vec![pkg("foo", "bar", ""), pkg("bar", "", "baz")])];
    let installed = ledger(vec![]);
    let mut found: Vec<String> = Vec::new();
    assert!(run_depend_resolve(&repos[0].packages[0], &repos, &mut found).is_ok());
    let checked = run_depend_check(&found, &repos, &installed);
    assert_eq!(checked, vec![(s("bar"), false)]);
    assert_eq!(checked.iter().filter(|c| c.1).count(), 0);
    let queue = plan_install(&vec![s("foo")], &repos, &installed).unwrap();
    let names: Vec<String> = queue.packages.iter().map(|t| t.package.name.clone()).collect();
    assert_eq!(sorted(names), vec![s("bar"), s("foo")]);
    assert!(queue.missing.is_empty());
    assert_eq!(queue.packages[0].source.name, s("core"));
    assert_eq!(queue.packages[0].source.url, None);
}

#[test]
fn installed_dependency_is_left_out_of_the_queue() {
    let repos = vec![repo("core", vec![pkg("foo", "bar", ""), pkg("bar", "", "")])];
    let installed = ledger(vec![row("bar", &[])]);
    let queue = plan_install(&vec![s("foo")], &repos, &installed).unwrap();
    let names: Vec<String> = queue.packages.iter().map(|t| t.package.name.clone()).collect();
    assert_eq!(names, vec![s("foo")]);
}

#[test]
fn provider_of_a_dependency_satisfies_it() {
    let repos = vec![repo("core", vec![pkg("mail", "", ""), pkg("postfix", "", "mail,smtp")])];
    let installed = ledger(vec![row("postfix", &[])]);
    let checked = run_depend_check(&vec![s("mail"), s("postfix"), s("elsewhere")], &repos, &installed);
    assert_eq!(checked, vec![(s("mail"), true), (s("postfix"), true), (s("elsewhere"), false)]);
}

#[test]
fn unknown_name_falls_back_to_the_ledger() {
    let repos = vec![repo("core", vec![])];
    let installed = ledger(vec![row("virtual", &[])]);
    let checked = run_depend_check(&vec![s("virtual"), s("absent")], &repos, &installed);
    assert_eq!(checked, vec![(s("virtual"), true), (s("absent"), false)]);
}

#[test]
fn plan_install_reports_missing_and_empty_queue() {
    let repos = vec![repo("core", vec![pkg("foo", "", "")])];
    let installed = ledger(vec![]);
    let queue = plan_install(&vec![s("nope"), s("foo"), s("foo")], &repos, &installed).unwrap();
    assert_eq!(queue.missing, vec![s("nope")]);
    assert_eq!(queue.packages.len(), 1);
    let none = plan_install(&vec![s("nope")], &repos, &installed);
    assert_eq!(none.err(), Some(InstallError::EmptyQueue));
    let nothing = plan_install(&vec![], &repos, &installed);
    assert_eq!(nothing.err(), Some(InstallError::EmptyQueue));
}

#[test]
fn plan_install_stops_at_an_unresolved_dependency() {
    let repos = vec![repo("core", vec![pkg("foo", "gone", "")])];
    let result = plan_install(&vec![s("foo")], &repos, &ledger(vec![]));
    assert_eq!(
        result.err(),
        Some(InstallError::DependencyUnresolved(DependencyUnresolved {
            name: s("gone"),
            required_by: s("foo"),
        }))
    );
    let deeper = vec![repo("core", vec![pkg("foo", "bar", ""), pkg("bar", "gone", "")])];
    assert_eq!(
        plan_install(&vec![s("foo")], &deeper, &ledger(vec![])).err(),
        Some(InstallError::DependencyUnresolved(DependencyUnresolved {
            name: s("gone"),
            required_by: s("bar"),
        }))
    );
}

#[test]
fn first_repository_in_source_order_wins() {
    let mut newer = pkg("tool", "", "");
    newer.version = s("2.0.0");
    let repos = vec![repo("core", vec![pkg("tool", "", "")]), repo("extra", vec![newer])];
    assert_eq!(search_for_package(&s("tool"), &repos), Ok(s("core")));
    assert_eq!(search_for_package(&s("none"), &repos), Err(PackageDBError));
    assert_eq!(get_remote_package(&s("tool"), &s("extra"), &repos).unwrap().version, s("2.0.0"));
    assert_eq!(get_remote_package(&s("tool"), &s("nowhere"), &repos), Err(PackageDBError));
    assert_eq!(get_remote_package(&s("none"), &s("core"), &repos), Err(PackageDBError));
}

#[test]
fn direct_dependencies_come_from_the_same_repository() {
    let repos = vec![
        repo("core", vec![pkg("a", "b,c", ""), pkg("b", "", ""), pkg("c", "", ""), pkg("e", "x", "")]),
        repo("extra", vec![pkg("x", "", "")]),
    ];
    let deps = get_dependencies(s("a"), &repos).unwrap();
    let names: Vec<String> = deps.iter().map(|p| p.name.clone()).collect();
    assert_eq!(names, vec![s("b"), s("c")]);
    assert_eq!(get_dependencies(s("b"), &repos).unwrap().len(), 0);
    assert_eq!(get_dependencies(s("e"), &repos), Err(PackageDBError));
    assert_eq!(get_dependencies(s("zz"), &repos), Err(PackageDBError));
}

#[test]
fn providers_and_groups_are_matched_by_whole_names() {
    let repos = vec![repo(
        "core",
        vec![pkg("a", "", "sh,shell"), pkg("b", "", "bash"), grouped("c", "base,devel"), grouped("d", "base-extra")],
    )];
    let providers: Vec<String> =
        get_provides(&s("core"), &s("sh"), &repos).iter().map(|p| p.name.clone()).collect();
    assert_eq!(providers, vec![s("a")]);
    let members: Vec<String> =
        get_group(&s("core"), &s("base"), &repos).iter().map(|p| p.name.clone()).collect();
    assert_eq!(members, vec![s("c")]);
    assert!(get_group(&s("other"), &s("base"), &repos).is_empty());
    assert_eq!(search_for_group(&s("devel"), &repos), Ok(s("core")));
    assert_eq!(search_for_group(&s("games"), &repos), Err(PackageDBError));
}

#[test]
fn group_queue_collects_each_member_once() {
    let repos = vec![
        repo("core", vec![grouped("a", "base"), grouped("b", "base,devel")]),
        repo("extra", vec![grouped("z", "base"), grouped("g", "games")]),
    ];
    assert_eq!(group_queue(&vec![s("base"), s("devel"), s("games")], &repos), Ok(vec![s("a"), s("b"), s("g")]));
    assert_eq!(group_queue(&vec![s("base"), s("unknown")], &repos), Err(PackageDBError));
}

#[test]
fn removing_a_package_that_is_depended_on_aborts() {
    let installed = ledger(vec![row("D", &[]), row("E", &["D"])]);
    let before = installed.packages.clone();
    let plan = plan_remove(&vec![s("D")], &installed);
    assert_eq!(plan.packages, vec![s("D")]);
    assert_eq!(plan.depended_on, vec![vec![s("E")]]);
    assert!(!plan.depended_on[0].is_empty());
    assert!(plan.abort);
    assert_eq!(installed.packages, before);
}

#[test]
fn removing_an_unused_package_goes_ahead() {
    let installed = ledger(vec![row("D", &[]), row("E", &["D"])]);
    let plan = plan_remove(&vec![s("E"), s("E"), s("F")], &installed);
    assert_eq!(plan.packages, vec![s("E")]);
    assert_eq!(plan.missing, vec![s("F")]);
    assert_eq!(plan.depended_on, vec![Vec::<String>::new()]);
    assert!(!plan.abort);
}
