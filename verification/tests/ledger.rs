use ps4::ledger::{
    add_package_to_installed, get_all_installed, get_conflicts, get_depended_on,
    get_installed_package, remove_package_from_installed, return_owned_files, source_string,
    update_cached_repos,
};
use ps4::records::{
    InstallTransaction, InstalledPS4Packages, Ledger, PS4NewPackage, PS4Package, PackageDBError,
    RepoSyncRecord, Source,
};
use ps4::transaction::{
    advance, check_if_package, installed_record, payload_files, plan_package, record_install,
    run_remove, InstallEvent, InstallState,
};
use ps4::version::{classify_by_order, classify_install, is_update, newer_by_order, InstallKind};

fn w(text: &str) -> String {
    text.to_string()
}

fn words(items: &[&str]) -> Vec<String> {
    items.iter().map(|i| w(i)).collect()
}

fn new_package(name: &str, version: &str, files: &[&str]) -> PS4NewPackage {
    PS4NewPackage {
        name: w(name),
        groups: w("base,devel"),
        version: w(version),
        upstream: 1,
        installed_files: words(files),
        provides: words(&[name]),
        conflicts: vec![],
        dependencies: words(&["libc"]),
    }
}

fn remote(name: &str, version: &str, upstream: i32) -> PS4Package {
    PS4Package {
        name: w(name),
        version: w(version),
        upstream,
        description: w("a package"),
        groups: w("base"),
        url: w("https://example.org"),
        license: w("GPL"),
        depends: w("libc,zlib"),
        optional_depends: w(""),
        provides: w(""),
        conflicts: w("other"),
        replaces: w(""),
        sha512sum: w(""),
    }
}

fn core_source() -> Source {
    Source { name: w("core"), url: None }
}

fn empty() -> Ledger {
    Ledger { packages: vec![], repos: vec![] }
}

#[test]
fn same_install_twice_leaves_the_same_row() {
    let install = InstallTransaction { package: remote("foo", "1.2", 0), source: core_source() };
    let files = words(&["/usr/bin/foo", "/etc/foo"]);
    let mut ledger = empty();
    record_install(&install, files.clone(), &mut ledger);
    let first = ledger.packages.clone();
    record_install(&install, files.clone(), &mut ledger);
    assert_eq!(ledger.packages, first);
    assert_eq!(ledger.packages.len(), 1);
    assert_eq!(ledger.packages[0].installed_files, files);
}

#[test]
fn install_record_takes_lists_from_the_package() {
    let install = InstallTransaction {
        package: remote("foo", "1.2", 3),
        source: Source { name: w("core"), url: Some(w("https://m/core/foo-1.2-3.tar.gz")) },
    };
    let record = installed_record(&install, words(&["/a"]));
    assert_eq!(record.name, w("foo"));
    assert_eq!(record.groups, w("base"));
    assert_eq!(record.version, w("1.2"));
    assert_eq!(record.upstream, 3);
    assert_eq!(record.installed_files, words(&["/a"]));
    assert_eq!(record.provides, Vec::<String>::new());
    assert_eq!(record.conflicts, words(&["other"]));
    assert_eq!(record.dependencies, words(&["libc", "zlib"]));
    let mut ledger = empty();
    record_install(&install, words(&["/a"]), &mut ledger);
    assert_eq!(ledger.packages[0].source, w("core,https://m/core/foo-1.2-3.tar.gz"));
    assert_eq!(ledger.packages[0].groups, words(&["base"]));
}

#[test]
fn adding_replaces_the_row_of_the_same_name_in_place() {
    let mut ledger = empty();
    add_package_to_installed(new_package("a", "1.0", &["/a"]), core_source(), &mut ledger);
    add_package_to_installed(new_package("b", "1.0", &["/b"]), core_source(), &mut ledger);
    add_package_to_installed(new_package("a", "2.0", &["/a2"]), core_source(), &mut ledger);
    assert_eq!(ledger.packages.len(), 2);
    assert_eq!(ledger.packages[0].name, w("a"));
    assert_eq!(ledger.packages[0].version, w("2.0"));
    assert_eq!(ledger.packages[0].groups, words(&["base", "devel"]));
    assert_eq!(ledger.packages[1].name, w("b"));
    assert_eq!(return_owned_files(&w("a"), &ledger), words(&["/a2"]));
    assert_eq!(return_owned_files(&w("zz"), &ledger), Vec::<String>::new());
    assert_eq!(get_installed_package(&w("b"), &ledger).unwrap().version, w("1.0"));
    assert_eq!(get_installed_package(&w("c"), &ledger), Err(PackageDBError));
    assert_eq!(get_all_installed(&ledger), ledger.packages);
}

#[test]
fn removing_deletes_the_row_and_returns_the_files() {
    let mut ledger = empty();
    add_package_to_installed(new_package("a", "1.0", &["/a", "/a.conf"]), core_source(), &mut ledger);
    add_package_to_installed(new_package("b", "1.0", &["/b"]), core_source(), &mut ledger);
    let files = run_remove(&w("a"), &mut ledger);
    assert_eq!(files, words(&["/a", "/a.conf"]));
    assert_eq!(ledger.packages.len(), 1);
    assert_eq!(ledger.packages[0].name, w("b"));
    assert_eq!(run_remove(&w("a"), &mut ledger), Vec::<String>::new());
    remove_package_from_installed(&w("b"), &mut ledger);
    assert!(ledger.packages.is_empty());
    remove_package_from_installed(&w("b"), &mut ledger);
    assert!(ledger.packages.is_empty());
}

#[test]
fn conflicts_and_dependents_are_found_by_whole_names() {
    let mut ledger = empty();
    let mut a = new_package("a", "1.0", &[]);
    a.conflicts = words(&["x", "yy"]);
    a.dependencies = words(&["lib"]);
    let mut b = new_package("b", "1.0", &[]);
    b.conflicts = words(&["xx"]);
    b.dependencies = words(&["lib2", "a"]);
    add_package_to_installed(a, core_source(), &mut ledger);
    add_package_to_installed(b, core_source(), &mut ledger);
    let hits: Vec<String> = get_conflicts(&w("x"), &ledger).iter().map(|p| p.name.clone()).collect();
    assert_eq!(hits, words(&["a"]));
    let users: Vec<String> = get_depended_on(&w("lib"), &ledger).iter().map(|p| p.name.clone()).collect();
    assert_eq!(users, words(&["a"]));
    let of_a: Vec<String> = get_depended_on(&w("a"), &ledger).iter().map(|p| p.name.clone()).collect();
    assert_eq!(of_a, words(&["b"]));
}

#[test]
fn source_text_joins_name_and_url() {
    assert_eq!(source_string(&core_source()), w("core"));
    assert_eq!(source_string(&Source { name: w("core"), url: Some(w("http://x")) }), w("core,http://x"));
}

#[test]
fn sync_record_is_inserted_then_replaced() {
    let mut ledger = empty();
    update_cached_repos(&w("core"), &w("aa"), w("100"), &mut ledger);
    update_cached_repos(&w("extra"), &w("bb"), w("101"), &mut ledger);
    update_cached_repos(&w("core"), &w("cc"), w("102"), &mut ledger);
    assert_eq!(
        ledger.repos,
        vec![
            RepoSyncRecord { name: w("core"), repo_hash: w("cc"), last_updated: w("102") },
            RepoSyncRecord { name: w("extra"), repo_hash: w("bb"), last_updated: w("101") },
        ]
    );
}

#[test]
fn payload_entries_become_root_relative_files() {
    let names = words(&["usr/", "usr/bin/", "usr/bin/tool", "etc/tool.conf", ""]);
    assert_eq!(payload_files(&names), words(&["/usr/bin/tool", "/etc/tool.conf", "/"]));
    assert_eq!(payload_files(&vec![]), Vec::<String>::new());
}

#[test]
fn manifest_entry_marks_a_package() {
    assert!(check_if_package(&words(&["data.tar.gz", "PS4PKG"])));
    assert!(!check_if_package(&words(&["data.tar.gz", "dir/PS4PKG", "PKG"])));
    assert!(!check_if_package(&vec![]));
}

#[test]
fn higher_epoch_is_newer_whatever_the_versions() {
    assert_eq!(classify_by_order(2, 1, -1), InstallKind::Upgrade);
    assert_eq!(classify_by_order(2, 1, 0), InstallKind::Upgrade);
    assert_eq!(classify_by_order(2, 1, 1), InstallKind::Upgrade);
    assert_eq!(classify_by_order(1, 2, 1), InstallKind::Downgrade);
    assert!(newer_by_order(2, 1, -1));
    assert!(!newer_by_order(1, 2, 1));
    let mut ledger = empty();
    add_package_to_installed(new_package("a", "9.9", &[]), core_source(), &mut ledger);
    assert_eq!(classify_install(&remote("a", "0.1", 2), &ledger.packages[0]), InstallKind::Upgrade);
    assert_eq!(classify_install(&remote("a", "99.0", 0), &ledger.packages[0]), InstallKind::Downgrade);
    assert!(is_update(&remote("a", "0.1", 2), &ledger.packages[0]));
    assert!(!is_update(&remote("a", "99.0", 0), &ledger.packages[0]));
}

#[test]
fn versions_decide_between_equal_epochs() {
    assert_eq!(classify_by_order(1, 1, -1), InstallKind::Downgrade);
    assert_eq!(classify_by_order(1, 1, 0), InstallKind::Reinstall);
    assert_eq!(classify_by_order(1, 1, 1), InstallKind::Upgrade);
    let mut ledger = empty();
    add_package_to_installed(new_package("a", "1.10.0", &[]), core_source(), &mut ledger);
    let row: &InstalledPS4Packages = &ledger.packages[0];
    assert_eq!(classify_install(&remote("a", "1.9.0", 1), row), InstallKind::Downgrade);
    assert_eq!(classify_install(&remote("a", "1.10", 1), row), InstallKind::Reinstall);
    assert_eq!(classify_install(&remote("a", "1.10.0", 1), row), InstallKind::Reinstall);
    assert_eq!(classify_install(&remote("a", "1.10.1", 1), row), InstallKind::Upgrade);
    assert_eq!(classify_install(&remote("a", "2.0", 1), row), InstallKind::Upgrade);
    assert!(is_update(&remote("a", "1.11", 1), row));
    assert!(!is_update(&remote("a", "1.10.0", 1), row));
}

#[test]
fn plan_of_a_fresh_install_reports_colliding_files() {
    let ledger = empty();
    let plan = plan_package(
        &remote("a", "1.0", 0),
        &words(&["usr/", "usr/a", "usr/b"]),
        w("/mnt"),
        &words(&["/mnt/usr/b"]),
        &ledger,
    );
    assert_eq!(plan.kind, None);
    assert_eq!(plan.files, words(&["/usr/a", "/usr/b"]));
    assert!(plan.conflicts.is_conflict);
    assert_eq!(plan.conflicts.files, words(&["/mnt/usr/b"]));
    assert!(plan.stale.is_empty());
    assert!(plan.needs_confirmation);
}

#[test]
fn plan_of_a_reinstall_cleans_up_and_needs_no_confirmation() {
    let mut ledger = empty();
    add_package_to_installed(new_package("a", "1.0", &["/usr/a", "/usr/old"]), core_source(), &mut ledger);
    let names = words(&["usr/a", "usr/b"]);
    let existing = words(&["/usr/a", "/usr/old"]);
    let same = plan_package(&remote("a", "1.0", 1), &names, w(""), &existing, &ledger);
    assert_eq!(same.kind, Some(InstallKind::Reinstall));
    assert!(!same.conflicts.is_conflict);
    assert_eq!(same.stale, words(&["/usr/a", "/usr/old"]));
    assert!(!same.needs_confirmation);
    let older = plan_package(&remote("a", "0.9", 1), &names, w(""), &existing, &ledger);
    assert_eq!(older.kind, Some(InstallKind::Downgrade));
    assert!(older.needs_confirmation);
    let newer = plan_package(&remote("a", "1.1", 1), &names, w(""), &existing, &ledger);
    assert_eq!(newer.kind, Some(InstallKind::Upgrade));
    assert!(!newer.needs_confirmation);
}

#[test]
fn installation_goes_through_its_states() {
    let mut state = InstallState::Fetched;
    state = advance(state, InstallEvent::Opened);
    assert_eq!(state, InstallState::Validated);
    state = advance(state, InstallEvent::Unpacked);
    assert_eq!(state, InstallState::Staged);
    assert_eq!(advance(state, InstallEvent::Declined), InstallState::Aborted);
    assert_eq!(advance(state, InstallEvent::Written), InstallState::Staged);
    state = advance(state, InstallEvent::Cleared);
    assert_eq!(state, InstallState::Checked);
    assert_eq!(advance(state, InstallEvent::Broken), InstallState::Failed);
    state = advance(state, InstallEvent::Written);
    assert_eq!(state, InstallState::Applied);
    assert_eq!(advance(state, InstallEvent::Broken), InstallState::Applied);
    assert_eq!(advance(InstallState::Aborted, InstallEvent::Cleared), InstallState::Aborted);
    assert_eq!(advance(InstallState::Failed, InstallEvent::Written), InstallState::Failed);
}
