use ps4::conflict::{
    classify_conflicts, rooted, run_conflict_check, run_conflict_package_check,
};
use ps4::install::{check_queue_conflicts, conflict_decision, ConflictDecision};
use ps4::records::{InstallTransaction, InstalledPS4Packages, Ledger, PS4Package, Source};

fn t(text: &str) -> String {
    text.to_string()
}

fn incoming(name: &str, provides: &str, conflicts: &str) -> PS4Package {
    PS4Package {
        name: t(name),
        version: t("1.0"),
        upstream: 0,
        description: t(""),
        groups: t(""),
        url: t(""),
        license: t(""),
        depends: t(""),
        optional_depends: t(""),
        provides: t(provides),
        conflicts: t(conflicts),
        replaces: t(""),
        sha512sum: t(""),
    }
}

fn installed(name: &str, conflicts: &[&str], files: &[&str]) -> InstalledPS4Packages {
    InstalledPS4Packages {
        name: t(name),
        groups: vec![],
        source: t("core"),
        version: t("1.0"),
        upstream: 0,
        installed_files: files.iter().map(|f| t(f)).collect(),
        provides: vec![],
        conflicts: conflicts.iter().map(|c| t(c)).collect(),
        dependencies: vec![],
    }
}

fn transaction(package: PS4Package) -> InstallTransaction {
    InstallTransaction { package, source: Source { name: t("core"), url: None } }
}

#[test]
fn reinstall_is_exempt_from_file_conflicts() {
    let files = vec![t("/usr/bin/p"), t("/etc/p.conf")];
    let existing = vec![t("/root/usr/bin/p"), t("/root/etc/p.conf")];
    let again = run_conflict_check(&files, true, t("/root"), &existing);
    assert!(!again.is_conflict);
    assert!(again.files.is_empty());
}

#[test]
fn unrelated_package_claiming_an_owned_path_conflicts() {
    let q_files = vec![t("/usr/bin/q"), t("/usr/bin/p")];
    let existing = vec![t("/root/usr/bin/p"), t("/root/etc/p.conf")];
    let fresh = run_conflict_check(&q_files, false, t("/root"), &existing);
    assert!(fresh.is_conflict);
    assert_eq!(fresh.files, vec![t("/root/usr/bin/p")]);
}

#[test]
fn fresh_install_on_a_clean_root_has_no_conflict() {
    let fresh = run_conflict_check(&vec![t("/a"), t("/b")], false, t(""), &vec![t("/c")]);
    assert!(!fresh.is_conflict);
    assert!(fresh.files.is_empty());
    let every = run_conflict_check(&vec![t("/a"), t("/b")], false, t(""), &vec![t("/b"), t("/a")]);
    assert_eq!(every.files, vec![t("/a"), t("/b")]);
}

#[test]
fn provided_conflict_is_a_replace_candidate() {
    let x = incoming("X", "Y", "Y");
    let ledger = Ledger { packages: vec![installed("Y", &["X"], &[])], repos: vec![] };
    let found = run_conflict_package_check(&t("X"), &ledger);
    assert!(found.is_conflict);
    assert_eq!(found.packages.len(), 1);
    assert_eq!(found.packages[0].name, t("Y"));
    let verdict = classify_conflicts(&x, &ledger);
    assert_eq!(verdict.replaceable, vec![t("Y")]);
    assert!(verdict.hard.is_empty());
    let verdicts = check_queue_conflicts(&vec![transaction(x)], &ledger);
    let pairs: Vec<(String, String)> =
        verdicts[0].replaceable.iter().map(|y| (t("X"), y.clone())).collect();
    assert_eq!(pairs, vec![(t("X"), t("Y"))]);
    assert_eq!(conflict_decision(&verdicts), ConflictDecision::AskReplace);
}

#[test]
fn conflict_without_a_replacement_aborts() {
    let x = incoming("X", "", "");
    let z = incoming("Z", "W", "");
    let ledger = Ledger {
        packages: vec![installed("Y", &["X"], &[]), installed("W", &["Z"], &[])],
        repos: vec![],
    };
    let verdict = classify_conflicts(&x, &ledger);
    assert!(verdict.replaceable.is_empty());
    assert_eq!(verdict.hard, vec![t("Y")]);
    let verdicts = check_queue_conflicts(&vec![transaction(z), transaction(x)], &ledger);
    assert_eq!(verdicts[0].replaceable, vec![t("W")]);
    assert_eq!(conflict_decision(&verdicts), ConflictDecision::Abort);
}

#[test]
fn no_conflicts_let_the_install_proceed() {
    let ledger = Ledger { packages: vec![installed("Y", &[], &[])], repos: vec![] };
    let verdicts = check_queue_conflicts(&vec![transaction(incoming("X", "", ""))], &ledger);
    assert_eq!(conflict_decision(&verdicts), ConflictDecision::Proceed);
    assert_eq!(conflict_decision(&vec![]), ConflictDecision::Proceed);
}

#[test]
fn a_package_does_not_conflict_with_itself() {
    let ledger = Ledger { packages: vec![installed("X", &["X"], &[])], repos: vec![] };
    let found = run_conflict_package_check(&t("X"), &ledger);
    assert!(!found.is_conflict);
    assert!(found.packages.is_empty());
}

#[test]
fn files_are_placed_below_the_root() {
    assert_eq!(rooted(&t("/mnt"), &vec![t("/usr/a"), t("/b")]), vec![t("/mnt/usr/a"), t("/mnt/b")]);
    assert_eq!(rooted(&t(""), &vec![t("/usr/a")]), vec![t("/usr/a")]);
    assert!(rooted(&t("/mnt"), &vec![]).is_empty());
}
