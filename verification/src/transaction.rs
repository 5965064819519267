//! The steps of one package's installation and removal that decide
//! something: what kind of install it is, which files it brings, which of
//! them collide, what has to be confirmed and what the ledger records.

use vstd::prelude::*;
use vstd::string::*;
use crate::conflict::{file_conflicts, run_conflict_check, ConflictingFiles};
use crate::database::entries_of;
use crate::ledger::{
    add_package_to_installed, erased, find_installed, installed_row, is_installed, new_row,
    recorded, remove_package_from_installed, return_owned_files, rows, lemma_record_twice,
    source_text,
};
use crate::lists::{contains_name, entries, views};
use crate::records::{
    InstallTransaction, InstalledRow, Ledger, PS4NewPackage, PS4Package, Source,
};
use crate::version::{classify_install, install_kind, version_order, InstallKind};

verus! {

/// The entry names a directory: it ends in a slash.
pub open spec fn is_directory(path: Seq<char>) -> bool {
    path.len() > 0 && path.last() == '/'
}

/// The files of a payload as paths below the root: each entry that is no
/// directory, with a slash in front, in archive order.
pub open spec fn payload_paths(names: Seq<Seq<char>>) -> Seq<Seq<char>>
    decreases names.len(),
{
    if names.len() == 0 {
        Seq::<Seq<char>>::empty()
    } else {
        let rest = payload_paths(names.drop_last());
        if is_directory(names.last()) {
            rest
        } else {
            rest.push(seq!['/'] + names.last())
        }
    }
}

/// Turns the entry names of a payload archive into the list of files that
/// the package installs.
pub fn payload_files(names: &Vec<String>) -> (r: Vec<String>)
    ensures
        views(r@) == payload_paths(views(names@)),
{
    let mut out: Vec<String> = Vec::new();
    let n = names.len();
    let mut i: usize = 0;
    assert(views(names@).take(0) =~= Seq::<Seq<char>>::empty());
    assert(views(out@) =~= Seq::<Seq<char>>::empty());
    while i < n
        invariant
            n == names.len(),
            i <= n,
            views(out@) == payload_paths(views(names@).take(i as int)),
        decreases n - i,
    {
        proof {
            assert(views(names@).take(i + 1).drop_last() =~= views(names@).take(i as int));
        }
        let name = names[i].as_str();
        let len = name.unicode_len();
        let ghost before = views(out@);
        if !(len > 0 && name.get_char(len - 1) == '/') {
            proof {
                reveal_strlit("/");
                assert("/"@ =~= seq!['/']);
            }
            let mut path = String::from_str("/");
            path.append(name);
            out.push(path);
            assert(views(out@) =~= before.push(seq!['/'] + names@[i as int]@));
        }
        i = i + 1;
    }
    assert(views(names@).take(n as int) =~= views(names@));
    out
}

/// Whether an archive is a package: one of its entries is the manifest
/// `PS4PKG` at the top level.
pub fn check_if_package(names: &Vec<String>) -> (r: bool)
    ensures
        r == views(names@).contains("PS4PKG"@),
{
    let manifest = String::from_str("PS4PKG");
    contains_name(names, &manifest)
}

/// What has been found out about an install before anything is written.
pub struct InstallPlan {
    /// How the incoming package stands to the installed one; none where the
    /// package is not installed.
    pub kind: Option<InstallKind>,
    /// The files that the package installs.
    pub files: Vec<String>,
    /// The paths among them that exist and belong to no earlier install of
    /// this package.
    pub conflicts: ConflictingFiles,
    /// The files of the earlier install, to be deleted before extraction.
    pub stale: Vec<String>,
    /// The operator has to agree before anything is written: the install is
    /// a downgrade, or files collide.
    pub needs_confirmation: bool,
}

/// The kind of installing `manifest` into `ledger`.
pub open spec fn planned_kind(manifest: PS4Package, ledger: Ledger) -> Option<InstallKind> {
    if is_installed(ledger, manifest.name@) {
        let row = installed_row(ledger, manifest.name@);
        Some(install_kind(manifest.upstream, row.upstream, version_order(manifest.version@, row.version)))
    } else {
        None
    }
}

/// Examines an unpacked package: `manifest` is its manifest entry, `names`
/// the entry names of its payload archive, `existing` the paths found on the
/// file system.
pub fn plan_package(
    manifest: &PS4Package,
    names: &Vec<String>,
    root: String,
    existing: &Vec<String>,
    ledger: &Ledger,
) -> (r: InstallPlan)
    ensures
        r.kind == planned_kind(*manifest, *ledger),
        views(r.files@) == payload_paths(views(names@)),
        views(r.conflicts.files@) == file_conflicts(
            payload_paths(views(names@)),
            is_installed(*ledger, manifest.name@),
            root@,
            views(existing@),
        ),
        r.conflicts.is_conflict == (r.conflicts.files@.len() > 0),
        views(r.stale@) == if is_installed(*ledger, manifest.name@) {
            installed_row(*ledger, manifest.name@).installed_files
        } else {
            Seq::<Seq<char>>::empty()
        },
        r.needs_confirmation == (r.kind == Some(InstallKind::Downgrade) || r.conflicts.files@.len()
            > 0),
{
    let files = payload_files(names);
    let found = find_installed(&ledger.packages, &manifest.name);
    let kind = match found {
        Some(i) => Some(classify_install(manifest, &ledger.packages[i])),
        None => None,
    };
    let conflicts = run_conflict_check(&files, found.is_some(), root, existing);
    let stale = return_owned_files(&manifest.name, ledger);
    let downgrade = match kind {
        Some(InstallKind::Downgrade) => true,
        _ => false,
    };
    let needs_confirmation = downgrade || conflicts.files.len() > 0;
    InstallPlan { kind, files, conflicts, stale, needs_confirmation }
}

/// The ledger row of an installed package: identity and lists from the
/// package's own record, the files as they were computed, and the source.
pub open spec fn install_row(
    package: PS4Package,
    source: Source,
    files: Seq<Seq<char>>,
) -> InstalledRow {
    InstalledRow {
        name: package.name@,
        groups: entries(package.groups@),
        source: source_text(source),
        version: package.version@,
        upstream: package.upstream,
        installed_files: files,
        provides: entries(package.provides@),
        conflicts: entries(package.conflicts@),
        dependencies: entries(package.depends@),
    }
}

/// What the ledger is told of an installed package.
pub fn installed_record(install: &InstallTransaction, files: Vec<String>) -> (r: PS4NewPackage)
    ensures
        new_row(r, install.source) == install_row(install.package, install.source, views(files@)),
{
    PS4NewPackage {
        name: install.package.name.clone(),
        groups: install.package.groups.clone(),
        version: install.package.version.clone(),
        upstream: install.package.upstream,
        installed_files: files,
        provides: entries_of(&install.package.provides),
        conflicts: entries_of(&install.package.conflicts),
        dependencies: entries_of(&install.package.depends),
    }
}

/// Writes the installed package into the ledger, in place of the earlier row
/// of its name where there is one.
pub fn record_install(install: &InstallTransaction, files: Vec<String>, ledger: &mut Ledger)
    ensures
        rows(final(ledger).packages@) == recorded(
            rows(old(ledger).packages@),
            install_row(install.package, install.source, views(files@)),
        ),
        final(ledger).repos == old(ledger).repos,
        old(ledger).wf() ==> final(ledger).wf(),
        is_installed(*final(ledger), install.package.name@),
{
    let record = installed_record(install, files);
    add_package_to_installed(record, install.source.clone(), ledger);
}

/// Installing the same package with the same files from the same source
/// twice in a row leaves the ledger as the first install left it.
pub proof fn lemma_reinstall_idempotent(
    all: Seq<InstalledRow>,
    package: PS4Package,
    source: Source,
    files: Seq<Seq<char>>,
)
    ensures
        recorded(recorded(all, install_row(package, source, files)), install_row(package, source, files))
            == recorded(all, install_row(package, source, files)),
        install_row(package, source, files).installed_files == files,
{
    lemma_record_twice(all, install_row(package, source, files));
}

/// Removes a package from the ledger and returns the files it owned, which
/// are to be deleted where they still exist.
pub fn run_remove(package: &String, ledger: &mut Ledger) -> (r: Vec<String>)
    ensures
        views(r@) == if is_installed(*old(ledger), package@) {
            installed_row(*old(ledger), package@).installed_files
        } else {
            Seq::<Seq<char>>::empty()
        },
        rows(final(ledger).packages@) == erased(rows(old(ledger).packages@), package@),
        final(ledger).repos == old(ledger).repos,
        old(ledger).wf() ==> final(ledger).wf() && !is_installed(*final(ledger), package@),
{
    let files = return_owned_files(package, ledger);
    remove_package_from_installed(package, ledger);
    files
}

/// Where the installation of one package stands.
#[derive(Debug, Clone, Copy, PartialEq, Eq, Structural)]
pub enum InstallState {
    /// The archive's bytes are in a scratch file.
    Fetched,
    /// The archive was opened and looked through for its manifest.
    Validated,
    /// The archive is unpacked into the package's temporary directory.
    Staged,
    /// Version and files were checked and the operator agreed where asked.
    Checked,
    /// Files are on the root and the ledger has the row.
    Applied,
    /// The operator declined.
    Aborted,
    /// A step failed.
    Failed,
}

/// What happened to an installation since its last state.
#[derive(Debug, Clone, Copy, PartialEq, Eq, Structural)]
pub enum InstallEvent {
    /// The archive could be opened.
    Opened,
    /// The archive was unpacked and its manifest read.
    Unpacked,
    /// Nothing had to be confirmed, or the operator agreed.
    Cleared,
    /// The operator declined.
    Declined,
    /// Files and ledger row were written.
    Written,
    /// A step failed.
    Broken,
}

/// The state is final.
pub open spec fn is_terminal(state: InstallState) -> bool {
    state == InstallState::Applied || state == InstallState::Aborted || state
        == InstallState::Failed
}

/// The state that follows `state` on `event`. A final state stays; a
/// failure ends any other state; an event out of turn changes nothing.
pub open spec fn next_state(state: InstallState, event: InstallEvent) -> InstallState {
    if is_terminal(state) {
        state
    } else if event == InstallEvent::Broken {
        InstallState::Failed
    } else if state == InstallState::Fetched && event == InstallEvent::Opened {
        InstallState::Validated
    } else if state == InstallState::Validated && event == InstallEvent::Unpacked {
        InstallState::Staged
    } else if state == InstallState::Staged && event == InstallEvent::Cleared {
        InstallState::Checked
    } else if state == InstallState::Staged && event == InstallEvent::Declined {
        InstallState::Aborted
    } else if state == InstallState::Checked && event == InstallEvent::Written {
        InstallState::Applied
    } else {
        state
    }
}

/// Moves an installation on by one event.
pub fn advance(state: InstallState, event: InstallEvent) -> (r: InstallState)
    ensures
        r == next_state(state, event),
{
    match (state, event) {
        (InstallState::Applied, _) => InstallState::Applied,
        (InstallState::Aborted, _) => InstallState::Aborted,
        (InstallState::Failed, _) => InstallState::Failed,
        (_, InstallEvent::Broken) => InstallState::Failed,
        (InstallState::Fetched, InstallEvent::Opened) => InstallState::Validated,
        (InstallState::Validated, InstallEvent::Unpacked) => InstallState::Staged,
        (InstallState::Staged, InstallEvent::Cleared) => InstallState::Checked,
        (InstallState::Staged, InstallEvent::Declined) => InstallState::Aborted,
        (InstallState::Checked, InstallEvent::Written) => InstallState::Applied,
        (s, _) => s,
    }
}

/// Nothing is written before the checks are through: an installation is
/// applied only from the checked state, and only by the writing itself.
pub proof fn lemma_applied_only_after_check(state: InstallState, event: InstallEvent)
    requires
        next_state(state, event) == InstallState::Applied,
        state != InstallState::Applied,
    ensures
        state == InstallState::Checked,
        event == InstallEvent::Written,
{
}

} // verus!
