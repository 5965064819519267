//! Ordering of package versions: the epoch first, then the version text.

use vstd::prelude::*;
use std::cmp::Ordering;
use version_compare::Version;
use crate::records::{InstalledPS4Packages, PS4Package};

verus! {

/// How the version text `a` stands to `b`: -1 where it is older, 0 where
/// neither is newer, 1 where it is newer.
pub uninterp spec fn version_order(a: Seq<char>, b: Seq<char>) -> i8;

/// Parses both texts with `version_compare::Version::from` and compares the
/// results with `partial_cmp`, as `<`, `==` and `>` on them do. A text that
/// does not parse is older than any that does. The result is the ordering as
/// a number, and depends on the two texts alone; two parsed versions always
/// have an ordering, so the last arm is for completeness.
#[verifier::external_body]
fn compare_versions(a: &str, b: &str) -> (r: i8)
    ensures
        r == version_order(a@, b@),
        -1 <= r <= 1,
{
    match Version::from(a).partial_cmp(&Version::from(b)) {
        Some(Ordering::Less) => -1,
        Some(Ordering::Equal) => 0,
        Some(Ordering::Greater) => 1,
        None => 0,
    }
}

/// What installing a package means for the package of its name that is
/// already installed.
#[derive(Debug, Clone, Copy, PartialEq, Eq, Structural)]
pub enum InstallKind {
    /// The incoming package is newer.
    Upgrade,
    /// Both have the same epoch and neither version is newer.
    Reinstall,
    /// The incoming package is older: to be confirmed.
    Downgrade,
}

/// A package of epoch `epoch` is newer than one of epoch `other_epoch`, where
/// `order` says how its version stands to the other's. A higher epoch
/// decides; the versions count between equal epochs only.
pub open spec fn is_newer(epoch: i32, other_epoch: i32, order: i8) -> bool {
    epoch > other_epoch || (epoch == other_epoch && order > 0)
}

/// A package of epoch `epoch` is older than one of epoch `other_epoch`.
pub open spec fn is_older(epoch: i32, other_epoch: i32, order: i8) -> bool {
    epoch < other_epoch || (epoch == other_epoch && order < 0)
}

/// The kind of an install over an installed package.
pub open spec fn install_kind(epoch: i32, installed_epoch: i32, order: i8) -> InstallKind {
    if is_newer(epoch, installed_epoch, order) {
        InstallKind::Upgrade
    } else if is_older(epoch, installed_epoch, order) {
        InstallKind::Downgrade
    } else {
        InstallKind::Reinstall
    }
}

/// A record with the higher epoch is the newer one, whatever the versions
/// say: installing it is an upgrade, installing the other over it a
/// downgrade, and only it counts as an update of the other.
pub proof fn lemma_epoch_dominance(epoch: i32, other_epoch: i32, order: i8, reverse: i8)
    requires
        epoch > other_epoch,
    ensures
        is_newer(epoch, other_epoch, order),
        !is_newer(other_epoch, epoch, reverse),
        install_kind(epoch, other_epoch, order) == InstallKind::Upgrade,
        install_kind(other_epoch, epoch, reverse) == InstallKind::Downgrade,
{
}

/// Decides the kind of an install from the two epochs and the order of the
/// two versions.
pub fn classify_by_order(epoch: i32, installed_epoch: i32, order: i8) -> (r: InstallKind)
    ensures
        r == install_kind(epoch, installed_epoch, order),
{
    if epoch > installed_epoch || (epoch == installed_epoch && order > 0) {
        InstallKind::Upgrade
    } else if epoch < installed_epoch || (epoch == installed_epoch && order < 0) {
        InstallKind::Downgrade
    } else {
        InstallKind::Reinstall
    }
}

/// Decides whether a package of epoch `epoch` updates an installed one, from
/// the two epochs and the order of the two versions.
pub fn newer_by_order(epoch: i32, installed_epoch: i32, order: i8) -> (r: bool)
    ensures
        r == is_newer(epoch, installed_epoch, order),
{
    epoch > installed_epoch || (epoch == installed_epoch && order > 0)
}

/// The kind of installing `package` over the installed `installed`.
pub fn classify_install(package: &PS4Package, installed: &InstalledPS4Packages) -> (r: InstallKind)
    ensures
        r == install_kind(
            package.upstream,
            installed.upstream,
            version_order(package.version@, installed.version@),
        ),
{
    let order = compare_versions(package.version.as_str(), installed.version.as_str());
    classify_by_order(package.upstream, installed.upstream, order)
}

/// Whether the repository's `remote` is newer than the installed `installed`.
pub fn is_update(remote: &PS4Package, installed: &InstalledPS4Packages) -> (r: bool)
    ensures
        r == is_newer(
            remote.upstream,
            installed.upstream,
            version_order(remote.version@, installed.version@),
        ),
{
    let order = compare_versions(remote.version.as_str(), installed.version.as_str());
    newer_by_order(remote.upstream, installed.upstream, order)
}

} // verus!
