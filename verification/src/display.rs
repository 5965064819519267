//! The lines that the commands show of packages.

use vstd::prelude::*;
use vstd::string::*;
use crate::commands::source_name;
use crate::ledger::rows;
use crate::lists::{lemma_split_nonempty, split_commas, views};
use crate::records::{InstallTransaction, InstalledPS4Packages, InstalledRow, Ledger};
use crate::text::{decimal, decimal_string};

verus! {

/// A package as the queues show it: name, version and epoch, with `arrow`
/// between them and a space behind.
pub open spec fn shown(name: Seq<char>, version: Seq<char>, upstream: i32, arrow: Seq<char>) -> Seq<
    char,
> {
    name + arrow + version + arrow + decimal(upstream as int) + " "@
}

/// The queue of an install as one line.
pub open spec fn installing_text(queue: Seq<InstallTransaction>) -> Seq<char>
    decreases queue.len(),
{
    if queue.len() == 0 {
        Seq::<char>::empty()
    } else {
        installing_text(queue.drop_last()) + shown(
            queue.last().package.name@,
            queue.last().package.version@,
            queue.last().package.upstream,
            "<-"@,
        )
    }
}

/// The queue of a local install as one line.
pub open spec fn local_text(queue: Seq<InstallTransaction>) -> Seq<char>
    decreases queue.len(),
{
    if queue.len() == 0 {
        Seq::<char>::empty()
    } else {
        local_text(queue.drop_last()) + shown(
            queue.last().package.name@,
            queue.last().package.version@,
            queue.last().package.upstream,
            "->"@,
        )
    }
}

/// The packages of a removal as one line.
pub open spec fn removing_text(all: Seq<InstalledRow>) -> Seq<char>
    decreases all.len(),
{
    if all.len() == 0 {
        Seq::<char>::empty()
    } else {
        removing_text(all.drop_last()) + shown(
            all.last().name,
            all.last().version,
            all.last().upstream,
            "->"@,
        )
    }
}

fn append_shown(out: &mut String, name: &String, version: &String, upstream: i32, arrow: &str)
    ensures
        final(out)@ == old(out)@ + shown(name@, version@, upstream, arrow@),
{
    out.append(name.as_str());
    out.append(arrow);
    out.append(version.as_str());
    out.append(arrow);
    let epoch = decimal_string(upstream);
    out.append(epoch.as_str());
    out.append(" ");
    assert(out@ =~= old(out)@ + shown(name@, version@, upstream, arrow@));
}

/// Shows the packages that an install is about to bring.
pub fn display_installing_packages(set: &Vec<InstallTransaction>) -> (r: String)
    ensures
        r@ == installing_text(set@),
{
    let mut temp_string = String::new();
    let n = set.len();
    let mut i: usize = 0;
    assert(set@.take(0) =~= Seq::<InstallTransaction>::empty());
    while i < n
        invariant
            n == set.len(),
            i <= n,
            temp_string@ == installing_text(set@.take(i as int)),
        decreases n - i,
    {
        proof {
            assert(set@.take(i + 1).drop_last() =~= set@.take(i as int));
        }
        append_shown(
            &mut temp_string,
            &set[i].package.name,
            &set[i].package.version,
            set[i].package.upstream,
            "<-",
        );
        i = i + 1;
    }
    assert(set@.take(n as int) =~= set@);
    temp_string
}

/// Shows the packages that a local install is about to bring.
pub fn display_local_packages(set: &Vec<InstallTransaction>) -> (r: String)
    ensures
        r@ == local_text(set@),
{
    let mut temp_string = String::new();
    let n = set.len();
    let mut i: usize = 0;
    assert(set@.take(0) =~= Seq::<InstallTransaction>::empty());
    while i < n
        invariant
            n == set.len(),
            i <= n,
            temp_string@ == local_text(set@.take(i as int)),
        decreases n - i,
    {
        proof {
            assert(set@.take(i + 1).drop_last() =~= set@.take(i as int));
        }
        append_shown(
            &mut temp_string,
            &set[i].package.name,
            &set[i].package.version,
            set[i].package.upstream,
            "->",
        );
        i = i + 1;
    }
    assert(set@.take(n as int) =~= set@);
    temp_string
}

/// Shows the packages that a removal is about to delete.
pub fn display_removing_packages(set: &Vec<InstalledPS4Packages>) -> (r: String)
    ensures
        r@ == removing_text(rows(set@)),
{
    let mut temp_string = String::new();
    let n = set.len();
    let mut i: usize = 0;
    assert(rows(set@).take(0) =~= Seq::<InstalledRow>::empty());
    while i < n
        invariant
            n == set.len(),
            i <= n,
            temp_string@ == removing_text(rows(set@).take(i as int)),
        decreases n - i,
    {
        proof {
            assert(rows(set@).take(i + 1).drop_last() =~= rows(set@).take(i as int));
        }
        append_shown(&mut temp_string, &set[i].name, &set[i].version, set[i].upstream, "->");
        i = i + 1;
    }
    assert(rows(set@).take(n as int) =~= rows(set@));
    temp_string
}

/// The line that the list command shows of an installed package: name,
/// version, epoch and the repository it came from.
pub open spec fn listed(row: InstalledRow) -> Seq<char> {
    row.name + " "@ + row.version + "-"@ + decimal(row.upstream as int) + " "@ + source_name(
        row.source,
    )
}

/// The lines of the list command, one for each installed package in ledger
/// order.
pub fn list(ledger: &Ledger) -> (r: Vec<String>)
    ensures
        r@.len() == ledger.packages@.len(),
        forall|i: int| 0 <= i < r@.len() ==> (#[trigger] r@[i])@ == listed(ledger.packages@[i]@),
{
    let mut out: Vec<String> = Vec::new();
    let n = ledger.packages.len();
    let mut i: usize = 0;
    while i < n
        invariant
            n == ledger.packages.len(),
            i <= n,
            out@.len() == i,
            forall|k: int| 0 <= k < i ==> (#[trigger] out@[k])@ == listed(ledger.packages@[k]@),
        decreases n - i,
    {
        let package = &ledger.packages[i];
        let parts = split_commas(&package.source);
        proof {
            lemma_split_nonempty(package.source@);
        }
        let mut line = package.name.clone();
        line.append(" ");
        line.append(package.version.as_str());
        line.append("-");
        let epoch = decimal_string(package.upstream);
        line.append(epoch.as_str());
        line.append(" ");
        line.append(parts[0].as_str());
        assert(line@ =~= listed(package@));
        out.push(line);
        i = i + 1;
    }
    out
}

} // verus!
