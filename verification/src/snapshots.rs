//! Snapshots of a project kept under `revs/`: their names, what goes into
//! them and how much room they take.
use vstd::prelude::*;
use vstd::string::StringExecFns;

use crate::text::{owned, str_eq};

verus! {

/// Folder of a project that holds its snapshots.
pub const REVS_FOLDER: &'static str = "revs";

/// How many snapshots are kept when no count is given.
pub const DEFAULT_SNAPSHOT_COUNT: usize = 10;

/// Start of every snapshot's file name.
pub const SNAPSHOT_PREFIX: &'static str = "snapshot-";

/// Extension of every snapshot's file name.
pub const SNAPSHOT_EXTENSION: &'static str = "tar.gz";

/// The file name of a snapshot taken at `timestamp`.
pub open spec fn snapshot_name(timestamp: Seq<char>) -> Seq<char> {
    "snapshot-"@ + timestamp + "."@ + "tar.gz"@
}

/// The file name of a snapshot taken at `timestamp` (as `%Y%m%d-%H%M%S`).
pub fn snapshot_filename(timestamp: &str) -> (r: String)
    ensures
        r@ == snapshot_name(timestamp@),
{
    let mut name = owned(SNAPSHOT_PREFIX);
    name.append(timestamp);
    name.append(".");
    name.append(SNAPSHOT_EXTENSION);
    name
}

/// Whether a directory entry stays out of a snapshot: the snapshot folder
/// itself and the repository folder.
pub open spec fn skipped_in_snapshot(name: Seq<char>) -> bool {
    name == "revs"@ || name == ".git"@
}

/// Whether a directory entry stays out of a snapshot.
pub fn is_skipped_in_snapshot(name: &str) -> (r: bool)
    ensures
        r == skipped_in_snapshot(name@),
{
    str_eq(name, REVS_FOLDER) || str_eq(name, ".git")
}

/// The sum of a list of sizes.
pub open spec fn total_size(sizes: Seq<u64>) -> nat
    decreases sizes.len(),
{
    if sizes.len() == 0 {
        0
    } else {
        total_size(sizes.drop_last()) + sizes.last() as nat
    }
}

proof fn lemma_total_size_prefix(sizes: Seq<u64>, k: int)
    requires
        0 <= k <= sizes.len(),
    ensures
        total_size(sizes.take(k)) <= total_size(sizes),
    decreases sizes.len(),
{
    if k < sizes.len() {
        assert(sizes.drop_last().take(k) =~= sizes.take(k));
        lemma_total_size_prefix(sizes.drop_last(), k);
    } else {
        assert(sizes.take(k) =~= sizes);
    }
}

/// The room all snapshots take, from the sizes the manifest records.
pub fn get_snapshots_size(sizes: &[u64]) -> (r: u64)
    requires
        total_size(sizes@) <= u64::MAX,
    ensures
        r == total_size(sizes@),
{
    let mut total: u64 = 0;
    let mut i: usize = 0;
    while i < sizes.len()
        invariant
            i <= sizes@.len(),
            total_size(sizes@) <= u64::MAX,
            total == total_size(sizes@.take(i as int)),
        decreases sizes.len() - i,
    {
        proof {
            assert(sizes@.take(i + 1).drop_last() =~= sizes@.take(i as int));
            lemma_total_size_prefix(sizes@, i + 1);
        }
        total = total + sizes[i];
        i = i + 1;
    }
    proof {
        assert(sizes@.take(sizes@.len() as int) =~= sizes@);
    }
    total
}

} // verus!
