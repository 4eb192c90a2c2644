use vstd::prelude::*;

verus! {

/// The staged diff against the current tip snapshot.
pub struct DiffStats {
    pub files_changed: usize,
    pub insertions: usize,
    pub deletions: usize,
}

impl DiffStats {
    pub open spec fn changed(self) -> bool {
        self.files_changed + self.insertions + self.deletions > 0
    }

    /// Whether the diff is non-empty: some file changed, some line was
    /// inserted or some line deleted.
    pub fn has_changes(&self) -> (r: bool)
        ensures
            r == self.changed(),
    {
        self.files_changed > 0 || self.insertions > 0 || self.deletions > 0
    }
}

/// A failure that ends the whole run: the snapshot is the only durability
/// boundary, so it is not skipped like one playlist.
pub enum SnapshotError {
    /// The diff against an existing tip could not be computed.
    Diff(String),
    /// Staging the working tree failed.
    Stage(String),
    /// Writing the new snapshot failed.
    Commit(String),
}

/// Whether a snapshot is owed once everything is staged. `tip_diff` is
/// `None` where the repository has no snapshot yet, and otherwise the diff
/// of the staged tree against the tip, or the error met computing it.
pub open spec fn snapshot_owed(tip_diff: Option<Result<DiffStats, String>>) -> bool {
    match tip_diff {
        None => true,
        Some(Ok(s)) => s.changed(),
        Some(Err(_)) => false,
    }
}

/// Decides whether to take a new snapshot: always on the first run, else
/// only where the staged diff is non-empty. A failed diff against an
/// existing tip is an error, never a snapshot.
pub fn decide_snapshot(tip_diff: Option<Result<DiffStats, String>>) -> (r: Result<bool, SnapshotError>)
    ensures
        r is Err <==> tip_diff matches Some(Err(_)),
        r matches Err(SnapshotError::Diff(e)) ==> tip_diff == Some(Err::<DiffStats, String>(e)),
        r is Err ==> r matches Err(SnapshotError::Diff(_)),
        r matches Ok(b) ==> b == snapshot_owed(tip_diff),
{
    match tip_diff {
        None => Ok(true),
        Some(Ok(s)) => Ok(s.has_changes()),
        Some(Err(e)) => Err(SnapshotError::Diff(e)),
    }
}

} // verus!
