//! The counts that the scan, delete, move, restore and purge commands report, and
//! the decision each of them takes on the outcome of one file operation.
use vstd::prelude::*;
use crate::size::cap;
use crate::status::FileRow;

verus! {

// ─── Sums ──────────────────────────────────────────────────

/// `a + b`, held at `u64::MAX`, as `saturating_add` computes it.
pub open spec fn sat_add(a: u64, b: u64) -> nat {
    cap((a + b) as nat)
}

/// The sum of the sizes.
pub open spec fn sum_sizes(s: Seq<u64>) -> nat
    decreases s.len(),
{
    if s.len() == 0 {
        0
    } else {
        sum_sizes(s.drop_last()) + s.last() as nat
    }
}

/// The sizes of the rows.
pub open spec fn row_sizes(rows: Seq<FileRow>) -> Seq<u64> {
    rows.map_values(|r: FileRow| r.size)
}

/// The total size of the rows, held at `u64::MAX`.
pub fn total_size(rows: &Vec<FileRow>) -> (t: u64)
    ensures
        t == cap(sum_sizes(row_sizes(rows@))),
{
    let mut t: u64 = 0;
    let mut i: usize = 0;
    while i < rows.len()
        invariant
            i <= rows.len(),
            t == cap(sum_sizes(row_sizes(rows@).take(i as int))),
        decreases rows.len() - i,
    {
        assert(row_sizes(rows@).take(i + 1).drop_last() =~= row_sizes(rows@).take(i as int));
        t = t.saturating_add(rows[i].size);
        i = i + 1;
    }
    assert(row_sizes(rows@).take(rows.len() as int) =~= row_sizes(rows@));
    t
}

/// The sizes of the files picked by `picks`, as indices into `sizes`.
pub open spec fn picked_sizes(sizes: Seq<u64>, picks: Seq<usize>) -> Seq<u64> {
    picks.map_values(|i: usize| sizes[i as int])
}

/// The total size of the picked files, held at `u64::MAX`.
pub fn picked_total(sizes: &Vec<u64>, picks: &Vec<usize>) -> (t: u64)
    requires
        forall|k: int| 0 <= k < picks@.len() ==> (#[trigger] picks@[k]) < sizes@.len(),
    ensures
        t == cap(sum_sizes(picked_sizes(sizes@, picks@))),
{
    let mut t: u64 = 0;
    let mut i: usize = 0;
    while i < picks.len()
        invariant
            i <= picks.len(),
            forall|k: int| 0 <= k < picks@.len() ==> (#[trigger] picks@[k]) < sizes@.len(),
            t == cap(sum_sizes(picked_sizes(sizes@, picks@).take(i as int))),
        decreases picks.len() - i,
    {
        assert(picked_sizes(sizes@, picks@).take(i + 1).drop_last() =~= picked_sizes(
            sizes@,
            picks@,
        ).take(i as int));
        t = t.saturating_add(sizes[picks[i]]);
        i = i + 1;
    }
    assert(picked_sizes(sizes@, picks@).take(picks.len() as int) =~= picked_sizes(sizes@, picks@));
    t
}

// ─── Delete ────────────────────────────────────────────────

/// What came of removing one file.
#[derive(Debug, Clone, Copy, PartialEq, Eq, Structural)]
pub enum RemoveOutcome {
    /// The file was removed.
    Removed,
    /// Removing failed because the file was gone already.
    AlreadyGone,
    /// Removing failed and the file is still there.
    Failed,
}

/// What came of removing a file, from whether the removal succeeded and whether the
/// file still exists after a failure.
pub fn remove_outcome(removed: bool, still_exists: bool) -> (o: RemoveOutcome)
    ensures
        removed ==> o == RemoveOutcome::Removed,
        !removed && !still_exists ==> o == RemoveOutcome::AlreadyGone,
        !removed && still_exists ==> o == RemoveOutcome::Failed,
{
    if removed {
        RemoveOutcome::Removed
    } else if !still_exists {
        RemoveOutcome::AlreadyGone
    } else {
        RemoveOutcome::Failed
    }
}

/// The database marks a file deleted when it was removed or was gone already.
pub open spec fn marks_deleted(o: RemoveOutcome) -> bool {
    o != RemoveOutcome::Failed
}

/// The counts of a delete run: files removed, bytes freed, failures.
#[derive(Debug, Clone, Copy)]
pub struct DeleteTally {
    pub deleted: u64,
    pub freed: u64,
    pub failed: u64,
}

/// The counts after one more outcome for a file of `size` bytes (held at `u64::MAX`).
pub open spec fn delete_step(t: DeleteTally, o: RemoveOutcome, size: u64) -> DeleteTally {
    match o {
        RemoveOutcome::Removed => DeleteTally {
            deleted: sat_add(t.deleted, 1) as u64,
            freed: sat_add(t.freed, size) as u64,
            failed: t.failed,
        },
        RemoveOutcome::AlreadyGone => t,
        RemoveOutcome::Failed => DeleteTally { failed: sat_add(t.failed, 1) as u64, ..t },
    }
}

impl DeleteTally {
    /// No file handled yet.
    pub fn new() -> (t: DeleteTally)
        ensures
            t.deleted == 0 && t.freed == 0 && t.failed == 0,
    {
        DeleteTally { deleted: 0, freed: 0, failed: 0 }
    }

    /// Counts one outcome; returns whether the database is to mark the file deleted.
    pub fn record(&mut self, o: RemoveOutcome, size: u64) -> (mark: bool)
        ensures
            *final(self) == delete_step(*old(self), o, size),
            mark == marks_deleted(o),
    {
        match o {
            RemoveOutcome::Removed => {
                self.deleted = self.deleted.saturating_add(1);
                self.freed = self.freed.saturating_add(size);
                true
            },
            RemoveOutcome::AlreadyGone => true,
            RemoveOutcome::Failed => {
                self.failed = self.failed.saturating_add(1);
                false
            },
        }
    }
}

/// The counts after a run of outcomes, from none.
pub open spec fn delete_run(outcomes: Seq<(RemoveOutcome, u64)>) -> DeleteTally
    decreases outcomes.len(),
{
    if outcomes.len() == 0 {
        DeleteTally { deleted: 0, freed: 0, failed: 0 }
    } else {
        delete_step(delete_run(outcomes.drop_last()), outcomes.last().0, outcomes.last().1)
    }
}

/// How many outcomes of a run match.
pub open spec fn count_outcomes(outcomes: Seq<(RemoveOutcome, u64)>, o: RemoveOutcome) -> nat
    decreases outcomes.len(),
{
    if outcomes.len() == 0 {
        0
    } else {
        count_outcomes(outcomes.drop_last(), o) + if outcomes.last().0 == o {
            1nat
        } else {
            0nat
        }
    }
}

/// A delete run reports exactly the files it removed and the files it failed on; the
/// files that were gone already are neither, and removed plus failed plus gone is every file.
pub proof fn law_delete_counts(outcomes: Seq<(RemoveOutcome, u64)>)
    requires
        outcomes.len() < u64::MAX,
    ensures
        delete_run(outcomes).deleted == count_outcomes(outcomes, RemoveOutcome::Removed),
        delete_run(outcomes).failed == count_outcomes(outcomes, RemoveOutcome::Failed),
        count_outcomes(outcomes, RemoveOutcome::Removed) + count_outcomes(
            outcomes,
            RemoveOutcome::AlreadyGone,
        ) + count_outcomes(outcomes, RemoveOutcome::Failed) == outcomes.len(),
    decreases outcomes.len(),
{
    if outcomes.len() > 0 {
        law_delete_counts(outcomes.drop_last());
    }
}

/// The bytes of the files that a run removed, in full.
pub open spec fn removed_bytes(outcomes: Seq<(RemoveOutcome, u64)>) -> nat
    decreases outcomes.len(),
{
    if outcomes.len() == 0 {
        0
    } else {
        removed_bytes(outcomes.drop_last()) + if outcomes.last().0 == RemoveOutcome::Removed {
            outcomes.last().1 as nat
        } else {
            0nat
        }
    }
}

/// A delete run reports as freed the sizes of all the files it removed, added up (held
/// at `u64::MAX`); files that were gone already or failed free nothing.
pub proof fn law_delete_frees_removed_sizes(outcomes: Seq<(RemoveOutcome, u64)>)
    ensures
        delete_run(outcomes).freed == cap(removed_bytes(outcomes)),
    decreases outcomes.len(),
{
    if outcomes.len() > 0 {
        law_delete_frees_removed_sizes(outcomes.drop_last());
    }
}

// ─── Move, restore and purge ───────────────────────────────

/// The error number of a rename across file systems (`EXDEV`).
pub const CROSS_DEVICE: i32 = 18;

/// What to do after a rename.
#[derive(Debug, Clone, Copy, PartialEq, Eq, Structural)]
pub enum TransferStep {
    /// The file is where it should be.
    Done,
    /// The rename crossed file systems: copy the file, then remove the original.
    CopyInstead,
    /// The file could not be moved.
    Failed,
}

/// What to do after a rename that succeeded or failed with the given OS error number.
pub fn after_rename(renamed: bool, os_error: Option<i32>) -> (s: TransferStep)
    ensures
        renamed ==> s == TransferStep::Done,
        !renamed && os_error == Some(CROSS_DEVICE) ==> s == TransferStep::CopyInstead,
        !renamed && os_error != Some(CROSS_DEVICE) ==> s == TransferStep::Failed,
{
    if renamed {
        TransferStep::Done
    } else {
        match os_error {
            Some(code) => if code == CROSS_DEVICE {
                TransferStep::CopyInstead
            } else {
                TransferStep::Failed
            },
            None => TransferStep::Failed,
        }
    }
}

/// The counts of a move, restore or purge run: items done, their bytes, failures.
#[derive(Debug, Clone, Copy)]
pub struct TransferTally {
    pub done: u64,
    pub bytes: u64,
    pub failed: u64,
}

impl TransferTally {
    /// Nothing handled yet.
    pub fn new() -> (t: TransferTally)
        ensures
            t.done == 0 && t.bytes == 0 && t.failed == 0,
    {
        TransferTally { done: 0, bytes: 0, failed: 0 }
    }

    /// Counts an item of `size` bytes that was handled (counts held at `u64::MAX`).
    pub fn record_done(&mut self, size: u64)
        ensures
            final(self).done == sat_add(old(self).done, 1),
            final(self).bytes == sat_add(old(self).bytes, size),
            final(self).failed == old(self).failed,
    {
        self.done = self.done.saturating_add(1);
        self.bytes = self.bytes.saturating_add(size);
    }

    /// Counts an item that failed.
    pub fn record_failed(&mut self)
        ensures
            final(self).done == old(self).done,
            final(self).bytes == old(self).bytes,
            final(self).failed == sat_add(old(self).failed, 1),
    {
        self.failed = self.failed.saturating_add(1);
    }
}

/// What to do about files whose permissions would stop a move.
#[derive(Debug, Clone, Copy, PartialEq, Eq, Structural)]
pub enum PermissionPlan {
    /// Stop and move nothing.
    Abort,
    /// Move the files that can be moved.
    Skip,
    /// Grant the owner read and write on the files and their directories, then move all.
    TryFix,
}

/// The plan picked by the position of the answer: abort first, skip second, fix third.
pub fn permission_plan(choice: usize) -> (p: PermissionPlan)
    ensures
        choice == 0 ==> p == PermissionPlan::Abort,
        choice == 2 ==> p == PermissionPlan::TryFix,
        choice != 0 && choice != 2 ==> p == PermissionPlan::Skip,
{
    if choice == 0 {
        PermissionPlan::Abort
    } else if choice == 2 {
        PermissionPlan::TryFix
    } else {
        PermissionPlan::Skip
    }
}

/// How many of `total` items a preview shows, at most `limit`, and how many it leaves out.
pub fn preview_split(total: usize, limit: usize) -> (r: (usize, usize))
    ensures
        r.0 == if total < limit {
            total
        } else {
            limit
        },
        r.0 + r.1 == total,
{
    let shown = if total < limit {
        total
    } else {
        limit
    };
    (shown, total - shown)
}

// ─── Scan ──────────────────────────────────────────────────

/// The new and the already known files of a batch written to the database.
#[derive(Debug, Clone, Copy)]
pub struct UpsertTally {
    pub new_files: usize,
    pub updated_files: usize,
}

impl UpsertTally {
    /// No file written yet.
    pub fn new() -> (t: UpsertTally)
        ensures
            t.new_files == 0 && t.updated_files == 0,
    {
        UpsertTally { new_files: 0, updated_files: 0 }
    }

    /// Counts a file written, as new unless the database held it already.
    pub fn record(&mut self, existed: bool)
        requires
            old(self).new_files + old(self).updated_files < usize::MAX,
        ensures
            existed ==> final(self).updated_files == old(self).updated_files + 1
                && final(self).new_files == old(self).new_files,
            !existed ==> final(self).new_files == old(self).new_files + 1
                && final(self).updated_files == old(self).updated_files,
    {
        if existed {
            self.updated_files = self.updated_files + 1;
        } else {
            self.new_files = self.new_files + 1;
        }
    }
}

/// The totals of a scan over its paths.
#[derive(Debug, Clone, Copy)]
pub struct ScanTotals {
    pub scanned: u64,
    pub matched: u64,
    pub new_files: u64,
    pub updated_files: u64,
}

impl ScanTotals {
    /// No path walked yet.
    pub fn new() -> (t: ScanTotals)
        ensures
            t.scanned == 0 && t.matched == 0 && t.new_files == 0 && t.updated_files == 0,
    {
        ScanTotals { scanned: 0, matched: 0, new_files: 0, updated_files: 0 }
    }

    /// Adds what one path gave (held at `u64::MAX`).
    pub fn add_path(&mut self, scanned: u64, matched: u64, new_files: u64, updated_files: u64)
        ensures
            final(self).scanned == sat_add(old(self).scanned, scanned),
            final(self).matched == sat_add(old(self).matched, matched),
            final(self).new_files == sat_add(old(self).new_files, new_files),
            final(self).updated_files == sat_add(old(self).updated_files, updated_files),
    {
        self.scanned = self.scanned.saturating_add(scanned);
        self.matched = self.matched.saturating_add(matched);
        self.new_files = self.new_files.saturating_add(new_files);
        self.updated_files = self.updated_files.saturating_add(updated_files);
    }
}

} // verus!
