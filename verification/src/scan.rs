//! The decisions of the directory walk: which entries it skips, which directories it
//! descends into, which files it keeps, when it reports progress, and how a scan ends.
use vstd::prelude::*;
use crate::resume::contains_path;
use crate::text::{text_of, views};

verus! {

/// What a directory entry is, by its file type.
#[derive(Debug, Clone, Copy, PartialEq, Eq, Structural)]
pub enum EntryKind {
    Symlink,
    Directory,
    File,
    /// Its file type could not be read, or it is neither file, directory nor link.
    Other,
}

/// What the walk does with an entry.
#[derive(Debug, Clone, Copy, PartialEq, Eq, Structural)]
pub enum WalkStep {
    /// Leave it.
    Skip,
    /// Walk the directory.
    Descend,
    /// Count the file and read its size.
    Measure,
}

/// What the walk does with an entry of the given kind and name: nothing once the scan
/// is interrupted; links are never followed; directories whose name is excluded are
/// pruned with all they hold; other directories are walked; files are measured.
pub open spec fn walk_step_of(interrupted: bool, kind: EntryKind, name: Seq<char>, excludes: Seq<Seq<char>>) -> WalkStep {
    if interrupted {
        WalkStep::Skip
    } else {
        match kind {
            EntryKind::Symlink => WalkStep::Skip,
            EntryKind::Directory => if excludes.contains(name) {
                WalkStep::Skip
            } else {
                WalkStep::Descend
            },
            EntryKind::File => WalkStep::Measure,
            EntryKind::Other => WalkStep::Skip,
        }
    }
}

/// What the walk does with an entry.
pub fn walk_step(interrupted: bool, kind: EntryKind, name: &str, excludes: &Vec<String>) -> (s: WalkStep)
    ensures
        s == walk_step_of(interrupted, kind, name@, views(excludes@)),
{
    if interrupted {
        return WalkStep::Skip;
    }
    match kind {
        EntryKind::Symlink => WalkStep::Skip,
        EntryKind::Directory => if contains_path(excludes, name) {
            WalkStep::Skip
        } else {
            WalkStep::Descend
        },
        EntryKind::File => WalkStep::Measure,
        EntryKind::Other => WalkStep::Skip,
    }
}

/// A file is kept when it is at least as big as the threshold.
pub fn keeps_file(size: u64, min_bytes: u64) -> (b: bool)
    ensures
        b == (size >= min_bytes),
{
    size >= min_bytes
}

/// The progress line is refreshed at every 16384th file (the count before it is counted).
pub fn progress_due(count: u64) -> (b: bool)
    ensures
        b == (count % 16384 == 0),
{
    let b = count & 0x3FFF == 0;
    assert(count & 0x3FFF == count % 16384) by (bit_vector);
    b
}

/// The status a scan is recorded with when it ends.
pub fn scan_status(interrupted: bool) -> (s: String)
    ensures
        s@ == if interrupted {
            "interrupted"@
        } else {
            "completed"@
        },
{
    if interrupted {
        text_of("interrupted")
    } else {
        text_of("completed")
    }
}

/// A path is recorded as completed, and vanished files are looked for, only when the
/// scan was not interrupted.
pub fn records_completion(interrupted: bool) -> (b: bool)
    ensures
        b == !interrupted,
{
    !interrupted
}

/// An excluded directory is never walked, whatever else holds.
pub proof fn law_excluded_never_walked(interrupted: bool, name: Seq<char>, excludes: Seq<Seq<char>>)
    requires
        excludes.contains(name),
    ensures
        walk_step_of(interrupted, EntryKind::Directory, name, excludes) == WalkStep::Skip,
{
}

/// Links are never followed and an interrupted walk takes no further step.
pub proof fn law_links_and_interrupts(kind: EntryKind, name: Seq<char>, excludes: Seq<Seq<char>>)
    ensures
        walk_step_of(false, EntryKind::Symlink, name, excludes) == WalkStep::Skip,
        walk_step_of(true, kind, name, excludes) == WalkStep::Skip,
{
}

/// A running walk descends into every directory that is not excluded, whatever its
/// name (hidden ones included), and measures every file.
pub proof fn law_unexcluded_walked(name: Seq<char>, excludes: Seq<Seq<char>>)
    ensures
        !excludes.contains(name) ==> walk_step_of(false, EntryKind::Directory, name, excludes)
            == WalkStep::Descend,
        walk_step_of(false, EntryKind::File, name, excludes) == WalkStep::Measure,
{
}

} // verus!
