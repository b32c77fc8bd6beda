//! The records that the database holds and what the tables show of them:
//! file statuses, file rows and the database summary.
use vstd::prelude::*;
use crate::paint::{ansi_wrapped, paint, tint_code};
use crate::text::{text_eq, text_of};

verus! {

/// What became of a file that a scan found.
#[derive(Debug, Clone, Copy, PartialEq, Eq, Structural)]
pub enum FileStatus {
    Exists,
    Deleted,
    Missing,
    Moved,
}

/// The colour a value is shown in.
#[derive(Debug, Clone, Copy, PartialEq, Eq, Structural)]
pub enum Tint {
    Plain,
    White,
    Green,
    Red,
    RedBold,
    Yellow,
    Blue,
    Cyan,
}

/// The status that the database text `s` names; anything unknown is `Exists`.
pub open spec fn status_of(s: Seq<char>) -> FileStatus {
    if s == "deleted"@ {
        FileStatus::Deleted
    } else if s == "missing"@ {
        FileStatus::Missing
    } else if s == "moved"@ {
        FileStatus::Moved
    } else {
        FileStatus::Exists
    }
}

/// The database text of a status.
pub open spec fn status_label(s: FileStatus) -> Seq<char> {
    match s {
        FileStatus::Exists => "exists"@,
        FileStatus::Deleted => "deleted"@,
        FileStatus::Missing => "missing"@,
        FileStatus::Moved => "moved"@,
    }
}

/// The colour a status is shown in.
pub open spec fn status_tint(s: FileStatus) -> Tint {
    match s {
        FileStatus::Exists => Tint::Green,
        FileStatus::Deleted => Tint::Red,
        FileStatus::Missing => Tint::Yellow,
        FileStatus::Moved => Tint::Blue,
    }
}

impl FileStatus {
    /// The status that the database text names; anything unknown counts as existing.
    pub fn from_str(s: &str) -> (r: FileStatus)
        ensures
            r == status_of(s@),
    {
        if text_eq(s, "deleted") {
            FileStatus::Deleted
        } else if text_eq(s, "missing") {
            FileStatus::Missing
        } else if text_eq(s, "moved") {
            FileStatus::Moved
        } else {
            FileStatus::Exists
        }
    }

    /// The database text of this status.
    pub fn label(&self) -> (r: String)
        ensures
            r@ == status_label(*self),
    {
        match self {
            FileStatus::Exists => text_of("exists"),
            FileStatus::Deleted => text_of("deleted"),
            FileStatus::Missing => text_of("missing"),
            FileStatus::Moved => text_of("moved"),
        }
    }

    /// The database text of this status in its colour (green, red, yellow, blue),
    /// as the tables show it.
    pub fn colored(&self) -> (r: String)
        ensures
            r@ == status_label(*self) || r@ == ansi_wrapped(
                status_label(*self),
                tint_code(status_tint(*self))->Some_0,
            ),
    {
        let label = self.label();
        let t = self.tint();
        proof {
            reveal_strlit("exists");
            reveal_strlit("deleted");
            reveal_strlit("missing");
            reveal_strlit("moved");
        }
        paint(label.as_str(), t)
    }

    /// The colour this status is shown in.
    pub fn tint(&self) -> (t: Tint)
        ensures
            t == status_tint(*self),
    {
        match self {
            FileStatus::Exists => Tint::Green,
            FileStatus::Deleted => Tint::Red,
            FileStatus::Missing => Tint::Yellow,
            FileStatus::Moved => Tint::Blue,
        }
    }
}

/// A file row of the database.
#[derive(Debug, Clone)]
pub struct FileRow {
    pub path: String,
    pub size: u64,
    pub status: FileStatus,
    pub first_seen_at: String,
    pub last_seen_at: String,
    pub deleted_at: Option<String>,
    pub times_seen: u32,
    pub last_scan_id: i64,
    pub moved_to: Option<String>,
}

/// A summary of the database: files by status, their sizes, and the number of scans.
#[derive(Debug, Clone, Copy)]
pub struct DbStats {
    pub total_files: u64,
    pub exists: u64,
    pub deleted: u64,
    pub missing: u64,
    pub moved: u64,
    pub total_size_exists: u64,
    pub total_size_deleted: u64,
    pub total_size_moved: u64,
    pub total_scans: u64,
}

/// A sum that SQL reports, or 0 where it reports none (no rows).
pub open spec fn sum_or_zero(s: Option<i64>) -> u64 {
    match s {
        Some(v) => v as u64,
        None => 0,
    }
}

impl DbStats {
    /// The summary from the counts and sums that the database reports, each taken as
    /// an unsigned number; a sum that is absent (no rows) counts as 0.
    pub fn from_counts(
        total_files: i64,
        exists: i64,
        deleted: i64,
        missing: i64,
        moved: i64,
        size_exists: Option<i64>,
        size_deleted: Option<i64>,
        size_moved: Option<i64>,
        total_scans: i64,
    ) -> (r: DbStats)
        ensures
            r.total_files == total_files as u64,
            r.exists == exists as u64,
            r.deleted == deleted as u64,
            r.missing == missing as u64,
            r.moved == moved as u64,
            r.total_size_exists == sum_or_zero(size_exists),
            r.total_size_deleted == sum_or_zero(size_deleted),
            r.total_size_moved == sum_or_zero(size_moved),
            size_exists matches Some(v) ==> (v >= 0 ==> r.total_size_exists == v),
            size_deleted matches Some(v) ==> (v >= 0 ==> r.total_size_deleted == v),
            size_moved matches Some(v) ==> (v >= 0 ==> r.total_size_moved == v),
            total_files >= 0 ==> r.total_files == total_files,
            exists >= 0 ==> r.exists == exists,
            deleted >= 0 ==> r.deleted == deleted,
            missing >= 0 ==> r.missing == missing,
            moved >= 0 ==> r.moved == moved,
            total_scans >= 0 ==> r.total_scans == total_scans,
            r.total_scans == total_scans as u64,
    {
        DbStats {
            total_files: total_files as u64,
            exists: exists as u64,
            deleted: deleted as u64,
            missing: missing as u64,
            moved: moved as u64,
            total_size_exists: match size_exists {
                Some(v) => v as u64,
                None => 0,
            },
            total_size_deleted: match size_deleted {
                Some(v) => v as u64,
                None => 0,
            },
            total_size_moved: match size_moved {
                Some(v) => v as u64,
                None => 0,
            },
            total_scans: total_scans as u64,
        }
    }
}

/// Reading back the text that a status is stored as gives the status again.
pub proof fn law_status_round_trip(s: FileStatus)
    ensures
        status_of(status_label(s)) == s,
{
    reveal_strlit("exists");
    reveal_strlit("deleted");
    reveal_strlit("missing");
    reveal_strlit("moved");
    assert("exists"@[0] == 'e' && "deleted"@[0] == 'd' && "missing"@[0] == 'm' && "moved"@.len()
        == 5 && "missing"@.len() == 7);
    assert("exists"@ != "deleted"@);
    assert("exists"@ != "missing"@);
    assert("exists"@ != "moved"@);
    assert("deleted"@ != "missing"@);
    assert("deleted"@ != "moved"@);
    assert("missing"@ != "moved"@);
}

/// A status text that names no status reads as `Exists`.
pub proof fn law_unknown_status_exists(s: Seq<char>)
    requires
        s != "deleted"@,
        s != "missing"@,
        s != "moved"@,
    ensures
        status_of(s) == FileStatus::Exists,
{
}

/// A size sum that the database reports is kept whole, however large: any sum it can
/// report (a non-negative `i64`) is the summary's size, and no sum reads as 0.
pub proof fn law_sums_kept_whole(v: i64)
    requires
        v >= 0,
    ensures
        sum_or_zero(Some(v)) == v,
        sum_or_zero(None) == 0,
{
}

} // verus!
