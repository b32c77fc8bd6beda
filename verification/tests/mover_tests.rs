use treeshark::mover::{
    filter_by_ext, filter_rows_by_ext, folder_ext, order_by_size_desc, organized_candidate,
    organized_name, passes_filter_lowered, staged_path,
};
use treeshark::scan::{keeps_file, progress_due, records_completion, scan_status, walk_step, EntryKind, WalkStep};
use treeshark::status::{FileRow, FileStatus};
use treeshark::tally::{
    after_rename, permission_plan, picked_total, preview_split, remove_outcome, total_size,
    DeleteTally, PermissionPlan, RemoveOutcome, ScanTotals, TransferStep, TransferTally, UpsertTally,
};

fn strings(v: &[&str]) -> Vec<String> {
    v.iter().map(|s| s.to_string()).collect()
}

fn row(path: &str, size: u64) -> FileRow {
    FileRow {
        path: path.to_string(),
        size,
        status: FileStatus::Exists,
        first_seen_at: "t0".to_string(),
        last_seen_at: "t1".to_string(),
        deleted_at: None,
        times_seen: 1,
        last_scan_id: 1,
        moved_to: None,
    }
}

#[test]
fn extension_filters() {
    let only = strings(&["mp4", "mkv"]);
    let none: Vec<String> = vec![];
    assert!(filter_by_ext("/v/a.MP4", &only, &none));
    assert!(filter_by_ext("/v/b.mkv", &only, &none));
    assert!(!filter_by_ext("/v/c.avi", &only, &none));
    assert!(!filter_by_ext("/v/mp4", &only, &none));
    assert!(filter_by_ext("/v/c.avi", &none, &none));
    assert!(!filter_by_ext("/v/c.PART", &none, &strings(&["part"])));
    assert!(!filter_by_ext("/v/c.mp4", &only, &strings(&["mp4"])));
    assert!(passes_filter_lowered("/v/x.iso", &strings(&["iso"]), &none));
    assert!(!passes_filter_lowered("/v/x.ISO", &strings(&["iso"]), &none));
}

#[test]
fn filters_rows_in_order() {
    let rows = vec![row("/a.mp4", 3), row("/b.txt", 2), row("/c.MKV", 1)];
    let kept = filter_rows_by_ext(rows, &strings(&["mp4", "mkv"]), &vec![]);
    let paths: Vec<&str> = kept.iter().map(|r| r.path.as_str()).collect();
    assert_eq!(paths, vec!["/a.mp4", "/c.MKV"]);
}

#[test]
fn staged_paths() {
    assert_eq!(staged_path("/home/u/big.iso", "/stage"), "/stage/home/u/big.iso");
    assert_eq!(staged_path("rel/x", "/stage/"), "/stage/rel/x");
    assert_eq!(staged_path("//odd", "/stage"), "/odd");
}

#[test]
fn organized_names() {
    let n = organized_name("/home/u/Movie.MKV");
    assert_eq!((n.name.as_str(), n.stem.as_str(), n.ext.as_str()), ("Movie.MKV", "Movie", "mkv"));
    let n = organized_name("/home/u/.bashrc");
    assert_eq!((n.name.as_str(), n.stem.as_str(), n.ext.as_str()), (".bashrc", ".bashrc", "noext"));
    let n = organized_name("/home/u/archive.tar.gz");
    assert_eq!((n.name.as_str(), n.stem.as_str(), n.ext.as_str()), ("archive.tar.gz", "archive.tar", "gz"));
    let n = organized_name("/home/u/README");
    assert_eq!((n.name.as_str(), n.stem.as_str(), n.ext.as_str()), ("README", "README", "noext"));
    let n = organized_name("/home/u/dir/./");
    assert_eq!((n.name.as_str(), n.stem.as_str(), n.ext.as_str()), ("dir", "dir", "noext"));
    let n = organized_name("/");
    assert_eq!((n.name.as_str(), n.stem.as_str(), n.ext.as_str()), ("unknown", "unknown", "noext"));
    let n = organized_name("a/..");
    assert_eq!((n.name.as_str(), n.stem.as_str(), n.ext.as_str()), ("unknown", "unknown", "noext"));
    let n = organized_name("x.");
    assert_eq!((n.name.as_str(), n.stem.as_str(), n.ext.as_str()), ("x.", "x", ""));
}

#[test]
fn organized_candidates() {
    let n = organized_name("/home/u/Movie.MKV");
    assert_eq!(organized_candidate("/stage", &n, 0), "/stage/__mkv__/Movie.MKV");
    assert_eq!(organized_candidate("/stage", &n, 1), "/stage/__mkv__/Movie_1.mkv");
    assert_eq!(organized_candidate("/stage/", &n, 12), "/stage/__mkv__/Movie_12.mkv");
}

#[test]
fn extension_folders() {
    assert_eq!(folder_ext("__mp4__"), Some("mp4".to_string()));
    assert_eq!(folder_ext("__x__"), Some("x".to_string()));
    assert_eq!(folder_ext("____"), None);
    assert_eq!(folder_ext("___"), None);
    assert_eq!(folder_ext("mp4"), None);
    assert_eq!(folder_ext("__mp4_"), None);
}

#[test]
fn orders_folders_by_size() {
    assert_eq!(order_by_size_desc(&vec![5, 9, 5, 1, 9]), vec![1, 4, 0, 2, 3]);
    assert_eq!(order_by_size_desc(&vec![]), Vec::<usize>::new());
}

#[test]
fn walk_steps() {
    let ex = strings(&[".git", "node_modules"]);
    assert_eq!(walk_step(false, EntryKind::Directory, ".git", &ex), WalkStep::Skip);
    assert_eq!(walk_step(false, EntryKind::Directory, "src", &ex), WalkStep::Descend);
    assert_eq!(walk_step(false, EntryKind::Symlink, "link", &ex), WalkStep::Skip);
    assert_eq!(walk_step(false, EntryKind::File, "a", &ex), WalkStep::Measure);
    assert_eq!(walk_step(false, EntryKind::Other, "fifo", &ex), WalkStep::Skip);
    assert_eq!(walk_step(true, EntryKind::File, "a", &ex), WalkStep::Skip);
    assert!(keeps_file(10, 10));
    assert!(!keeps_file(9, 10));
    assert!(progress_due(0));
    assert!(progress_due(16384));
    assert!(!progress_due(16383));
    assert_eq!(scan_status(true), "interrupted");
    assert_eq!(scan_status(false), "completed");
    assert!(records_completion(false));
    assert!(!records_completion(true));
}

#[test]
fn delete_tally() {
    let mut t = DeleteTally::new();
    assert!(t.record(remove_outcome(true, false), 100));
    assert!(t.record(remove_outcome(false, false), 50));
    assert!(!t.record(remove_outcome(false, true), 70));
    assert_eq!(remove_outcome(false, true), RemoveOutcome::Failed);
    assert_eq!((t.deleted, t.freed, t.failed), (1, 100, 1));
    t.record(RemoveOutcome::Removed, u64::MAX);
    assert_eq!(t.freed, u64::MAX);
}

#[test]
fn transfer_steps() {
    assert_eq!(after_rename(true, None), TransferStep::Done);
    assert_eq!(after_rename(false, Some(18)), TransferStep::CopyInstead);
    assert_eq!(after_rename(false, Some(13)), TransferStep::Failed);
    assert_eq!(after_rename(false, None), TransferStep::Failed);
    let mut t = TransferTally::new();
    t.record_done(10);
    t.record_done(5);
    t.record_failed();
    assert_eq!((t.done, t.bytes, t.failed), (2, 15, 1));
    assert_eq!(permission_plan(0), PermissionPlan::Abort);
    assert_eq!(permission_plan(1), PermissionPlan::Skip);
    assert_eq!(permission_plan(2), PermissionPlan::TryFix);
    assert_eq!(preview_split(35, 20), (20, 15));
    assert_eq!(preview_split(3, 20), (3, 0));
}

#[test]
fn scan_tallies() {
    let mut u = UpsertTally::new();
    u.record(false);
    u.record(true);
    u.record(false);
    assert_eq!((u.new_files, u.updated_files), (2, 1));
    let mut s = ScanTotals::new();
    s.add_path(100, 3, 2, 1);
    s.add_path(50, 1, 0, 1);
    assert_eq!((s.scanned, s.matched, s.new_files, s.updated_files), (150, 4, 2, 2));
}

#[test]
fn size_totals() {
    assert_eq!(total_size(&vec![row("/a", 3), row("/b", 4)]), 7);
    assert_eq!(total_size(&vec![row("/a", u64::MAX), row("/b", 4)]), u64::MAX);
    assert_eq!(picked_total(&vec![10, 20, 30], &vec![2, 0]), 40);
}
