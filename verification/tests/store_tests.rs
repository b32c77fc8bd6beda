use treeshark::paths::{
    database_path, join_path, normalize_prefix, path_is_absolute, split_dir_name, staging_root,
};
use treeshark::query::{missing_query, top_files_query};
use treeshark::status::{DbStats, FileStatus, Tint};

#[test]
fn joins_paths() {
    assert_eq!(join_path("/home/u", "a/b"), "/home/u/a/b");
    assert_eq!(join_path("/home/u/", "a"), "/home/u/a");
    assert_eq!(join_path("/home/u", "/etc"), "/etc");
    assert_eq!(join_path("", "a"), "a");
    assert_eq!(join_path("x", ""), "x/");
    assert!(path_is_absolute("/a"));
    assert!(!path_is_absolute("a/b"));
    assert_eq!(database_path("/home/u"), "/home/u/treeshark.db");
}

#[test]
fn normalizes_prefixes() {
    assert_eq!(normalize_prefix("/usr"), "/usr/");
    assert_eq!(normalize_prefix("/usr/"), "/usr/");
    assert_eq!(normalize_prefix(""), "/");
}

#[test]
fn splits_dir_and_name() {
    assert_eq!(split_dir_name("/a/b/c.mkv"), ("/a/b/".to_string(), "c.mkv".to_string()));
    assert_eq!(split_dir_name("file"), ("".to_string(), "file".to_string()));
    assert_eq!(split_dir_name("/dir/"), ("/dir/".to_string(), "".to_string()));
}

#[test]
fn file_status_text() {
    assert_eq!(FileStatus::from_str("deleted"), FileStatus::Deleted);
    assert_eq!(FileStatus::from_str("missing"), FileStatus::Missing);
    assert_eq!(FileStatus::from_str("moved"), FileStatus::Moved);
    assert_eq!(FileStatus::from_str("exists"), FileStatus::Exists);
    assert_eq!(FileStatus::from_str("whatever"), FileStatus::Exists);
    for s in [FileStatus::Exists, FileStatus::Deleted, FileStatus::Missing, FileStatus::Moved] {
        assert_eq!(FileStatus::from_str(&s.label()), s);
    }
    assert_eq!(FileStatus::Exists.tint(), Tint::Green);
    assert_eq!(FileStatus::Deleted.tint(), Tint::Red);
    assert_eq!(FileStatus::Missing.tint(), Tint::Yellow);
    assert_eq!(FileStatus::Moved.tint(), Tint::Blue);
}

#[test]
fn stats_from_counts() {
    let s = DbStats::from_counts(33, 20, 3, 10, 0, Some(2_600_000_000), Some(450_000_000), None, 3);
    assert_eq!(s.total_files, 33);
    assert_eq!(s.exists, 20);
    assert_eq!(s.deleted, 3);
    assert_eq!(s.missing, 10);
    assert_eq!(s.moved, 0);
    assert_eq!(s.total_size_exists, 2_600_000_000);
    assert_eq!(s.total_size_deleted, 450_000_000);
    assert_eq!(s.total_size_moved, 0);
    assert_eq!(s.total_scans, 3);
}

const HEAD: &str = "SELECT path, size, status, first_seen_at, last_seen_at, deleted_at, times_seen, last_scan_id, moved_to\n             FROM files ";

#[test]
fn top_files_all_paths() {
    let q = top_files_query(50, None, &vec![]);
    assert_eq!(q.sql, format!("{} ORDER BY size DESC LIMIT ?1", HEAD));
    assert!(q.binds.is_empty());
    assert_eq!(q.limit, 50);
}

#[test]
fn top_files_status_and_scope() {
    let q = top_files_query(10, Some("exists"), &vec!["/usr".to_string(), "/home/u/".to_string()]);
    assert_eq!(
        q.sql,
        format!(
            "{}WHERE status = ?1 AND (substr(path, 1, length(?2)) = ?2 OR substr(path, 1, length(?3)) = ?3) ORDER BY size DESC LIMIT ?4",
            HEAD
        )
    );
    assert_eq!(q.binds, vec!["exists".to_string(), "/usr/".to_string(), "/home/u/".to_string()]);
    assert_eq!(q.limit, 10);
}

#[test]
fn top_files_scope_only() {
    let q = top_files_query(5, None, &vec!["/data".to_string()]);
    assert_eq!(q.sql, format!("{}WHERE (substr(path, 1, length(?1)) = ?1) ORDER BY size DESC LIMIT ?2", HEAD));
    assert_eq!(q.binds, vec!["/data/".to_string()]);
}

#[test]
fn top_files_status_only() {
    let q = top_files_query(7, Some("deleted"), &vec![]);
    assert_eq!(q.sql, format!("{}WHERE status = ?1 ORDER BY size DESC LIMIT ?2", HEAD));
    assert_eq!(q.binds, vec!["deleted".to_string()]);
}

#[test]
fn missing_query_needs_paths() {
    assert!(missing_query(4, &vec![], 1 << 30).is_none());
    let q = missing_query(4, &vec!["/a".to_string(), "/b/".to_string()], 1 << 30).unwrap();
    assert_eq!(
        q.sql,
        "UPDATE files SET status = 'missing'\n             WHERE status = 'exists' AND last_scan_id != ?1 AND size >= ?2 AND (substr(path, 1, length(?3)) = ?3 OR substr(path, 1, length(?4)) = ?4)"
    );
    assert_eq!(q.scan_id, 4);
    assert_eq!(q.min_size, 1 << 30);
    assert_eq!(q.prefixes, vec!["/a/".to_string(), "/b/".to_string()]);
}

#[test]
fn many_placeholders_are_numbered() {
    let prefixes: Vec<String> = (0..12).map(|i| format!("/p{}", i)).collect();
    let q = top_files_query(1, Some("exists"), &prefixes);
    assert!(q.sql.contains("substr(path, 1, length(?13)) = ?13"));
    assert!(q.sql.ends_with("LIMIT ?14"));
    assert_eq!(q.binds.len(), 13);
}

fn scoped_paths(conn: &rusqlite::Connection, status: Option<&str>, prefixes: &[&str]) -> Vec<String> {
    let prefixes: Vec<String> = prefixes.iter().map(|p| p.to_string()).collect();
    let q = top_files_query(100, status, &prefixes);
    let mut stmt = conn.prepare(&q.sql).unwrap();
    let mut params: Vec<&dyn rusqlite::types::ToSql> = Vec::new();
    for b in &q.binds {
        params.push(b);
    }
    params.push(&q.limit);
    stmt.query_map(rusqlite::params_from_iter(params), |r| r.get::<_, String>(0))
        .unwrap()
        .collect::<Result<Vec<_>, _>>()
        .unwrap()
}

fn sample_db() -> rusqlite::Connection {
    let conn = rusqlite::Connection::open_in_memory().unwrap();
    conn.execute_batch(
        "CREATE TABLE files (path TEXT PRIMARY KEY, size INTEGER, status TEXT, first_seen_at TEXT,
            last_seen_at TEXT, deleted_at TEXT, times_seen INTEGER, last_scan_id INTEGER, moved_to TEXT);",
    )
    .unwrap();
    for (path, size, scan) in [
        ("/d/a_b/1", 50i64, 1i64),
        ("/d/aXb/2", 40, 1),
        ("/data/3", 30, 1),
        ("/Data/4", 20, 1),
        ("/usr2/5", 10, 1),
        ("/usr/6", 5, 1),
    ] {
        let path = path.to_string();
        let params: [&dyn rusqlite::types::ToSql; 3] = [&path, &size, &scan];
        conn.execute(
            "INSERT INTO files VALUES (?1, ?2, 'exists', 't', 't', NULL, 1, ?3, NULL)",
            rusqlite::params_from_iter(params),
        )
        .unwrap();
    }
    conn
}

#[test]
fn scope_is_an_exact_prefix_in_sqlite() {
    let conn = sample_db();
    assert_eq!(scoped_paths(&conn, Some("exists"), &["/d/a_b"]), vec!["/d/a_b/1"]);
    assert_eq!(scoped_paths(&conn, None, &["/Data"]), vec!["/Data/4"]);
    assert_eq!(scoped_paths(&conn, None, &["/usr"]), vec!["/usr/6"]);
    assert_eq!(scoped_paths(&conn, None, &["/usr", "/data/"]), vec!["/data/3", "/usr/6"]);
    assert_eq!(scoped_paths(&conn, None, &[]).len(), 6);
}

#[test]
fn missing_marks_only_under_scanned_paths_in_sqlite() {
    let conn = sample_db();
    let q = missing_query(2, &vec!["/d/a_b".to_string(), "/Data".to_string()], 0).unwrap();
    let mut params: Vec<&dyn rusqlite::types::ToSql> = vec![&q.scan_id, &q.min_size];
    for p in &q.prefixes {
        params.push(p);
    }
    let changed = conn.execute(&q.sql, rusqlite::params_from_iter(params)).unwrap();
    assert_eq!(changed, 2);
    let missing: Vec<String> = conn
        .prepare("SELECT path FROM files WHERE status = 'missing' ORDER BY path")
        .unwrap()
        .query_map([], |r| r.get::<_, String>(0))
        .unwrap()
        .collect::<Result<Vec<_>, _>>()
        .unwrap();
    assert_eq!(missing, vec!["/Data/4", "/d/a_b/1"]);
}

#[test]
fn staging_roots() {
    assert_eq!(staging_root("/stage/home/u/big.iso").as_deref(), Some("/stage"));
    assert_eq!(staging_root("/stage/__iso__/big.iso").as_deref(), Some("/stage"));
    assert_eq!(staging_root("/stage").as_deref(), Some("/stage"));
    assert_eq!(staging_root("rel/dir/x").as_deref(), Some("rel"));
    assert_eq!(staging_root("x").as_deref(), Some("x"));
    assert_eq!(staging_root("/"), None);
    assert_eq!(staging_root(""), None);
}

#[test]
fn joined_onto_absolute_base_is_absolute() {
    assert!(path_is_absolute(&join_path("/work", "rel/x")));
    assert!(path_is_absolute(&join_path("/work/", "")));
    assert!(path_is_absolute(&join_path("/work", "/abs")));
}
