//! The SQL that selects the biggest files in a scope and that marks vanished files
//! as missing, with the values bound to its placeholders.
use vstd::prelude::*;
use crate::paths::{normalize_prefixes, scope_prefix};
use crate::format::joined;
use crate::text::{decimal, push_decimal, push_str, text_of, views};

verus! {

/// One path-prefix condition, for placeholder `idx`: the path begins with the bound
/// text, compared character for character (no wildcards, letter case kept).
pub open spec fn prefix_clause(idx: nat) -> Seq<char> {
    "substr(path, 1, length(?"@ + decimal(idx) + ")) = ?"@ + decimal(idx)
}

/// `n` path-prefix conditions joined by `OR`, for placeholders `start`, `start + 1`, ...
pub open spec fn prefix_clauses(start: nat, n: nat) -> Seq<char>
    decreases n,
{
    if n == 0 {
        Seq::<char>::empty()
    } else if n == 1 {
        prefix_clause(start)
    } else {
        prefix_clauses(start, (n - 1) as nat) + " OR "@ + prefix_clause((start + n - 1) as nat)
    }
}

/// The columns and table of a file query, up to the place of its `WHERE` clause.
pub open spec fn select_head() -> Seq<char> {
    "SELECT path, size, status, first_seen_at, last_seen_at, deleted_at, times_seen, last_scan_id, moved_to
             FROM files "@
}

/// The `WHERE` clause of a file query: an optional status condition (placeholder 1)
/// and, when there are prefixes, one path-prefix condition per prefix.
pub open spec fn top_files_where(has_status: bool, n: nat) -> Seq<char> {
    let status_cond = "status = ?1"@;
    let path_cond = "("@ + prefix_clauses(if has_status { 2 } else { 1 }, n) + ")"@;
    if has_status && n > 0 {
        "WHERE "@ + status_cond + " AND "@ + path_cond
    } else if has_status {
        "WHERE "@ + status_cond
    } else if n > 0 {
        "WHERE "@ + path_cond
    } else {
        Seq::<char>::empty()
    }
}

/// The number of text values bound before the limit.
pub open spec fn bind_count(has_status: bool, n: nat) -> nat {
    (if has_status { 1nat } else { 0nat }) + n
}

/// The whole file query: biggest first, limited by the last placeholder.
pub open spec fn top_files_sql(has_status: bool, n: nat) -> Seq<char> {
    select_head() + top_files_where(has_status, n) + " ORDER BY size DESC LIMIT ?"@ + decimal(
        bind_count(has_status, n) + 1,
    )
}

/// The update that marks files missing under `n` prefixes (placeholders 3 onwards).
pub open spec fn missing_sql(n: nat) -> Seq<char> {
    "UPDATE files SET status = 'missing'
             WHERE status = 'exists' AND last_scan_id != ?1 AND size >= ?2 AND ("@
        + prefix_clauses(3, n) + ")"@
}

/// A query for the biggest files, with its text values and its limit.
pub struct TopFilesQuery {
    /// The SQL text.
    pub sql: String,
    /// The text values for placeholders 1, 2, ...: the status, then the scope prefixes.
    pub binds: Vec<String>,
    /// The value for the last placeholder.
    pub limit: i64,
}

/// An update that marks vanished files missing, with its values.
pub struct MissingQuery {
    /// The SQL text.
    pub sql: String,
    /// The value for placeholder 1: files last seen in this scan stay.
    pub scan_id: i64,
    /// The value for placeholder 2: smaller files were not looked for.
    pub min_size: i64,
    /// The values for placeholders 3, 4, ...: the scope prefixes.
    pub prefixes: Vec<String>,
}

/// Appends the `n` path-prefix conditions for placeholders `start`, `start + 1`, ...
fn push_prefix_clauses(out: &mut String, start: u64, n: usize)
    requires
        start + n <= u64::MAX,
    ensures
        final(out)@ == old(out)@ + prefix_clauses(start as nat, n as nat),
{
    let ghost base = out@;
    let mut i: usize = 0;
    assert(base + prefix_clauses(start as nat, 0) =~= base);
    while i < n
        invariant
            i <= n,
            start + n <= u64::MAX,
            out@ == base + prefix_clauses(start as nat, i as nat),
        decreases n - i,
    {
        let ghost before = out@;
        if i > 0 {
            push_str(out, " OR ");
        }
        push_str(out, "substr(path, 1, length(?");
        push_decimal(start + i as u64, out);
        push_str(out, ")) = ?");
        push_decimal(start + i as u64, out);
        proof {
            if i == 0 {
                assert(out@ =~= base + prefix_clauses(start as nat, 1));
            } else {
                assert(prefix_clauses(start as nat, (i + 1) as nat) == prefix_clauses(start as nat, i as nat)
                    + " OR "@ + prefix_clause((start + i) as nat));
                assert(out@ =~= base + prefix_clauses(start as nat, (i + 1) as nat));
            }
        }
        i = i + 1;
    }
}

/// The query for the `limit` biggest files, with the given status when one is given,
/// under any of the given path prefixes when there are any (no prefixes: all paths).
/// Each prefix is bound with a trailing separator.
pub fn top_files_query(limit: usize, status: Option<&str>, prefixes: &Vec<String>) -> (q:
    TopFilesQuery)
    requires
        prefixes@.len() + 2 <= u64::MAX,
    ensures
        q.sql@ == top_files_sql(status is Some, prefixes@.len()),
        views(q.binds@) == match status {
            Some(s) => seq![s@] + prefixes@.map_values(|p: String| scope_prefix(p@)),
            None => prefixes@.map_values(|p: String| scope_prefix(p@)),
        },
        q.binds@.len() == bind_count(status is Some, prefixes@.len()),
        q.limit == limit as i64,
{
    let n = prefixes.len();
    let has_status = status.is_some();
    let mut sql = String::new();
    push_str(&mut sql, "SELECT path, size, status, first_seen_at, last_seen_at, deleted_at, times_seen, last_scan_id, moved_to
             FROM files ");
    let ghost head = sql@;
    assert(head =~= select_head());
    if has_status || n > 0 {
        push_str(&mut sql, "WHERE ");
    }
    if has_status {
        push_str(&mut sql, "status = ?1");
    }
    if has_status && n > 0 {
        push_str(&mut sql, " AND ");
    }
    if n > 0 {
        push_str(&mut sql, "(");
        push_prefix_clauses(&mut sql, if has_status { 2 } else { 1 }, n);
        push_str(&mut sql, ")");
    }
    assert(sql@ =~= head + top_files_where(has_status, n as nat));
    push_str(&mut sql, " ORDER BY size DESC LIMIT ?");
    let count: u64 = if has_status { 1 + n as u64 } else { n as u64 };
    push_decimal(count + 1, &mut sql);
    assert(sql@ =~= top_files_sql(has_status, n as nat));
    let normalized = normalize_prefixes(prefixes);
    let mut binds: Vec<String> = Vec::new();
    match status {
        Some(s) => binds.push(text_of(s)),
        None => {},
    }
    let ghost first = binds@;
    let mut i: usize = 0;
    while i < n
        invariant
            i <= n,
            n == prefixes@.len(),
            normalized@.len() == n,
            forall|j: int| 0 <= j < n ==> (#[trigger] normalized@[j])@ == scope_prefix(prefixes@[j]@),
            binds@.len() == first.len() + i,
            binds@.subrange(0, first.len() as int) == first,
            forall|j: int| 0 <= j < i ==> (#[trigger] binds@[first.len() + j])@ == scope_prefix(prefixes@[j]@),
        decreases n - i,
    {
        binds.push(normalized[i].clone());
        i = i + 1;
        assert(binds@.subrange(0, first.len() as int) =~= first);
    }
    proof {
        let expected = match status {
            Some(s) => seq![s@] + prefixes@.map_values(|p: String| scope_prefix(p@)),
            None => prefixes@.map_values(|p: String| scope_prefix(p@)),
        };
        assert forall|j: int| 0 <= j < binds@.len() implies (#[trigger] views(binds@)[j]) == expected[j] by {
            if j < first.len() {
                assert(binds@[j] == binds@.subrange(0, first.len() as int)[j]);
            } else {
                assert(binds@[first.len() + (j - first.len())] == binds@[j]);
            }
        }
        assert(views(binds@) =~= expected);
    }
    TopFilesQuery { sql, binds, limit: limit as i64 }
}

/// The update that marks missing the files that a completed scan of `scanned_paths`
/// did not see, or `None` when no path was scanned (nothing is marked then).
pub fn missing_query(scan_id: i64, scanned_paths: &Vec<String>, min_size_bytes: u64) -> (r: Option<
    MissingQuery,
>)
    requires
        scanned_paths@.len() + 3 <= u64::MAX,
    ensures
        scanned_paths@.len() == 0 <==> r is None,
        r matches Some(q) ==> {
            &&& q.sql@ == missing_sql(scanned_paths@.len())
            &&& q.scan_id == scan_id
            &&& q.min_size == min_size_bytes as i64
            &&& views(q.prefixes@) == scanned_paths@.map_values(|p: String| scope_prefix(p@))
        },
{
    let n = scanned_paths.len();
    if n == 0 {
        return None;
    }
    let mut sql = String::new();
    push_str(&mut sql, "UPDATE files SET status = 'missing'
             WHERE status = 'exists' AND last_scan_id != ?1 AND size >= ?2 AND (");
    push_prefix_clauses(&mut sql, 3, n);
    push_str(&mut sql, ")");
    assert(sql@ =~= missing_sql(n as nat));
    let prefixes = normalize_prefixes(scanned_paths);
    assert(views(prefixes@) =~= scanned_paths@.map_values(|p: String| scope_prefix(p@)));
    Some(MissingQuery { sql, scan_id, min_size: min_size_bytes as i64, prefixes })
}

/// Every placeholder of a file query has a value: the binds take placeholders 1 to
/// `bind_count`, and the limit takes the one after them, which the text names last.
pub proof fn law_limit_placeholder_follows_binds(has_status: bool, n: nat)
    ensures
        top_files_sql(has_status, n).skip(
            top_files_sql(has_status, n).len() - decimal(bind_count(has_status, n) + 1).len(),
        ) == decimal(bind_count(has_status, n) + 1),
{
    let s = top_files_sql(has_status, n);
    let d = decimal(bind_count(has_status, n) + 1);
    assert(s.skip(s.len() - d.len()) =~= d);
}

/// With no prefixes and no status the file query has no `WHERE` clause: it ranks every file.
pub proof fn law_no_scope_no_filter()
    ensures
        top_files_sql(false, 0) == select_head() + " ORDER BY size DESC LIMIT ?"@ + decimal(1),
{
    assert(select_head() + Seq::<char>::empty() =~= select_head());
}

/// The conditions that scope a query to `n` prefixes bound at placeholders `start`,
/// `start + 1`, ...: one for each, each saying that the path begins with its prefix.
pub open spec fn prefix_conditions(start: nat, n: nat) -> Seq<Seq<char>> {
    Seq::new(
        n,
        |i: int|
            "substr(path, 1, length(?"@ + decimal((start + i) as nat) + ")) = ?"@ + decimal(
                (start + i) as nat,
            ),
    )
}

/// Every scope prefix has its own condition: the conditions for placeholders `start`
/// to `start + n - 1`, in order, joined by `OR`.
pub proof fn law_each_prefix_has_condition(start: nat, n: nat)
    ensures
        prefix_clauses(start, n) == joined(prefix_conditions(start, n), " OR "@),
    decreases n,
{
    let c = prefix_conditions(start, n);
    if n == 1 {
        assert(c[0] == prefix_clause(start));
    } else if n > 1 {
        law_each_prefix_has_condition(start, (n - 1) as nat);
        assert(c.drop_last() =~= prefix_conditions(start, (n - 1) as nat));
        assert(c.last() == prefix_clause((start + n - 1) as nat));
    } else {
        assert(c =~= Seq::<Seq<char>>::empty());
    }
}

/// The file query under `n > 0` prefixes selects, after the optional status
/// condition, the rows that satisfy the condition of any one of the prefixes.
pub proof fn law_top_files_scope(has_status: bool, n: nat)
    requires
        n > 0,
    ensures
        top_files_sql(has_status, n) == select_head() + "WHERE "@ + (if has_status {
            "status = ?1 AND "@
        } else {
            Seq::<char>::empty()
        }) + "("@ + joined(prefix_conditions(if has_status { 2 } else { 1 }, n), " OR "@) + ")"@
            + " ORDER BY size DESC LIMIT ?"@ + decimal(bind_count(has_status, n) + 1),
{
    law_each_prefix_has_condition(if has_status { 2 } else { 1 }, n);
    reveal_strlit("status = ?1");
    reveal_strlit(" AND ");
    reveal_strlit("status = ?1 AND ");
    reveal_strlit("WHERE ");
    assert("status = ?1"@ + " AND "@ =~= "status = ?1 AND "@);
    let p = "("@ + joined(prefix_conditions(if has_status { 2 } else { 1 }, n), " OR "@) + ")"@;
    if has_status {
        assert(top_files_where(true, n) =~= "WHERE "@ + "status = ?1 AND "@ + p);
    } else {
        assert(top_files_where(false, n) =~= "WHERE "@ + Seq::<char>::empty() + p);
    }
}

/// The update that marks files missing under `n` scanned paths touches the rows that
/// satisfy the condition of any one of them (placeholders 3 onwards).
pub proof fn law_missing_scope(n: nat)
    ensures
        missing_sql(n) == "UPDATE files SET status = 'missing'
             WHERE status = 'exists' AND last_scan_id != ?1 AND size >= ?2 AND ("@ + joined(
            prefix_conditions(3, n),
            " OR "@,
        ) + ")"@,
{
    law_each_prefix_has_condition(3, n);
}

} // verus!
