//! The `list`, `delete` and `move` commands' choices: which paths a listing is scoped
//! to, which status it filters by, and its title.
use vstd::prelude::*;
use crate::config::Config;
use crate::format::{join_with, joined};
use crate::paths::{join_path, path_join};
use crate::text::{push_str, text_eq, text_of, views};

verus! {

/// The paths, before canonicalisation, that a listing is scoped to: none with
/// `--all` (no scope: every path), else the `--path` arguments taken from the working
/// directory, else the configuration's scan paths taken from its directory.
pub fn scope_candidates(
    all: bool,
    cli_paths: &Vec<String>,
    cwd: &str,
    config: &Config,
    config_dir: &str,
) -> (r: Vec<String>)
    ensures
        all ==> r@.len() == 0,
        !all && cli_paths@.len() > 0 ==> views(r@) == views(cli_paths@).map_values(
            |p: Seq<char>| path_join(cwd@, p),
        ),
        !all && cli_paths@.len() == 0 ==> views(r@) == views(config.scan_paths@).map_values(
            |p: Seq<char>| path_join(config_dir@, p),
        ),
{
    if all {
        return Vec::new();
    }
    if cli_paths.len() > 0 {
        let mut r: Vec<String> = Vec::new();
        let mut i: usize = 0;
        while i < cli_paths.len()
            invariant
                i <= cli_paths.len(),
                r@.len() == i,
                forall|j: int| 0 <= j < i ==> (#[trigger] r@[j])@ == path_join(cwd@, cli_paths@[j]@),
            decreases cli_paths.len() - i,
        {
            r.push(join_path(cwd, cli_paths[i].as_str()));
            i = i + 1;
        }
        assert(views(r@) =~= views(cli_paths@).map_values(|p: Seq<char>| path_join(cwd@, p)));
        r
    } else {
        let r = config.resolve_scan_paths(config_dir);
        assert(views(r@) =~= views(config.scan_paths@).map_values(
            |p: Seq<char>| path_join(config_dir@, p),
        ));
        r
    }
}

/// The status a listing filters by: none for `all`, else the status named.
pub fn status_filter(status: &str) -> (r: Option<String>)
    ensures
        status@ == "all"@ ==> r is None,
        status@ != "all"@ ==> (r matches Some(s) && s@ == status@),
{
    if text_eq(status, "all") {
        None
    } else {
        Some(text_of(status))
    }
}

/// What the title says of a listing's scope.
pub open spec fn scope_label_text(all: bool, filter_paths: Seq<Seq<char>>, prefixes: Seq<Seq<char>>) -> Seq<char> {
    if all {
        " (all paths)"@
    } else if filter_paths.len() > 0 {
        " ("@ + joined(filter_paths, ", "@) + ")"@
    } else {
        " ("@ + joined(prefixes, ", "@) + ")"@
    }
}

/// What the title says of a listing's scope: all paths, the `--path` arguments as given,
/// or the prefixes it is scoped to.
pub fn scope_label(all: bool, filter_paths: &Vec<String>, prefixes: &Vec<String>) -> (r: String)
    ensures
        r@ == scope_label_text(all, views(filter_paths@), views(prefixes@)),
{
    if all {
        return text_of(" (all paths)");
    }
    let mut r = text_of(" (");
    let j = if filter_paths.len() > 0 {
        join_with(filter_paths, ", ")
    } else {
        join_with(prefixes, ", ")
    };
    push_str(&mut r, j.as_str());
    push_str(&mut r, ")");
    r
}

/// The title of a listing of files with the given status (or `all`).
pub open spec fn list_title_text(status: Seq<char>, scope: Seq<char>) -> Seq<char> {
    if status == "all"@ {
        "All Files"@ + scope
    } else if status == "exists"@ {
        "Existing Files"@ + scope
    } else if status == "deleted"@ {
        "Deleted Files"@ + scope
    } else if status == "missing"@ {
        "Missing Files"@ + scope
    } else {
        "Files (status="@ + status + ")"@ + scope
    }
}

/// The title of a listing of files with the given status (or `all`).
pub fn list_title(status: &str, scope: &str) -> (r: String)
    ensures
        r@ == list_title_text(status@, scope@),
{
    let mut r = if text_eq(status, "all") {
        text_of("All Files")
    } else if text_eq(status, "exists") {
        text_of("Existing Files")
    } else if text_eq(status, "deleted") {
        text_of("Deleted Files")
    } else if text_eq(status, "missing") {
        text_of("Missing Files")
    } else {
        let mut t = text_of("Files (status=");
        push_str(&mut t, status);
        push_str(&mut t, ")");
        t
    };
    push_str(&mut r, scope);
    r
}

} // verus!
