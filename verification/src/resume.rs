//! Resuming an interrupted scan: the lists of scan paths and of completed paths
//! that a scan records (as JSON arrays of strings), and what a resumed scan walks.
use vstd::prelude::*;
use crate::text::{digit_char, text_of, views};

verus! {

/// `serde_json::Error`, the error of the JSON reader and writer, held opaque: the
/// library only tells a failure from a success.
#[verifier::external_type_specification]
#[verifier::external_body]
pub struct ExJsonError(serde_json::Error);

/// A lowercase hexadecimal digit.
pub open spec fn hex_digit(v: nat) -> char {
    if v < 10 {
        digit_char(v)
    } else if v == 10 {
        'a'
    } else if v == 11 {
        'b'
    } else if v == 12 {
        'c'
    } else if v == 13 {
        'd'
    } else if v == 14 {
        'e'
    } else {
        'f'
    }
}

/// How one character stands in a JSON string as `serde_json` writes it: quote and
/// backslash escaped, the named control escapes, other control characters as `\u00xx`.
pub open spec fn json_escape(c: char) -> Seq<char> {
    let u = c as u32;
    if c == '"' {
        seq!['\\', '"']
    } else if c == '\\' {
        seq!['\\', '\\']
    } else if u == 8 {
        seq!['\\', 'b']
    } else if u == 12 {
        seq!['\\', 'f']
    } else if u == 10 {
        seq!['\\', 'n']
    } else if u == 13 {
        seq!['\\', 'r']
    } else if u == 9 {
        seq!['\\', 't']
    } else if u < 32 {
        seq!['\\', 'u', '0', '0', hex_digit((u / 16) as nat), hex_digit((u % 16) as nat)]
    } else {
        seq![c]
    }
}

/// The escaped characters of a string.
pub open spec fn json_escaped(s: Seq<char>) -> Seq<char>
    decreases s.len(),
{
    if s.len() == 0 {
        Seq::<char>::empty()
    } else {
        json_escaped(s.drop_last()) + json_escape(s.last())
    }
}

/// A JSON string.
pub open spec fn json_string(s: Seq<char>) -> Seq<char> {
    seq!['"'] + json_escaped(s) + seq!['"']
}

/// JSON strings separated by commas.
pub open spec fn json_items(items: Seq<Seq<char>>) -> Seq<char>
    decreases items.len(),
{
    if items.len() == 0 {
        Seq::<char>::empty()
    } else if items.len() == 1 {
        json_string(items[0])
    } else {
        json_items(items.drop_last()) + seq![','] + json_string(items.last())
    }
}

/// A JSON array of strings, compact, as `serde_json::to_string` writes a list of strings.
pub open spec fn json_string_list(items: Seq<Seq<char>>) -> Seq<char> {
    seq!['['] + json_items(items) + seq![']']
}

/// The list of strings that `serde_json::from_str` reads from a JSON text, or `None`
/// when the text is not a JSON array of strings.
pub uninterp spec fn json_decode(s: Seq<char>) -> Option<Seq<Seq<char>>>;

/// Writes a list of strings as a compact JSON array with `serde_json::to_string`,
/// which the crate documents to fail only for a `Serialize` impl that fails or a map
/// with keys that are not strings; neither occurs in a list of strings. What it
/// writes is the text that `json_string_list` describes.
#[verifier::external_body]
fn json_encode_strings(items: &Vec<String>) -> (r: Result<String, serde_json::Error>)
    ensures
        match r {
            Ok(s) => s@ == json_string_list(views(items@)),
            Err(_) => false,
        },
{
    serde_json::to_string(items)
}

/// Reads a list of strings from JSON text with `serde_json::from_str`. The outcome
/// is `json_decode` of the text; the compact array that `json_string_list` describes
/// reads back as the list it was written from.
#[verifier::external_body]
fn json_decode_strings(s: &str) -> (r: Result<Vec<String>, serde_json::Error>)
    ensures
        json_decode(s@) == match r {
            Ok(v) => Some(views(v@)),
            Err(_) => None,
        },
        forall|items: Seq<Seq<char>>|
            #[trigger] json_string_list(items) == s@ ==> match r {
                Ok(v) => views(v@) == items,
                Err(_) => false,
            },
{
    serde_json::from_str::<Vec<String>>(s)
}

/// A recorded path list that is not a JSON array of strings.
#[derive(Debug, Clone, Copy, PartialEq, Eq, Structural)]
pub enum PathListError {
    /// The text could not be read as a JSON array of strings.
    Malformed,
}

/// Writes a path list as the JSON array that a scan records.
pub fn encode_paths(paths: &Vec<String>) -> (s: String)
    ensures
        s@ == json_string_list(views(paths@)),
{
    match json_encode_strings(paths) {
        Ok(s) => s,
        // The encoder does not fail on a list of strings.
        Err(_) => String::new(),
    }
}

/// Reads a path list from the JSON array that a scan recorded.
pub fn decode_paths(text: &str) -> (r: Result<Vec<String>, PathListError>)
    ensures
        r matches Ok(v) ==> json_decode(text@) == Some(views(v@)),
        r is Err ==> json_decode(text@) is None,
        forall|items: Seq<Seq<char>>|
            #[trigger] json_string_list(items) == text@ ==> (r matches Ok(v) && views(v@)
                == items),
{
    match json_decode_strings(text) {
        Ok(v) => Ok(v),
        Err(_) => Err(PathListError::Malformed),
    }
}

/// `done` with `path` added at the end unless it is there already.
pub open spec fn add_unique(done: Seq<Seq<char>>, path: Seq<char>) -> Seq<Seq<char>> {
    if done.contains(path) {
        done
    } else {
        done.push(path)
    }
}

/// The paths of `all` that `done` does not hold, in their order.
pub open spec fn remaining(all: Seq<Seq<char>>, done: Seq<Seq<char>>) -> Seq<Seq<char>> {
    all.filter(|p: Seq<char>| !done.contains(p))
}

/// Whether `path` is among `list`.
pub fn contains_path(list: &Vec<String>, path: &str) -> (b: bool)
    ensures
        b == views(list@).contains(path@),
{
    let mut i: usize = 0;
    while i < list.len()
        invariant
            i <= list.len(),
            forall|j: int| 0 <= j < i ==> (#[trigger] list@[j])@ != path@,
        decreases list.len() - i,
    {
        if crate::text::text_eq(list[i].as_str(), path) {
            assert(views(list@)[i as int] == path@);
            return true;
        }
        i = i + 1;
    }
    proof {
        if views(list@).contains(path@) {
            let k = choose|k: int| 0 <= k < views(list@).len() && views(list@)[k] == path@;
            assert(list@[k]@ == path@);
        }
    }
    false
}

/// `done` with `path` recorded as completed: added at the end unless it is there already.
pub fn add_completed(done: Vec<String>, path: &str) -> (r: Vec<String>)
    ensures
        views(r@) == add_unique(views(done@), path@),
{
    let mut done = done;
    if !contains_path(&done, path) {
        let ghost before = done@;
        done.push(text_of(path));
        assert(views(done@) =~= views(before).push(path@));
    }
    done
}

/// The completed-paths list that follows from the recorded one (`None` when none could
/// be read from the database) once `path` is done: the recorded list, or an empty one
/// where the text is not a path list, with `path` added unless it is there already.
pub fn record_completed(current: Option<&str>, path: &str) -> (s: String)
    ensures
        s@ == json_string_list(
            add_unique(
                match current {
                    Some(c) => match json_decode(c@) {
                        Some(v) => v,
                        None => Seq::<Seq<char>>::empty(),
                    },
                    None => Seq::<Seq<char>>::empty(),
                },
                path@,
            ),
        ),
{
    let done: Vec<String> = match current {
        Some(c) => match decode_paths(c) {
            Ok(v) => v,
            Err(_) => Vec::new(),
        },
        None => Vec::new(),
    };
    let updated = add_completed(done, path);
    encode_paths(&updated)
}

/// The paths of `all` that `done` does not hold, in their order.
pub fn remaining_paths(all: &Vec<String>, done: &Vec<String>) -> (r: Vec<String>)
    ensures
        views(r@) == remaining(views(all@), views(done@)),
{
    let ghost pred = |p: Seq<char>| !views(done@).contains(p);
    let mut r: Vec<String> = Vec::new();
    let mut i: usize = 0;
    while i < all.len()
        invariant
            i <= all.len(),
            pred == (|p: Seq<char>| !views(done@).contains(p)),
            views(r@) == views(all@).take(i as int).filter(pred),
        decreases all.len() - i,
    {
        let ghost prev = views(all@).take(i as int);
        assert(views(all@).take(i + 1) =~= prev.push(views(all@)[i as int]));
        proof {
            reveal_with_fuel(Seq::<_>::filter, 1);
            assert(prev.push(views(all@)[i as int]).drop_last() =~= prev);
        }
        if !contains_path(done, all[i].as_str()) {
            let ghost before = r@;
            r.push(text_of(all[i].as_str()));
            assert(views(r@) =~= views(before).push(all@[i as int]@));
        }
        i = i + 1;
    }
    assert(views(all@).take(all.len() as int) =~= views(all@));
    r
}

/// The scan that was interrupted last, as the database recorded it.
pub struct InterruptedScan {
    pub id: i64,
    /// The JSON array of its scan paths.
    pub scan_paths: String,
    /// The JSON array of the paths it finished.
    pub completed_paths: String,
}

/// Why a scan starts afresh.
#[derive(Debug, Clone, Copy, PartialEq, Eq, Structural)]
pub enum FreshReason {
    /// No resume was asked for.
    NotRequested,
    /// No scan was interrupted.
    NothingInterrupted,
    /// The interrupted scan had finished all its paths.
    AlreadyComplete { scan_id: i64 },
}

/// What a scan walks.
pub enum ResumePlan {
    /// Continue the interrupted scan over its paths that are not done yet.
    Continue { scan_id: i64, remaining: Vec<String>, total: usize },
    /// Start a new scan over the configured paths.
    Fresh { reason: FreshReason },
}

/// The plan for an interrupted scan with the given path lists.
pub fn plan_from_lists(scan_id: i64, all: &Vec<String>, done: &Vec<String>) -> (r: ResumePlan)
    ensures
        remaining(views(all@), views(done@)).len() == 0 ==> r == (ResumePlan::Fresh {
            reason: FreshReason::AlreadyComplete { scan_id },
        }),
        remaining(views(all@), views(done@)).len() > 0 ==> (r matches ResumePlan::Continue {
            scan_id: id,
            remaining: rest,
            total,
        } && id == scan_id && views(rest@) == remaining(views(all@), views(done@)) && total
            == all@.len()),
{
    let rest = remaining_paths(all, done);
    if rest.len() == 0 {
        ResumePlan::Fresh { reason: FreshReason::AlreadyComplete { scan_id } }
    } else {
        ResumePlan::Continue { scan_id, remaining: rest, total: all.len() }
    }
}

/// What a scan walks: with `resume` and an interrupted scan, the paths of that scan that
/// it did not finish; otherwise (or when it finished them all) a fresh scan. A recorded
/// list that is not a JSON array of strings is an error.
pub fn plan_resume(resume: bool, prev: Option<InterruptedScan>) -> (r: Result<
    ResumePlan,
    PathListError,
>)
    ensures
        !resume ==> r == Ok::<ResumePlan, PathListError>(
            ResumePlan::Fresh { reason: FreshReason::NotRequested },
        ),
        resume && prev is None ==> r == Ok::<ResumePlan, PathListError>(
            ResumePlan::Fresh { reason: FreshReason::NothingInterrupted },
        ),
        resume ==> (prev matches Some(p) ==> match (
            json_decode(p.scan_paths@),
            json_decode(p.completed_paths@),
        ) {
            (Some(all), Some(done)) => {
                &&& remaining(all, done).len() == 0 ==> r == Ok::<ResumePlan, PathListError>(
                    ResumePlan::Fresh { reason: FreshReason::AlreadyComplete { scan_id: p.id } },
                )
                &&& remaining(all, done).len() > 0 ==> (r matches Ok(ResumePlan::Continue {
                    scan_id: id,
                    remaining: rest,
                    total,
                }) && id == p.id && views(rest@) == remaining(all, done) && total == all.len())
            },
            _ => r is Err,
        }),
{
    if !resume {
        return Ok(ResumePlan::Fresh { reason: FreshReason::NotRequested });
    }
    match prev {
        None => Ok(ResumePlan::Fresh { reason: FreshReason::NothingInterrupted }),
        Some(p) => {
            let all = match decode_paths(p.scan_paths.as_str()) {
                Ok(v) => v,
                Err(e) => {
                    return Err(e);
                },
            };
            let done = match decode_paths(p.completed_paths.as_str()) {
                Ok(v) => v,
                Err(e) => {
                    return Err(e);
                },
            };
            Ok(plan_from_lists(p.id, &all, &done))
        },
    }
}

// ─── Laws ──────────────────────────────────────────────────

/// A path recorded as completed is not walked again when the scan resumes.
pub proof fn law_completed_path_skipped(all: Seq<Seq<char>>, done: Seq<Seq<char>>, path: Seq<char>)
    ensures
        !remaining(all, add_unique(done, path)).contains(path),
{
    let d2 = add_unique(done, path);
    assert(d2.contains(path)) by {
        if !done.contains(path) {
            assert(done.push(path)[done.len() as int] == path);
        }
    }
    let pred = |p: Seq<char>| !d2.contains(p);
    if remaining(all, d2).contains(path) {
        let k = choose|k: int| 0 <= k < remaining(all, d2).len() && remaining(all, d2)[k] == path;
        all.lemma_filter_pred(pred, k);
    }
}

/// Every path of the scan that is not recorded as completed is walked when it resumes,
/// and only those: resuming neither skips unfinished paths nor walks finished ones.
pub proof fn law_resume_walks_unfinished(all: Seq<Seq<char>>, done: Seq<Seq<char>>, path: Seq<char>)
    ensures
        remaining(all, done).contains(path) <==> (all.contains(path) && !done.contains(path)),
{
    let pred = |p: Seq<char>| !done.contains(p);
    if all.contains(path) && !done.contains(path) {
        let k = choose|k: int| 0 <= k < all.len() && all[k] == path;
        all.lemma_filter_contains(pred, k);
    }
    if remaining(all, done).contains(path) {
        let k = choose|k: int| 0 <= k < remaining(all, done).len() && remaining(all, done)[k] == path;
        all.lemma_filter_pred(pred, k);
        all.lemma_filter_contains_rev(pred, path);
    }
}

/// Recording a path as completed twice is the same as recording it once.
pub proof fn law_record_idempotent(done: Seq<Seq<char>>, path: Seq<char>)
    ensures
        add_unique(add_unique(done, path), path) == add_unique(done, path),
{
    if !done.contains(path) {
        assert(done.push(path)[done.len() as int] == path);
    }
}

/// Once every path of a scan is recorded as completed, nothing remains to resume.
pub proof fn law_all_done_nothing_remains(all: Seq<Seq<char>>, done: Seq<Seq<char>>)
    requires
        forall|p: Seq<char>| all.contains(p) ==> done.contains(p),
    ensures
        remaining(all, done).len() == 0,
{
    let pred = |p: Seq<char>| !done.contains(p);
    if remaining(all, done).len() > 0 {
        let x = remaining(all, done)[0];
        all.lemma_filter_pred(pred, 0);
        assert(remaining(all, done).contains(x));
        all.lemma_filter_contains_rev(pred, x);
        assert(done.contains(x));
    }
}

} // verus!
