//! Staging files in a review folder and bringing them back: which files an
//! extension filter lets through, where a staged file goes, which folders hold one
//! extension each, and in what order they are offered.
use vstd::prelude::*;
use crate::paths::{join_path, name_part, path_join};
use crate::status::FileRow;
use crate::text::{
    chars_of, decimal, decimal_text, ends_with, push_chars, push_str, string_of, text_ends_with,
    text_of, views,
};

verus! {

// ─── Extension filters ─────────────────────────────────────

/// `s` with each ASCII capital letter in lower case.
pub open spec fn ascii_lower(s: Seq<char>) -> Seq<char> {
    s.map_values(|c: char| if 65 <= c as u32 <= 90 { ((c as u32) + 32) as char } else { c })
}

/// Every character is ASCII.
pub open spec fn all_ascii(s: Seq<char>) -> bool {
    forall|i: int| 0 <= i < s.len() ==> (#[trigger] s[i]) as u32 <= 127
}

/// The text that `str::to_lowercase` gives (Unicode lower case).
pub uninterp spec fn lowercase(s: Seq<char>) -> Seq<char>;

/// `str::to_lowercase`. Its documentation defines it by Unicode's lower-case mapping,
/// which takes the ASCII capitals to their small letters and leaves other ASCII alone.
#[verifier::external_body]
fn to_lowercase(s: &str) -> (r: String)
    ensures
        r@ == lowercase(s@),
        all_ascii(s@) ==> r@ == ascii_lower(s@),
{
    s.to_lowercase()
}

/// The path ends with a dot and one of the extensions.
pub open spec fn has_ext(path: Seq<char>, exts: Seq<Seq<char>>) -> bool {
    exists|i: int| 0 <= i < exts.len() && #[trigger] ends_with(path, "."@ + exts[i])
}

/// A lower-cased path passes the filters: it has one of the wanted extensions (when
/// any are wanted) and none of the excluded ones.
pub open spec fn passes_ext_filter(lower_path: Seq<char>, filters: Seq<Seq<char>>, excludes: Seq<Seq<char>>) -> bool {
    (filters.len() == 0 || has_ext(lower_path, filters)) && !has_ext(lower_path, excludes)
}

/// Whether the path ends with a dot and one of the extensions.
pub fn path_has_ext(path: &str, exts: &Vec<String>) -> (b: bool)
    ensures
        b == has_ext(path@, views(exts@)),
{
    let pv = chars_of(path);
    let mut i: usize = 0;
    while i < exts.len()
        invariant
            i <= exts.len(),
            pv@ == path@,
            forall|j: int| 0 <= j < i ==> !ends_with(path@, "."@ + (#[trigger] exts@[j])@),
        decreases exts.len() - i,
    {
        let mut e = text_of(".");
        push_str(&mut e, exts[i].as_str());
        let ev = chars_of(e.as_str());
        if text_ends_with(&pv, &ev) {
            assert(views(exts@)[i as int] == exts@[i as int]@);
            return true;
        }
        i = i + 1;
    }
    proof {
        if has_ext(path@, views(exts@)) {
            let k = choose|k: int| 0 <= k < views(exts@).len() && #[trigger] ends_with(path@, "."@ + views(exts@)[k]);
            assert(views(exts@)[k] == exts@[k]@);
        }
    }
    false
}

/// Whether an already lower-cased path passes the extension filters.
pub fn passes_filter_lowered(lower_path: &str, filter_exts: &Vec<String>, exclude_exts: &Vec<String>) -> (b: bool)
    ensures
        b == passes_ext_filter(lower_path@, views(filter_exts@), views(exclude_exts@)),
{
    if filter_exts.len() > 0 && !path_has_ext(lower_path, filter_exts) {
        return false;
    }
    if exclude_exts.len() > 0 && path_has_ext(lower_path, exclude_exts) {
        return false;
    }
    proof {
        if exclude_exts.len() == 0 {
            assert(!has_ext(lower_path@, views(exclude_exts@)));
        }
    }
    true
}

/// Whether the path passes the extension filters, compared in lower case: with wanted
/// extensions it must end in one of them, and it must end in none of the excluded ones.
pub fn filter_by_ext(path: &str, filter_exts: &Vec<String>, exclude_exts: &Vec<String>) -> (b: bool)
    ensures
        b == passes_ext_filter(lowercase(path@), views(filter_exts@), views(exclude_exts@)),
{
    let lower = to_lowercase(path);
    passes_filter_lowered(lower.as_str(), filter_exts, exclude_exts)
}

/// The rows whose paths pass the extension filters, in their order.
pub fn filter_rows_by_ext(rows: Vec<FileRow>, filter_exts: &Vec<String>, exclude_exts: &Vec<String>) -> (r: Vec<FileRow>)
    ensures
        r@ == rows@.filter(
            |f: FileRow| passes_ext_filter(lowercase(f.path@), views(filter_exts@), views(exclude_exts@)),
        ),
{
    let ghost orig = rows@;
    let ghost pred = |f: FileRow| passes_ext_filter(lowercase(f.path@), views(filter_exts@), views(exclude_exts@));
    let mut rest = rows;
    let mut kept: Vec<FileRow> = Vec::new();
    let mut k: usize = 0;
    let n = rest.len();
    while rest.len() > 0
        invariant
            n == orig.len(),
            k + rest@.len() == n,
            rest@ == orig.skip(k as int),
            kept@ == orig.take(k as int).filter(pred),
            pred == (|f: FileRow| passes_ext_filter(lowercase(f.path@), views(filter_exts@), views(exclude_exts@))),
        decreases rest.len(),
    {
        let f = rest.remove(0);
        assert(f == orig[k as int]);
        proof {
            reveal_with_fuel(Seq::<_>::filter, 1);
            assert(orig.take(k + 1).drop_last() =~= orig.take(k as int));
            assert(orig.take(k + 1).last() == orig[k as int]);
        }
        let keep = filter_by_ext(f.path.as_str(), filter_exts, exclude_exts);
        if keep {
            kept.push(f);
        }
        k = k + 1;
        assert(rest@ =~= orig.skip(k as int));
    }
    assert(orig.take(n as int) =~= orig);
    kept
}

// ─── Where a staged file goes ──────────────────────────────

/// The path without one leading separator.
pub open spec fn without_leading_slash(p: Seq<char>) -> Seq<char> {
    if p.len() > 0 && p[0] == '/' {
        p.drop_first()
    } else {
        p
    }
}

/// Where a file goes when staged under `dest` with its directory structure kept:
/// its whole path, less one leading separator, taken from `dest`.
pub fn staged_path(file_path: &str, dest: &str) -> (r: String)
    ensures
        r@ == path_join(dest@, without_leading_slash(file_path@)),
{
    let v = chars_of(file_path);
    if v.len() > 0 && v[0] == '/' {
        let mut rel: Vec<char> = Vec::new();
        let mut i: usize = 1;
        while i < v.len()
            invariant
                1 <= i <= v.len(),
                rel@ == v@.subrange(1, i as int),
            decreases v.len() - i,
        {
            rel.push(v[i]);
            i = i + 1;
            assert(rel@ =~= v@.subrange(1, i as int));
        }
        assert(rel@ =~= v@.drop_first());
        let rs = string_of(&rel);
        join_path(dest, rs.as_str())
    } else {
        join_path(dest, file_path)
    }
}

/// The path without trailing separators and trailing `.` components, which
/// `Path::file_name` passes over.
pub open spec fn trim_tail(p: Seq<char>) -> Seq<char>
    decreases p.len(),
{
    if p.len() > 0 && p.last() == '/' {
        trim_tail(p.drop_last())
    } else if p == seq!['.'] {
        Seq::<char>::empty()
    } else if p.len() >= 2 && p.last() == '.' && p[p.len() - 2] == '/' {
        trim_tail(p.drop_last())
    } else {
        p
    }
}

/// The final component of a path, as `Path::file_name` gives it: `None` when the
/// path ends at the root, at `.` or at `..`.
pub open spec fn file_name_of(p: Seq<char>) -> Option<Seq<char>> {
    let n = name_part(trim_tail(p));
    if n.len() == 0 || n == seq!['.', '.'] {
        None
    } else {
        Some(n)
    }
}

/// The index of the last dot in `s`, or -1.
pub open spec fn last_dot(s: Seq<char>) -> int
    decreases s.len(),
{
    if s.len() == 0 {
        -1
    } else if s.last() == '.' {
        s.len() - 1
    } else {
        last_dot(s.drop_last())
    }
}

/// The stem and the extension of a file name, as `Path::file_stem` and
/// `Path::extension` split it: at the last dot, unless that dot begins the name.
pub open spec fn stem_and_ext(name: Seq<char>) -> (Seq<char>, Option<Seq<char>>) {
    let d = last_dot(name);
    if d <= 0 {
        (name, None)
    } else {
        (name.take(d), Some(name.skip(d + 1)))
    }
}

/// The folder, in organised staging, for files of an extension: `__<ext>__`.
pub open spec fn ext_folder_name(ext: Seq<char>) -> Seq<char> {
    "__"@ + ext + "__"@
}

/// The `counter`-th place, in organised staging under `dest`, for a file whose name,
/// stem and lower-cased extension (or `noext`) are given: the name itself first, then
/// `<stem>_<counter>.<ext>` while earlier places are taken.
pub open spec fn organized_place(dest: Seq<char>, name: Seq<char>, stem: Seq<char>, ext: Seq<char>, counter: nat) -> Seq<char> {
    let folder = path_join(dest, ext_folder_name(ext));
    if counter == 0 {
        path_join(folder, name)
    } else {
        path_join(folder, stem + "_"@ + decimal(counter) + "."@ + ext)
    }
}

/// The parts of a file path that organised staging names it by.
pub struct OrganizedName {
    /// The final component, or `unknown`.
    pub name: String,
    /// The stem, or `unknown`.
    pub stem: String,
    /// The extension in lower case, or `noext`.
    pub ext: String,
}

fn last_slash_index(v: &[char], hi: usize) -> (r: usize)
    requires
        hi <= v.len(),
    ensures
        r <= hi,
        r == (crate::paths::last_slash(v@.take(hi as int)) + 1),
{
    let mut k = hi;
    assert(v@.take(hi as int) =~= v@.take(hi as int).take(k as int));
    while k > 0 && v[k - 1] != '/'
        invariant
            k <= hi <= v.len(),
            crate::paths::last_slash(v@.take(hi as int)) == crate::paths::last_slash(v@.take(k as int)),
        decreases k,
    {
        assert(v@.take(k as int).drop_last() =~= v@.take(k - 1));
        k = k - 1;
    }
    if k > 0 {
        assert(v@.take(k as int).last() == '/');
    }
    k
}

fn trim_tail_len(v: &[char]) -> (n: usize)
    ensures
        n <= v.len(),
        v@.take(n as int) == trim_tail(v@),
{
    let mut n = v.len();
    assert(v@.take(n as int) =~= v@);
    loop
        invariant
            n <= v.len(),
            trim_tail(v@) == trim_tail(v@.take(n as int)),
        decreases n,
    {
        let ghost t = v@.take(n as int);
        if n > 0 && v[n - 1] == '/' {
            assert(t.drop_last() =~= v@.take(n - 1));
            n = n - 1;
        } else if n == 1 && v[0] == '.' {
            assert(t =~= seq!['.']);
            assert(v@.take(0) =~= Seq::<char>::empty());
            return 0;
        } else if n >= 2 && v[n - 1] == '.' && v[n - 2] == '/' {
            assert(t.drop_last() =~= v@.take(n - 1));
            n = n - 1;
        } else {
            return n;
        }
    }
}

/// The name, stem and lower-cased extension that organised staging files a path by.
pub fn organized_name(file_path: &str) -> (r: OrganizedName)
    ensures
        r.name@ == match file_name_of(file_path@) {
            Some(n) => n,
            None => "unknown"@,
        },
        r.stem@ == match file_name_of(file_path@) {
            Some(n) => stem_and_ext(n).0,
            None => "unknown"@,
        },
        r.ext@ == match file_name_of(file_path@) {
            Some(n) => match stem_and_ext(n).1 {
                Some(e) => lowercase(e),
                None => "noext"@,
            },
            None => "noext"@,
        },
{
    let v = chars_of(file_path);
    let t = trim_tail_len(&v);
    let s = last_slash_index(&v, t);
    let ghost tt = v@.take(t as int);
    let mut name: Vec<char> = Vec::new();
    let mut i = s;
    while i < t
        invariant
            s <= i <= t <= v.len(),
            name@ == v@.subrange(s as int, i as int),
        decreases t - i,
    {
        name.push(v[i]);
        i = i + 1;
        assert(name@ =~= v@.subrange(s as int, i as int));
    }
    assert(name@ =~= name_part(tt));
    let is_dots = name.len() == 2 && name[0] == '.' && name[1] == '.';
    proof {
        if is_dots {
            assert(name@ =~= seq!['.', '.']);
        } else if name@ == seq!['.', '.'] {
            assert(name@[0] == '.' && name@[1] == '.');
        }
    }
    if name.len() == 0 || is_dots {
        return OrganizedName {
            name: text_of("unknown"),
            stem: text_of("unknown"),
            ext: text_of("noext"),
        };
    }
    // The last dot of the name.
    let mut d = name.len();
    assert(name@.take(d as int) =~= name@);
    while d > 0 && name[d - 1] != '.'
        invariant
            d <= name.len(),
            last_dot(name@) == last_dot(name@.take(d as int)),
        decreases d,
    {
        assert(name@.take(d as int).drop_last() =~= name@.take(d - 1));
        d = d - 1;
    }
    if d > 0 {
        assert(name@.take(d as int).last() == '.');
    }
    // `d` is one past the last dot, or 0 when there is none.
    let full = string_of(&name);
    if d <= 1 {
        return OrganizedName { name: full, stem: string_of(&name), ext: text_of("noext") };
    }
    let mut stem: Vec<char> = Vec::new();
    let mut ext: Vec<char> = Vec::new();
    let mut j: usize = 0;
    while j < name.len()
        invariant
            1 < d <= name.len(),
            j <= name.len(),
            stem@ == name@.take(if j < d - 1 { j as int } else { d - 1 }),
            ext@ == if j < d { Seq::<char>::empty() } else { name@.subrange(d as int, j as int) },
        decreases name.len() - j,
    {
        if j < d - 1 {
            stem.push(name[j]);
        } else if j >= d {
            ext.push(name[j]);
        }
        j = j + 1;
        assert(stem@ =~= name@.take(if j < d - 1 { j as int } else { d - 1 }));
        assert(ext@ =~= if j < d { Seq::<char>::empty() } else { name@.subrange(d as int, j as int) });
    }
    assert(ext@ =~= name@.skip(d as int));
    let ext_text = string_of(&ext);
    OrganizedName { name: full, stem: string_of(&stem), ext: to_lowercase(ext_text.as_str()) }
}

/// The `counter`-th place for a file in organised staging under `dest`.
pub fn organized_candidate(dest: &str, parts: &OrganizedName, counter: u32) -> (r: String)
    ensures
        r@ == organized_place(dest@, parts.name@, parts.stem@, parts.ext@, counter as nat),
{
    let mut folder_name = text_of("__");
    push_str(&mut folder_name, parts.ext.as_str());
    push_str(&mut folder_name, "__");
    let folder = join_path(dest, folder_name.as_str());
    if counter == 0 {
        join_path(folder.as_str(), parts.name.as_str())
    } else {
        let mut file = text_of(parts.stem.as_str());
        push_str(&mut file, "_");
        let c = decimal_text(counter as u64);
        push_str(&mut file, c.as_str());
        push_str(&mut file, ".");
        push_str(&mut file, parts.ext.as_str());
        join_path(folder.as_str(), file.as_str())
    }
}

// ─── Extension folders ─────────────────────────────────────

/// The extension that a folder name `__<ext>__` stands for (a nonempty `<ext>`).
/// With its underscores ASCII, a name of at least five characters is one of at
/// least five bytes.
pub open spec fn ext_of_folder(name: Seq<char>) -> Option<Seq<char>> {
    if name.len() >= 5 && name.take(2) == "__"@ && name.skip(name.len() - 2) == "__"@ {
        Some(name.subrange(2, name.len() - 2))
    } else {
        None
    }
}

/// The extension that a folder name `__<ext>__` stands for, if it is one.
pub fn folder_ext(name: &str) -> (r: Option<String>)
    ensures
        match ext_of_folder(name@) {
            Some(e) => r matches Some(s) && s@ == e,
            None => r is None,
        },
{
    let v = chars_of(name);
    proof {
        reveal_strlit("__");
    }
    if v.len() >= 5 && v[0] == '_' && v[1] == '_' && v[v.len() - 2] == '_' && v[v.len() - 1] == '_' {
        assert(v@.take(2) =~= "__"@);
        assert(v@.skip(v.len() - 2) =~= "__"@);
        let mut e: Vec<char> = Vec::new();
        let mut i: usize = 2;
        while i < v.len() - 2
            invariant
                5 <= v.len(),
                2 <= i <= v.len() - 2,
                e@ == v@.subrange(2, i as int),
            decreases v.len() - 2 - i,
        {
            e.push(v[i]);
            i = i + 1;
            assert(e@ =~= v@.subrange(2, i as int));
        }
        Some(string_of(&e))
    } else {
        proof {
            if v.len() >= 5 && v@.take(2) == "__"@ && v@.skip(v.len() - 2) == "__"@ {
                assert(v@.take(2)[0] == '_' && v@.take(2)[1] == '_');
                assert(v@.skip(v.len() - 2)[0] == v@[v.len() - 2]);
                assert(v@.skip(v.len() - 2)[1] == v@[v.len() - 1]);
            }
        }
        None
    }
}

/// Folder `a` comes before folder `b`: it is bigger, or as big and found earlier.
pub open spec fn comes_before(sizes: Seq<u64>, a: usize, b: usize) -> bool {
    sizes[a as int] > sizes[b as int] || (sizes[a as int] == sizes[b as int] && a < b)
}

/// The order in which folders of the given sizes are offered: biggest first, and
/// folders of the same size in the order they were found (a stable sort by size,
/// descending). The result is an arrangement of all indices.
pub fn order_by_size_desc(sizes: &Vec<u64>) -> (r: Vec<usize>)
    ensures
        r@.len() == sizes@.len(),
        forall|i: int| 0 <= i < r@.len() ==> (#[trigger] r@[i]) < sizes@.len(),
        forall|i: int, j: int| 0 <= i < j < r@.len() ==> comes_before(sizes@, r@[i], r@[j]),
{
    let mut r: Vec<usize> = Vec::new();
    let mut k: usize = 0;
    while k < sizes.len()
        invariant
            k <= sizes.len(),
            r@.len() == k,
            forall|i: int| 0 <= i < r@.len() ==> (#[trigger] r@[i]) < k,
            forall|i: int, j: int| 0 <= i < j < r@.len() ==> comes_before(sizes@, r@[i], r@[j]),
        decreases sizes.len() - k,
    {
        let mut p: usize = 0;
        while p < r.len() && sizes[r[p]] >= sizes[k]
            invariant
                p <= r@.len(),
                r@.len() == k,
                k < sizes.len(),
                forall|i: int| 0 <= i < r@.len() ==> (#[trigger] r@[i]) < k,
                forall|i: int| 0 <= i < p ==> sizes@[(#[trigger] r@[i]) as int] >= sizes@[k as int],
            decreases r@.len() - p,
        {
            p = p + 1;
        }
        // Everything from `p` on is smaller than the new folder.
        assert forall|i: int| p <= i < r@.len() implies sizes@[(#[trigger] r@[i]) as int] < sizes@[k as int] by {
            if i > p {
                assert(comes_before(sizes@, r@[p as int], r@[i]));
            }
        }
        let ghost old_r = r@;
        r.insert(p, k);
        assert forall|i: int, j: int| 0 <= i < j < r@.len() implies comes_before(sizes@, r@[i], r@[j]) by {
            if j < p {
                assert(r@[i] == old_r[i] && r@[j] == old_r[j]);
            } else if j == p {
                assert(r@[i] == old_r[i]);
            } else if i < p {
                assert(r@[i] == old_r[i] && r@[j] == old_r[j - 1]);
            } else if i == p {
                assert(r@[j] == old_r[j - 1]);
            } else {
                assert(r@[i] == old_r[i - 1] && r@[j] == old_r[j - 1]);
            }
        }
        k = k + 1;
    }
    r
}

/// Offering folders in size order shows each folder once: no index appears twice.
pub proof fn law_order_has_no_repeats(sizes: Seq<u64>, r: Seq<usize>)
    requires
        forall|i: int, j: int| 0 <= i < j < r.len() ==> comes_before(sizes, r[i], r[j]),
    ensures
        forall|i: int, j: int| 0 <= i < j < r.len() ==> r[i] != r[j],
{
    assert forall|i: int, j: int| 0 <= i < j < r.len() implies r[i] != r[j] by {
        assert(comes_before(sizes, r[i], r[j]));
    }
}

} // verus!
