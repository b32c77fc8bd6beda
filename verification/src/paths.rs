//! Paths as text: joining, the scope of a path prefix, and the directory and name of a file.
//!
//! Paths are Unix paths held as strings; a path is absolute when it starts with `/`.
use vstd::prelude::*;
use crate::text::{
    chars_of, push_char, push_chars, push_str, starts_with, string_of, text_of, views,
};

verus! {

/// The path is absolute (it starts at the root).
pub open spec fn is_absolute(p: Seq<char>) -> bool {
    p.len() > 0 && p[0] == '/'
}

/// `base` joined with `p`, as `Path::join` does it: an absolute `p` replaces `base`;
/// otherwise a separator goes between them unless `base` is empty or already ends in one.
pub open spec fn path_join(base: Seq<char>, p: Seq<char>) -> Seq<char> {
    if is_absolute(p) {
        p
    } else if base.len() > 0 && base.last() != '/' {
        base + seq!['/'] + p
    } else {
        base + p
    }
}

/// Whether the path is absolute.
pub fn path_is_absolute(p: &str) -> (b: bool)
    ensures
        b == is_absolute(p@),
{
    let v = chars_of(p);
    v.len() > 0 && v[0] == '/'
}

/// Joins `p` onto `base`.
pub fn join_path(base: &str, p: &str) -> (r: String)
    ensures
        r@ == path_join(base@, p@),
{
    if path_is_absolute(p) {
        return text_of(p);
    }
    let b = chars_of(base);
    let mut r = string_of(&b);
    if b.len() > 0 && b[b.len() - 1] != '/' {
        push_char(&mut r, '/');
    }
    push_str(&mut r, p);
    r
}

/// The name of the database file that a configuration directory holds.
pub open spec fn database_file() -> Seq<char> {
    seq!['t', 'r', 'e', 'e', 's', 'h', 'a', 'r', 'k', '.', 'd', 'b']
}

/// The database path for a configuration directory.
pub fn database_path(base: &str) -> (r: String)
    ensures
        r@ == path_join(base@, database_file()),
{
    let name: [char; 12] = ['t', 'r', 'e', 'e', 's', 'h', 'a', 'r', 'k', '.', 'd', 'b'];
    assert(name@ =~= database_file());
    let n = string_of(&name);
    join_path(base, n.as_str())
}

/// A scope prefix with a trailing separator, so that `/usr` does not take in `/usr2`.
pub open spec fn scope_prefix(p: Seq<char>) -> Seq<char> {
    if p.len() > 0 && p.last() == '/' {
        p
    } else {
        p.push('/')
    }
}

/// The path lies in the scope of the prefix.
pub open spec fn in_scope(path: Seq<char>, prefix: Seq<char>) -> bool {
    starts_with(path, scope_prefix(prefix))
}

/// The scope prefix of `p`.
pub fn normalize_prefix(p: &str) -> (r: String)
    ensures
        r@ == scope_prefix(p@),
{
    let v = chars_of(p);
    let mut r = string_of(&v);
    if !(v.len() > 0 && v[v.len() - 1] == '/') {
        push_char(&mut r, '/');
    }
    r
}

/// The scope prefixes of a list of paths.
pub fn normalize_prefixes(ps: &Vec<String>) -> (r: Vec<String>)
    ensures
        r@.len() == ps@.len(),
        forall|i: int| 0 <= i < ps@.len() ==> (#[trigger] r@[i])@ == scope_prefix(ps@[i]@),
{
    let mut r: Vec<String> = Vec::new();
    let mut i: usize = 0;
    while i < ps.len()
        invariant
            i <= ps.len(),
            r@.len() == i,
            forall|j: int| 0 <= j < i ==> (#[trigger] r@[j])@ == scope_prefix(ps@[j]@),
        decreases ps.len() - i,
    {
        r.push(normalize_prefix(ps[i].as_str()));
        i = i + 1;
    }
    r
}

/// The index of the last separator in `p`, or -1.
pub open spec fn last_slash(p: Seq<char>) -> int
    decreases p.len(),
{
    if p.len() == 0 {
        -1
    } else if p.last() == '/' {
        p.len() - 1
    } else {
        last_slash(p.drop_last())
    }
}

/// The directory part of a file path: everything up to and including its last separator.
pub open spec fn dir_part(p: Seq<char>) -> Seq<char> {
    p.take(last_slash(p) + 1)
}

/// The name part of a file path: everything after its last separator.
pub open spec fn name_part(p: Seq<char>) -> Seq<char> {
    p.skip(last_slash(p) + 1)
}

pub proof fn lemma_last_slash_bounds(p: Seq<char>)
    ensures
        -1 <= last_slash(p) < p.len(),
        last_slash(p) >= 0 ==> p[last_slash(p)] == '/',
        forall|i: int| last_slash(p) < i < p.len() ==> p[i] != '/',
    decreases p.len(),
{
    if p.len() > 0 && p.last() != '/' {
        lemma_last_slash_bounds(p.drop_last());
        assert forall|i: int| last_slash(p) < i < p.len() implies p[i] != '/' by {
            if i < p.len() - 1 {
                assert(p[i] == p.drop_last()[i]);
            }
        }
    }
}

/// Splits a file path at its last separator into directory and name, as the tables show it.
pub fn split_dir_name(path: &str) -> (r: (String, String))
    ensures
        r.0@ == dir_part(path@),
        r.1@ == name_part(path@),
        r.0@ + r.1@ == path@,
{
    let v = chars_of(path);
    let mut k = v.len();
    assert(v@.take(k as int) =~= v@);
    while k > 0 && v[k - 1] != '/'
        invariant
            k <= v.len(),
            last_slash(v@) == last_slash(v@.take(k as int)),
        decreases k,
    {
        assert(v@.take(k as int).drop_last() =~= v@.take(k - 1));
        k = k - 1;
    }
    proof {
        if k > 0 {
            assert(v@.take(k as int).last() == '/');
        }
        assert(v@.take(v.len() as int) =~= v@);
    }
    let mut dir: Vec<char> = Vec::new();
    let mut name: Vec<char> = Vec::new();
    let mut i: usize = 0;
    while i < v.len()
        invariant
            k <= v.len(),
            i <= v.len(),
            dir@ == v@.take(if i < k { i as int } else { k as int }),
            name@ == if i < k { Seq::<char>::empty() } else { v@.subrange(k as int, i as int) },
        decreases v.len() - i,
    {
        if i < k {
            dir.push(v[i]);
        } else {
            name.push(v[i]);
        }
        i = i + 1;
        assert(dir@ =~= v@.take(if i < k { i as int } else { k as int }));
        assert(name@ =~= if i < k { Seq::<char>::empty() } else { v@.subrange(k as int, i as int) });
    }
    assert(name@ =~= v@.skip(k as int));
    assert(dir@ + name@ =~= v@);
    (string_of(&dir), string_of(&name))
}

/// A path prefix with no trailing separator takes in only paths that continue it
/// with a separator: scoping to `/usr` never takes in `/usr2/...`.
pub proof fn law_scope_needs_separator(path: Seq<char>, prefix: Seq<char>)
    requires
        !(prefix.len() > 0 && prefix.last() == '/'),
        in_scope(path, prefix),
    ensures
        path.len() > prefix.len(),
        path.take(prefix.len() as int) == prefix,
        path[prefix.len() as int] == '/',
{
    let sp = prefix.push('/');
    assert(path.subrange(0, sp.len() as int) == sp);
    assert(path.take(prefix.len() as int) =~= prefix) by {
        assert forall|i: int| 0 <= i < prefix.len() implies path.take(prefix.len() as int)[i]
            == prefix[i] by {
            assert(path.subrange(0, sp.len() as int)[i] == sp[i]);
        }
    }
    assert(path.subrange(0, sp.len() as int)[prefix.len() as int] == sp[prefix.len() as int]);
}

/// Joining never loses the joined path: the result ends with it.
pub proof fn law_join_ends_with_path(base: Seq<char>, p: Seq<char>)
    ensures
        path_join(base, p).len() >= p.len(),
        path_join(base, p).skip(path_join(base, p).len() - p.len()) == p,
        is_absolute(p) ==> path_join(base, p) == p,
{
    let j = path_join(base, p);
    assert(j.skip(j.len() - p.len()) =~= p);
}

/// Joining onto an absolute base gives an absolute path: with an absolute working
/// directory and configuration directory, every path a listing is scoped to is absolute.
pub proof fn law_join_absolute(base: Seq<char>, p: Seq<char>)
    requires
        is_absolute(base),
    ensures
        is_absolute(path_join(base, p)),
{
    let j = path_join(base, p);
    if !is_absolute(p) {
        assert(j[0] == base[0]);
    }
}

// ─── Ancestors ─────────────────────────────────────────────

/// The parent of a path as `Path::parent` gives it.
pub uninterp spec fn path_parent(p: Seq<char>) -> Option<Seq<char>>;

/// `Path::parent`: the path without its final component (`""` for a relative path of
/// one component), or `None` when the path ends in a root or is empty. Without its
/// final component the path is shorter.
#[verifier::external_body]
fn parent_of(p: &str) -> (r: Option<String>)
    ensures
        match r {
            Some(q) => path_parent(p@) == Some(q@) && q@.len() < p@.len(),
            None => path_parent(p@) is None,
        },
{
    match std::path::Path::new(p).parent() {
        Some(q) => Some(q.to_string_lossy().into_owned()),
        None => None,
    }
}

/// The path and its ancestors, nearest first, as `Path::ancestors` walks them.
pub open spec fn ancestors_of(p: Seq<char>) -> Seq<Seq<char>>
    decreases p.len(),
{
    match path_parent(p) {
        Some(q) => if q.len() < p.len() {
            seq![p] + ancestors_of(q)
        } else {
            seq![p]
        },
        None => seq![p],
    }
}

/// The root of a staging folder that holds `p`: the second of its ancestors counted
/// from the top (from `/` for an absolute path), or `None` when it has only one.
pub open spec fn staging_root_of(p: Seq<char>) -> Option<Seq<char>> {
    let a = ancestors_of(p);
    if a.len() >= 2 {
        Some(a[a.len() - 2])
    } else {
        None
    }
}

/// The root of the staging folder that holds a staged file: for `/stage/home/u/f` it
/// is `/stage`.
pub fn staging_root(p: &str) -> (r: Option<String>)
    ensures
        match staging_root_of(p@) {
            Some(x) => r matches Some(s) && s@ == x,
            None => r is None,
        },
{
    let mut cur = text_of(p);
    let mut prev: Option<String> = None;
    let ghost mut done: Seq<Seq<char>> = Seq::empty();
    let mut go = true;
    while go
        invariant
            ancestors_of(p@) == done + ancestors_of(cur@),
            done.len() == 0 ==> prev is None,
            done.len() > 0 ==> (prev matches Some(x) && x@ == done.last()),
            !go ==> path_parent(cur@) is None,
        decreases cur@.len() + (if go { 1int } else { 0int }),
    {
        match parent_of(cur.as_str()) {
            Some(q) => {
                proof {
                    assert(ancestors_of(cur@) == seq![cur@] + ancestors_of(q@));
                    assert(done + ancestors_of(cur@) =~= done.push(cur@) + ancestors_of(q@));
                    done = done.push(cur@);
                }
                prev = Some(cur);
                cur = q;
            },
            None => {
                go = false;
            },
        }
    }
    proof {
        let a = ancestors_of(p@);
        assert(ancestors_of(cur@) == seq![cur@]);
        assert(a.len() == done.len() + 1);
        if done.len() > 0 {
            assert(a[a.len() - 2] == done[done.len() - 1]);
        }
    }
    prev
}

} // verus!
