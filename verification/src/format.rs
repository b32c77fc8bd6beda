//! What the tables and prompts show: thousands separators, byte sizes, colours by
//! size and status, list labels, shortened paths and filter labels.
use vstd::prelude::*;
use vstd::utf8::is_char_boundary;
use vstd::string::StringSliceAdditionalSpecFns;
use crate::paint::{no_escape, paint, shown_as, tint_code};
use crate::status::Tint;
use crate::text::{
    chars_of, decimal, decimal_text, pad_left, push_chars, push_padded_left, push_str, string_of,
    text_of, text_eq, views,
};

verus! {

// ─── Thousands separators ──────────────────────────────────

/// Digits grouped by thousands from the right, with commas between the groups.
pub open spec fn group_thousands(s: Seq<char>) -> Seq<char>
    decreases s.len(),
{
    if s.len() <= 3 {
        s
    } else {
        group_thousands(s.take(s.len() - 3)) + seq![','] + s.skip(s.len() - 3)
    }
}

fn push_grouped(v: &[char], hi: usize, out: &mut String)
    requires
        hi <= v.len(),
    ensures
        final(out)@ == old(out)@ + group_thousands(v@.take(hi as int)),
    decreases hi,
{
    let ghost start = out@;
    let ghost s = v@.take(hi as int);
    if hi <= 3 {
        let mut i: usize = 0;
        while i < hi
            invariant
                i <= hi <= v.len(),
                out@ == start + v@.take(i as int),
            decreases hi - i,
        {
            crate::text::push_char(out, v[i]);
            i = i + 1;
            assert(v@.take(i as int) =~= v@.take(i - 1).push(v@[i - 1]));
        }
    } else {
        push_grouped(v, hi - 3, out);
        crate::text::push_char(out, ',');
        crate::text::push_char(out, v[hi - 3]);
        crate::text::push_char(out, v[hi - 2]);
        crate::text::push_char(out, v[hi - 1]);
        assert(s.take(s.len() - 3) =~= v@.take(hi - 3));
        assert(out@ =~= start + group_thousands(s));
    }
}

/// `n` in decimal with a comma between each group of three digits, such as `193,222`.
pub fn format_with_commas(n: u64) -> (r: String)
    ensures
        r@ == group_thousands(decimal(n as nat)),
{
    let d = decimal_text(n);
    let v = chars_of(d.as_str());
    let mut r = String::new();
    push_grouped(&v, v.len(), &mut r);
    assert(v@.take(v.len() as int) =~= v@);
    assert(Seq::<char>::empty() + group_thousands(v@) =~= group_thousands(v@));
    r
}

/// `s` without its commas.
pub open spec fn without_commas(s: Seq<char>) -> Seq<char> {
    s.filter(|c: char| c != ',')
}

proof fn lemma_no_commas_kept(s: Seq<char>)
    requires
        forall|i: int| 0 <= i < s.len() ==> s[i] != ',',
    ensures
        without_commas(s) == s,
    decreases s.len(),
{
    reveal_with_fuel(Seq::<_>::filter, 1);
    if s.len() > 0 {
        lemma_no_commas_kept(s.drop_last());
        assert(s.drop_last().push(s.last()) =~= s);
    }
}

/// Grouping adds commas and nothing else: without its commas, the grouped text is the
/// number's decimal digits; and every group after the first has three digits.
pub proof fn law_commas_only_separate(s: Seq<char>)
    requires
        forall|i: int| 0 <= i < s.len() ==> s[i] != ',',
    ensures
        without_commas(group_thousands(s)) == s,
        s.len() > 3 ==> group_thousands(s).skip(group_thousands(s).len() - 4) == seq![','] + s.skip(
            s.len() - 3,
        ),
    decreases s.len(),
{
    if s.len() <= 3 {
        lemma_no_commas_kept(s);
    } else {
        let a = s.take(s.len() - 3);
        let b = s.skip(s.len() - 3);
        law_commas_only_separate(a);
        lemma_no_commas_kept(b);
        let pred = |c: char| c != ',';
        Seq::filter_distributes_over_add(group_thousands(a) + seq![','], b, pred);
        Seq::filter_distributes_over_add(group_thousands(a), seq![','], pred);
        reveal_with_fuel(Seq::<_>::filter, 2);
        assert(seq![','].drop_last() =~= Seq::<char>::empty());
        assert(seq![','].filter(pred) =~= Seq::<char>::empty());
        assert(a + b =~= s);
        let g = group_thousands(s);
        assert(g.skip(g.len() - 4) =~= seq![','] + b);
    }
}

// ─── Byte sizes ────────────────────────────────────────────

/// The text that `bytesize::ByteSize` shows for a number of bytes (decimal units,
/// one decimal place above 1000 bytes).
pub uninterp spec fn byte_size_text(n: u64) -> Seq<char>;

/// The `Display` text of `bytesize::ByteSize(n)`. Its source writes sizes under 1000
/// bytes as the number followed by ` B`; larger ones go through floating point, as a
/// number with one decimal, a space, a unit letter and `B`. No escape character occurs.
#[verifier::external_body]
fn byte_size_display(n: u64) -> (s: String)
    ensures
        s@ == byte_size_text(n),
        n < 1000 ==> s@ == decimal(n as nat) + seq![' ', 'B'],
        no_escape(s@),
{
    bytesize::ByteSize(n).to_string()
}

/// A number of bytes as the tables show it, such as `2.1 GB` or `215 B`.
pub fn byte_size(n: u64) -> (s: String)
    ensures
        s@ == byte_size_text(n),
        n < 1000 ==> s@ == decimal(n as nat) + seq![' ', 'B'],
        no_escape(s@),
{
    byte_size_display(n)
}

// ─── Colours ───────────────────────────────────────────────

/// The colour a file size is shown in: 1 TiB and up bold red, 1 GiB and up red,
/// 100 MiB and up yellow, smaller ones white.
pub open spec fn size_tint_of(size: u64) -> Tint {
    if size >= 0x100_0000_0000 {
        Tint::RedBold
    } else if size >= 0x4000_0000 {
        Tint::Red
    } else if size >= 100 * 0x10_0000 {
        Tint::Yellow
    } else {
        Tint::White
    }
}

/// The colour a file size is shown in.
pub fn size_tint(size: u64) -> (t: Tint)
    ensures
        t == size_tint_of(size),
{
    if size >= 0x100_0000_0000 {
        Tint::RedBold
    } else if size >= 0x4000_0000 {
        Tint::Red
    } else if size >= 100 * 0x10_0000 {
        Tint::Yellow
    } else {
        Tint::White
    }
}

/// A file size as the tables show it, in the colour of its size.
pub fn format_size_colored(size: u64) -> (r: String)
    ensures
        shown_as(r@, byte_size_text(size), tint_code(size_tint_of(size))->Some_0),
{
    let s = byte_size(size);
    paint(s.as_str(), size_tint(size))
}

/// The colour a scan status is shown in.
pub open spec fn scan_status_tint_of(status: Seq<char>) -> Tint {
    if status == "completed"@ {
        Tint::Green
    } else if status == "interrupted"@ {
        Tint::Yellow
    } else if status == "running"@ {
        Tint::Cyan
    } else {
        Tint::Plain
    }
}

/// The colour a scan status is shown in.
pub fn scan_status_tint(status: &str) -> (t: Tint)
    ensures
        t == scan_status_tint_of(status@),
{
    if text_eq(status, "completed") {
        Tint::Green
    } else if text_eq(status, "interrupted") {
        Tint::Yellow
    } else if text_eq(status, "running") {
        Tint::Cyan
    } else {
        Tint::Plain
    }
}

/// The larger the file, the louder its colour: sizes are shown in colours ordered
/// white, yellow, red, bold red.
pub open spec fn tint_rank(t: Tint) -> int {
    match t {
        Tint::RedBold => 3,
        Tint::Red => 2,
        Tint::Yellow => 1,
        _ => 0,
    }
}

pub proof fn law_size_tint_monotone(a: u64, b: u64)
    requires
        a <= b,
    ensures
        tint_rank(size_tint_of(a)) <= tint_rank(size_tint_of(b)),
{
}

// ─── Labels ────────────────────────────────────────────────

/// An item of the delete picker: position, size and path.
pub open spec fn pick_label(position: nat, size_text: Seq<char>, path: Seq<char>) -> Seq<char> {
    pad_left(decimal(position), 3) + ". "@ + pad_left(size_text, 8) + "]  "@ + path
}

/// The picker item for the file at `index` (shown from 1) with the given size text.
pub fn pick_item(index: usize, size_text: &str, path: &str) -> (r: String)
    requires
        index < u64::MAX,
    ensures
        r@ == pick_label((index + 1) as nat, size_text@, path@),
{
    let mut r = String::new();
    let pos = decimal_text(index as u64 + 1);
    let pv = chars_of(pos.as_str());
    push_padded_left(&mut r, &pv, 3);
    push_str(&mut r, ". ");
    let sv = chars_of(size_text);
    push_padded_left(&mut r, &sv, 8);
    push_str(&mut r, "]  ");
    push_str(&mut r, path);
    assert(r@ =~= pick_label((index + 1) as nat, size_text@, path@));
    r
}

/// The picker item for a file of `size` bytes.
pub fn pick_item_for(index: usize, size: u64, path: &str) -> (r: String)
    requires
        index < u64::MAX,
    ensures
        r@ == pick_label((index + 1) as nat, byte_size_text(size), path@),
{
    let s = byte_size(size);
    pick_item(index, s.as_str(), path)
}

/// An item of the extension-folder picker: position, size, folder and file count.
pub open spec fn folder_label(position: nat, size_text: Seq<char>, ext: Seq<char>, files: nat) -> Seq<char> {
    pad_left(decimal(position), 3) + ". "@ + pad_left(size_text, 8) + "]  __"@ + ext + "__  ("@
        + decimal(files) + " files)"@
}

/// The picker item for the extension folder at `index` (shown from 1).
pub fn folder_item(index: usize, size_text: &str, ext: &str, files: u64) -> (r: String)
    requires
        index < u64::MAX,
    ensures
        r@ == folder_label((index + 1) as nat, size_text@, ext@, files as nat),
{
    let mut r = String::new();
    let pos = decimal_text(index as u64 + 1);
    let pv = chars_of(pos.as_str());
    push_padded_left(&mut r, &pv, 3);
    push_str(&mut r, ". ");
    let sv = chars_of(size_text);
    push_padded_left(&mut r, &sv, 8);
    push_str(&mut r, "]  __");
    push_str(&mut r, ext);
    push_str(&mut r, "__  (");
    let count = decimal_text(files);
    push_str(&mut r, count.as_str());
    push_str(&mut r, " files)");
    assert(r@ =~= folder_label((index + 1) as nat, size_text@, ext@, files as nat));
    r
}

/// The picker item for an extension folder holding `size` bytes.
pub fn folder_item_for(index: usize, size: u64, ext: &str, files: u64) -> (r: String)
    requires
        index < u64::MAX,
    ensures
        r@ == folder_label((index + 1) as nat, byte_size_text(size), ext@, files as nat),
{
    let s = byte_size(size);
    folder_item(index, s.as_str(), ext, files)
}

/// The date column of the history: the first 19 bytes of the start time
/// (`YYYY-MM-DDTHH:MM:SS`), or all of it when it is shorter.
pub fn history_date<'a>(started_at: &'a str) -> (r: &'a str)
    requires
        started_at.len() >= 19 ==> is_char_boundary(started_at.spec_bytes(), 19),
    ensures
        r.spec_bytes() == if started_at.len() >= 19 {
            started_at.spec_bytes().subrange(0, 19)
        } else {
            started_at.spec_bytes()
        },
{
    if started_at.len() >= 19 {
        let parts = started_at.split_at(19);
        assert(parts.0.spec_bytes() =~= started_at.spec_bytes().subrange(0, 19));
        parts.0
    } else {
        started_at
    }
}

/// A path shortened to its last `max_len - 3` characters behind `...` when it has
/// more than `max_len` characters.
pub open spec fn truncated(path: Seq<char>, max_len: nat) -> Seq<char> {
    if path.len() <= max_len {
        path
    } else {
        let keep: nat = if max_len >= 3 { (max_len - 3) as nat } else { 0 };
        "..."@ + path.skip(path.len() - keep)
    }
}

/// A path shortened for a progress message.
pub fn truncate_path(path: &str, max_len: usize) -> (r: String)
    ensures
        r@ == truncated(path@, max_len as nat),
{
    let v = chars_of(path);
    if v.len() <= max_len {
        return string_of(&v);
    }
    let keep = max_len.saturating_sub(3);
    let mut r = text_of("...");
    let mut i = v.len() - keep;
    let ghost start = r@;
    while i < v.len()
        invariant
            keep <= v.len(),
            v.len() - keep <= i <= v.len(),
            r@ == start + v@.subrange(v.len() - keep, i as int),
        decreases v.len() - i,
    {
        crate::text::push_char(&mut r, v[i]);
        i = i + 1;
        assert(r@ =~= start + v@.subrange(v.len() - keep, i as int));
    }
    assert(v@.subrange(v.len() - keep, v.len() as int) =~= v@.skip(v.len() - keep));
    r
}

// ─── Joined lists ──────────────────────────────────────────

/// The items joined with `sep` between them.
pub open spec fn joined(items: Seq<Seq<char>>, sep: Seq<char>) -> Seq<char>
    decreases items.len(),
{
    if items.len() == 0 {
        Seq::<char>::empty()
    } else if items.len() == 1 {
        items[0]
    } else {
        joined(items.drop_last(), sep) + sep + items.last()
    }
}

/// Joins the items with `sep` between them.
pub fn join_with(items: &Vec<String>, sep: &str) -> (r: String)
    ensures
        r@ == joined(views(items@), sep@),
{
    let mut r = String::new();
    let mut i: usize = 0;
    while i < items.len()
        invariant
            i <= items.len(),
            r@ == joined(views(items@).take(i as int), sep@),
        decreases items.len() - i,
    {
        let ghost before = r@;
        if i > 0 {
            push_str(&mut r, sep);
        }
        push_str(&mut r, items[i].as_str());
        proof {
            let t = views(items@).take(i + 1);
            assert(t.drop_last() =~= views(items@).take(i as int));
            if i == 0 {
                assert(r@ =~= joined(t, sep@));
            } else {
                assert(r@ =~= joined(t, sep@));
            }
        }
        i = i + 1;
    }
    assert(views(items@).take(items.len() as int) =~= views(items@));
    r
}

/// The extensions with their dots: `.mp4, .mkv`.
pub open spec fn dotted(exts: Seq<Seq<char>>) -> Seq<Seq<char>> {
    exts.map_values(|e: Seq<char>| "."@ + e)
}

/// The label that names the extension filters of a move or restore, such as
/// ` [only: .mp4, .mkv / excluding: .part]`, or nothing when there are none.
pub open spec fn filter_label_text(filters: Seq<Seq<char>>, excludes: Seq<Seq<char>>) -> Seq<char> {
    let only = "only: "@ + joined(dotted(filters), ", "@);
    let excl = "excluding: "@ + joined(dotted(excludes), ", "@);
    if filters.len() > 0 && excludes.len() > 0 {
        " ["@ + only + " / "@ + excl + "]"@
    } else if filters.len() > 0 {
        " ["@ + only + "]"@
    } else if excludes.len() > 0 {
        " ["@ + excl + "]"@
    } else {
        Seq::<char>::empty()
    }
}

fn dotted_list(exts: &Vec<String>) -> (r: Vec<String>)
    ensures
        views(r@) == dotted(views(exts@)),
{
    let mut r: Vec<String> = Vec::new();
    let mut i: usize = 0;
    while i < exts.len()
        invariant
            i <= exts.len(),
            r@.len() == i,
            forall|j: int| 0 <= j < i ==> (#[trigger] r@[j])@ == "."@ + exts@[j]@,
        decreases exts.len() - i,
    {
        let mut s = text_of(".");
        push_str(&mut s, exts[i].as_str());
        r.push(s);
        i = i + 1;
    }
    assert(views(r@) =~= dotted(views(exts@)));
    r
}

/// The label that names the extension filters of a move or restore.
pub fn filter_label(filter_exts: &Vec<String>, exclude_exts: &Vec<String>) -> (r: String)
    ensures
        r@ == filter_label_text(views(filter_exts@), views(exclude_exts@)),
{
    let has_only = filter_exts.len() > 0;
    let has_excl = exclude_exts.len() > 0;
    if !has_only && !has_excl {
        return String::new();
    }
    let mut r = text_of(" [");
    if has_only {
        push_str(&mut r, "only: ");
        let j = join_with(&dotted_list(filter_exts), ", ");
        push_str(&mut r, j.as_str());
    }
    if has_only && has_excl {
        push_str(&mut r, " / ");
    }
    if has_excl {
        push_str(&mut r, "excluding: ");
        let j = join_with(&dotted_list(exclude_exts), ", ");
        push_str(&mut r, j.as_str());
    }
    push_str(&mut r, "]");
    assert(r@ =~= filter_label_text(views(filter_exts@), views(exclude_exts@)));
    r
}

} // verus!
