use treeshark::format::{
    byte_size, filter_label, format_size_colored, folder_item, folder_item_for, format_with_commas, history_date,
    join_with, pick_item, pick_item_for, scan_status_tint, size_tint, truncate_path,
};
use treeshark::listing::{list_title, scope_candidates, scope_label, status_filter};
use treeshark::config::Config;
use treeshark::paint::paint;
use treeshark::status::{FileStatus, Tint};

fn strings(v: &[&str]) -> Vec<String> {
    v.iter().map(|s| s.to_string()).collect()
}

#[test]
fn commas_group_thousands() {
    assert_eq!(format_with_commas(0), "0");
    assert_eq!(format_with_commas(999), "999");
    assert_eq!(format_with_commas(1000), "1,000");
    assert_eq!(format_with_commas(193_222), "193,222");
    assert_eq!(format_with_commas(2_800_000), "2,800,000");
    assert_eq!(format_with_commas(u64::MAX), "18,446,744,073,709,551,615");
}

#[test]
fn byte_sizes() {
    assert_eq!(byte_size(215), "215 B");
    assert_eq!(byte_size(0), "0 B");
    assert_eq!(byte_size(1000), "1.0 KB");
    assert_eq!(byte_size(419_000_000), "419.0 MB");
}

#[test]
fn tints() {
    assert_eq!(size_tint(1 << 40), Tint::RedBold);
    assert_eq!(size_tint((1 << 40) - 1), Tint::Red);
    assert_eq!(size_tint(1 << 30), Tint::Red);
    assert_eq!(size_tint(100 << 20), Tint::Yellow);
    assert_eq!(size_tint((100 << 20) - 1), Tint::White);
    assert_eq!(scan_status_tint("completed"), Tint::Green);
    assert_eq!(scan_status_tint("interrupted"), Tint::Yellow);
    assert_eq!(scan_status_tint("running"), Tint::Cyan);
    assert_eq!(scan_status_tint("odd"), Tint::Plain);
}

#[test]
fn picker_items() {
    assert_eq!(pick_item(0, "2.1 GB", "/a/b.mkv"), "  1.   2.1 GB]  /a/b.mkv");
    assert_eq!(pick_item(1233, "1048.6 KB", "x"), "1234. 1048.6 KB]  x");
    assert_eq!(pick_item_for(4, 215, "/f"), "  5.    215 B]  /f");
    assert_eq!(folder_item(2, "1.0 GB", "mp4", 12), "  3.   1.0 GB]  __mp4__  (12 files)");
    assert_eq!(folder_item_for(0, 5, "iso", 1), "  1.      5 B]  __iso__  (1 files)");
}

#[test]
fn history_dates() {
    assert_eq!(history_date("2026-03-26T10:15:02.123456+00:00"), "2026-03-26T10:15:02");
    assert_eq!(history_date("2026-03-26"), "2026-03-26");
}

#[test]
fn truncates_paths() {
    assert_eq!(truncate_path("/short", 60), "/short");
    assert_eq!(truncate_path("abcdefghij", 8), "...fghij");
    assert_eq!(truncate_path("αβγδεζηθ", 5), "...ηθ");
    assert_eq!(truncate_path("abcdef", 2), "...");
}

#[test]
fn filter_labels() {
    assert_eq!(filter_label(&vec![], &vec![]), "");
    assert_eq!(filter_label(&strings(&["mp4", "mkv"]), &vec![]), " [only: .mp4, .mkv]");
    assert_eq!(filter_label(&vec![], &strings(&["part"])), " [excluding: .part]");
    assert_eq!(
        filter_label(&strings(&["iso"]), &strings(&["tmp", "bak"])),
        " [only: .iso / excluding: .tmp, .bak]"
    );
    assert_eq!(join_with(&strings(&["a", "b", "c"]), ", "), "a, b, c");
}

#[test]
fn listing_choices() {
    assert_eq!(status_filter("all"), None);
    assert_eq!(status_filter("deleted"), Some("deleted".to_string()));
    assert_eq!(scope_label(true, &vec![], &vec![]), " (all paths)");
    assert_eq!(scope_label(false, &strings(&["~/a", "b"]), &strings(&["/x"])), " (~/a, b)");
    assert_eq!(scope_label(false, &vec![], &strings(&["/x", "/y"])), " (/x, /y)");
    assert_eq!(list_title("all", " (all paths)"), "All Files (all paths)");
    assert_eq!(list_title("exists", ""), "Existing Files");
    assert_eq!(list_title("deleted", " (/x)"), "Deleted Files (/x)");
    assert_eq!(list_title("missing", ""), "Missing Files");
    assert_eq!(list_title("moved", ""), "Files (status=moved)");
}

#[test]
fn scope_candidate_paths() {
    let mut c = Config::default();
    c.scan_paths = strings(&["stock", "/abs"]);
    assert!(scope_candidates(true, &strings(&["x"]), "/cwd", &c, "/cfg").is_empty());
    assert_eq!(
        scope_candidates(false, &strings(&["dl", "/v"]), "/cwd", &c, "/cfg"),
        strings(&["/cwd/dl", "/v"])
    );
    assert_eq!(
        scope_candidates(false, &vec![], "/cwd", &c, "/cfg"),
        strings(&["/cfg/stock", "/abs"])
    );
}

#[test]
fn paint_wraps_in_ansi_sequences_when_colour_is_on() {
    colored::control::set_override(true);
    assert_eq!(paint("big", Tint::Green), "\u{1b}[32mbig\u{1b}[0m");
    assert_eq!(paint("huge", Tint::RedBold), "\u{1b}[1;31mhuge\u{1b}[0m");
    assert_eq!(paint("1.0 GB", Tint::Red), "\u{1b}[31m1.0 GB\u{1b}[0m");
    assert_eq!(paint("x", Tint::White), "\u{1b}[37mx\u{1b}[0m");
    assert_eq!(paint("x", Tint::Yellow), "\u{1b}[33mx\u{1b}[0m");
    assert_eq!(paint("x", Tint::Blue), "\u{1b}[34mx\u{1b}[0m");
    assert_eq!(paint("x", Tint::Cyan), "\u{1b}[36mx\u{1b}[0m");
    assert_eq!(paint("other", Tint::Plain), "other");
    assert_eq!(FileStatus::Exists.colored(), "\u{1b}[32mexists\u{1b}[0m");
    assert_eq!(FileStatus::Deleted.colored(), "\u{1b}[31mdeleted\u{1b}[0m");
    assert_eq!(FileStatus::Missing.colored(), "\u{1b}[33mmissing\u{1b}[0m");
    assert_eq!(FileStatus::Moved.colored(), "\u{1b}[34mmoved\u{1b}[0m");
    assert_eq!(format_size_colored(215), "\u{1b}[37m215 B\u{1b}[0m");
    assert_eq!(format_size_colored(2 * 1024 * 1024 * 1024), "\u{1b}[31m2.1 GB\u{1b}[0m");
    colored::control::set_override(false);
    assert_eq!(paint("big", Tint::Green), "big");
    assert_eq!(FileStatus::Moved.colored(), "moved");
    colored::control::unset_override();
}
