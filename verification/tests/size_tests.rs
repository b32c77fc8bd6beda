use treeshark::config::{default_top_n, Config};
use treeshark::size::{parse_size, read_size_text};

fn bytes(s: &str) -> u64 {
    match parse_size(s) {
        Ok(n) => n,
        Err(e) => panic!("{} should parse: {}", s, e.message()),
    }
}

fn error_value(s: &str) -> String {
    match parse_size(s) {
        Ok(n) => panic!("{} should not parse, got {}", s, n),
        Err(e) => e.value,
    }
}

#[test]
fn parse_size_units() {
    assert_eq!(bytes("1GB"), 1 << 30);
    assert_eq!(bytes("500MB"), 500 << 20);
    assert_eq!(bytes("10GB"), 10 << 30);
    assert_eq!(bytes("1TB"), 1 << 40);
    assert_eq!(bytes("4KB"), 4096);
    assert_eq!(bytes("100B"), 100);
    assert_eq!(bytes("123"), 123);
}

#[test]
fn parse_size_fractions() {
    assert_eq!(bytes("2.5GB"), 2_684_354_560);
    assert_eq!(bytes("1.5KB"), 1536);
    assert_eq!(bytes("0.1KB"), 102);
    assert_eq!(bytes(".5KB"), 512);
    assert_eq!(bytes("5.KB"), 5120);
    assert_eq!(bytes("0.3B"), 0);
}

#[test]
fn parse_size_case_and_whitespace() {
    assert_eq!(bytes("1gb"), 1 << 30);
    assert_eq!(bytes("2Mb"), 2 << 20);
    assert_eq!(bytes("  3 tB  "), 3 << 40);
    assert_eq!(bytes("\t7 kb\n"), 7 * 1024);
    assert_eq!(bytes("+8B"), 8);
}

#[test]
fn parse_size_float_forms() {
    assert_eq!(bytes("1e3"), 1000);
    assert_eq!(bytes("1E3KB"), 1_024_000);
    assert_eq!(bytes("25e-1KB"), 2560);
    assert_eq!(bytes("inf"), u64::MAX);
    assert_eq!(bytes("INFINITY"), u64::MAX);
    assert_eq!(bytes("NaN"), 0);
    assert_eq!(bytes("-inf"), 0);
    assert_eq!(bytes("-5MB"), 0);
    assert_eq!(bytes("1e-400"), 0);
    assert_eq!(bytes("1e99999999999999999999999999999999"), u64::MAX);
    assert_eq!(bytes("0e99999999999999999999999999999999"), 0);
}

#[test]
fn parse_size_saturates() {
    assert_eq!(bytes("18446744073709551615"), u64::MAX);
    assert_eq!(bytes("99999999999999999999TB"), u64::MAX);
    assert_eq!(bytes("16777216TB"), u64::MAX);
    assert_eq!(bytes("16777215TB"), 16_777_215u64 << 40);
}

#[test]
fn parse_size_errors() {
    assert_eq!(error_value("abc"), "ABC");
    assert_eq!(error_value(""), "");
    assert_eq!(error_value("GB"), "");
    assert_eq!(error_value("1.2.3MB"), "1.2.3");
    assert_eq!(error_value(" 12 XB "), "12 X");
    assert_eq!(error_value("1e"), "1E");
    assert_eq!(error_value("."), ".");
    assert_eq!(error_value("1T"), "1T");
    assert_eq!(error_value("1 000 GB"), "1 000 ");
    assert_eq!(error_value("1 xkb"), "1 X");
    assert_eq!(error_value("1ßB"), "1SS");
}

#[test]
fn size_error_message() {
    match parse_size("oops") {
        Ok(_) => panic!("should fail"),
        Err(e) => assert_eq!(e.message(), "Invalid size value: OOPS"),
    }
}

#[test]
fn config_defaults() {
    let c = Config::default();
    assert_eq!(c.min_size, "1GB");
    assert_eq!(c.scan_paths, vec![".".to_string()]);
    assert_eq!(c.top_n, 50);
    assert_eq!(c.exclude, vec![".git".to_string(), "node_modules".to_string(), ".cache".to_string()]);
    assert_eq!(c.threads, 0);
    assert_eq!(default_top_n(), 50);
    match c.min_size_bytes() {
        Ok(n) => assert_eq!(n, 1 << 30),
        Err(_) => panic!("default threshold should parse"),
    }
}

#[test]
fn config_threshold_error() {
    let mut c = Config::default();
    c.min_size = "lots".to_string();
    match c.min_size_bytes() {
        Ok(_) => panic!("should fail"),
        Err(e) => assert_eq!(e.value, "LOTS"),
    }
}

#[test]
fn config_threads() {
    let mut c = Config::default();
    assert_eq!(c.threads_with_cores(12), 12);
    assert!(c.effective_threads() >= 1);
    c.threads = 4;
    assert_eq!(c.threads_with_cores(12), 4);
    assert_eq!(c.effective_threads(), 4);
}

#[test]
fn config_resolves_paths() {
    let mut c = Config::default();
    c.scan_paths = vec![
        ".".to_string(),
        "/var/log".to_string(),
        "media/videos".to_string(),
    ];
    assert_eq!(
        c.resolve_scan_paths("/home/user"),
        vec![
            "/home/user/.".to_string(),
            "/var/log".to_string(),
            "/home/user/media/videos".to_string(),
        ]
    );
    assert_eq!(c.resolve_scan_paths("/home/user/"), vec![
        "/home/user/.".to_string(),
        "/var/log".to_string(),
        "/home/user/media/videos".to_string(),
    ]);
    assert_eq!(c.resolve_scan_paths("")[2], "media/videos");
}

#[test]
fn config_overrides() {
    let c = Config::default();
    let o = c.with_overrides(Some("500MB".to_string()), vec!["/data".to_string()], Some(3));
    assert_eq!(o.min_size, "500MB");
    assert_eq!(o.scan_paths, vec!["/data".to_string()]);
    assert_eq!(o.threads, 3);
    assert_eq!(o.top_n, 50);
    assert_eq!(o.exclude, c.exclude);
    let same = c.with_overrides(None, vec![], None);
    assert_eq!(same.min_size, "1GB");
    assert_eq!(same.scan_paths, vec![".".to_string()]);
    assert_eq!(same.threads, 0);
}

#[test]
fn size_ignores_letter_case() {
    for (a, b) in [("1gb", "1GB"), ("2.5Mb", "2.5MB"), ("3kB", "3KB"), ("1tb", "1TB"), ("1e3b", "1E3B"), ("Inf", "INF"), ("nan", "NAN")] {
        assert_eq!(bytes(a), bytes(b));
    }
    assert_eq!(bytes("1gb"), 1 << 30);
    assert_eq!(bytes("1e3"), 1000);
}

#[test]
fn size_is_read_in_unicode_upper_case() {
    // The dotless i upper-cases to a plain I, so these read as infinity.
    assert_eq!(bytes("ınf"), u64::MAX);
    assert_eq!(bytes("ınfınıty"), u64::MAX);
    assert_eq!(bytes(" 1 gb "), 1073741824);
    assert_eq!(bytes("500mb"), 524288000);
    for s in ["1gb", " 2.5 Mb ", "7", "abc", "1.2.3MB", "ınf", "1 000 MB"] {
        let again = parse_size(&s.trim().to_uppercase()).map_err(|e| e.value);
        assert_eq!(parse_size(s).map_err(|e| e.value), again);
    }
}

#[test]
fn reads_upper_cased_size_text() {
    assert_eq!(read_size_text("1GB").ok(), Some(1 << 30));
    assert_eq!(read_size_text("INF").ok(), Some(u64::MAX));
    assert_eq!(read_size_text("2.5 MB").ok(), Some(2621440));
    match read_size_text("1 XKB") {
        Ok(_) => panic!("should fail"),
        Err(e) => assert_eq!(e.value, "1 X"),
    }
    // Blanks around the whole text are the caller's to trim: a trailing blank hides the unit.
    assert!(read_size_text("1GB ").is_err());
}
