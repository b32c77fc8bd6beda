use treeshark::resume::{
    add_completed, decode_paths, encode_paths, plan_from_lists, plan_resume, record_completed,
    remaining_paths, FreshReason, InterruptedScan, PathListError, ResumePlan,
};

fn strings(v: &[&str]) -> Vec<String> {
    v.iter().map(|s| s.to_string()).collect()
}

#[test]
fn encodes_path_lists() {
    assert_eq!(encode_paths(&vec![]), "[]");
    assert_eq!(encode_paths(&strings(&["/home", "/var"])), "[\"/home\",\"/var\"]");
    assert_eq!(
        encode_paths(&strings(&["a\"b", "c\\d", "e\nf", "\u{1}"])),
        "[\"a\\\"b\",\"c\\\\d\",\"e\\nf\",\"\\u0001\"]"
    );
}

#[test]
fn decodes_path_lists() {
    assert_eq!(decode_paths("[\"/home\", \"/var\"]").unwrap(), strings(&["/home", "/var"]));
    assert_eq!(decode_paths("[]").unwrap(), Vec::<String>::new());
    assert_eq!(decode_paths("not json"), Err(PathListError::Malformed));
    assert_eq!(decode_paths("[1, 2]"), Err(PathListError::Malformed));
}

#[test]
fn path_lists_round_trip() {
    let v = strings(&["/a b", "ü/ß", "tab\there", "quote\"", ""]);
    let text = encode_paths(&v);
    assert_eq!(decode_paths(&text).unwrap(), v);
}

#[test]
fn adds_completed_once() {
    let done = add_completed(strings(&["/a"]), "/b");
    assert_eq!(done, strings(&["/a", "/b"]));
    let again = add_completed(done.clone(), "/b");
    assert_eq!(again, done);
}

#[test]
fn records_completed_paths() {
    assert_eq!(record_completed(Some("[]"), "/home"), "[\"/home\"]");
    assert_eq!(record_completed(Some("[\"/home\"]"), "/home"), "[\"/home\"]");
    assert_eq!(record_completed(Some("[\"/home\"]"), "/var"), "[\"/home\",\"/var\"]");
    assert_eq!(record_completed(Some("garbage"), "/var"), "[\"/var\"]");
    assert_eq!(record_completed(None, "/opt"), "[\"/opt\"]");
}

#[test]
fn remaining_keeps_order() {
    let all = strings(&["/home", "/var", "/opt"]);
    assert_eq!(remaining_paths(&all, &strings(&["/home"])), strings(&["/var", "/opt"]));
    assert_eq!(remaining_paths(&all, &strings(&[])), all);
    assert!(remaining_paths(&all, &strings(&["/opt", "/home", "/var"])).is_empty());
}

#[test]
fn plans_from_lists() {
    let all = strings(&["/home", "/var", "/opt"]);
    match plan_from_lists(3, &all, &strings(&["/home"])) {
        ResumePlan::Continue { scan_id, remaining, total } => {
            assert_eq!(scan_id, 3);
            assert_eq!(remaining, strings(&["/var", "/opt"]));
            assert_eq!(total, 3);
        }
        ResumePlan::Fresh { .. } => panic!("should continue"),
    }
    match plan_from_lists(3, &all, &all) {
        ResumePlan::Fresh { reason } => assert_eq!(reason, FreshReason::AlreadyComplete { scan_id: 3 }),
        ResumePlan::Continue { .. } => panic!("nothing remains"),
    }
}

fn interrupted(id: i64, all: &str, done: &str) -> Option<InterruptedScan> {
    Some(InterruptedScan { id, scan_paths: all.to_string(), completed_paths: done.to_string() })
}

#[test]
fn plans_resume() {
    match plan_resume(false, interrupted(3, "[\"/a\"]", "[]")).unwrap() {
        ResumePlan::Fresh { reason } => assert_eq!(reason, FreshReason::NotRequested),
        _ => panic!("no resume asked for"),
    }
    match plan_resume(true, None).unwrap() {
        ResumePlan::Fresh { reason } => assert_eq!(reason, FreshReason::NothingInterrupted),
        _ => panic!("nothing to resume"),
    }
    match plan_resume(true, interrupted(3, "[\"/home\",\"/var\",\"/opt\"]", "[\"/home\"]")).unwrap() {
        ResumePlan::Continue { scan_id, remaining, total } => {
            assert_eq!(scan_id, 3);
            assert_eq!(remaining, strings(&["/var", "/opt"]));
            assert_eq!(total, 3);
        }
        _ => panic!("should resume"),
    }
    match plan_resume(true, interrupted(5, "[\"/a\"]", "[\"/a\"]")).unwrap() {
        ResumePlan::Fresh { reason } => assert_eq!(reason, FreshReason::AlreadyComplete { scan_id: 5 }),
        _ => panic!("already complete"),
    }
    assert!(plan_resume(true, interrupted(5, "{", "[]")).is_err());
    assert!(plan_resume(true, interrupted(5, "[]", "nope")).is_err());
}
