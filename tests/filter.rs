use ssync::filter::{OperateDirection, Pattern, SyncContext, SyncPath};

fn patterns(list: &[&str]) -> Vec<Pattern> {
    list.iter().map(|p| Pattern::new(p.to_string()).ok().unwrap()).collect()
}

fn side(allow: &[&str], exclude: &[&str]) -> SyncPath {
    SyncPath { path: "/tmp".to_string(), allow: patterns(allow), exclude: patterns(exclude) }
}

#[test]
fn allow_list_admits_only_matches() {
    let s = side(&["\\.txt$"], &[]);
    assert!(s.accepts("/data/a.txt"));
    assert!(!s.accepts("/data/b.log"));
}

#[test]
fn allow_list_overrides_exclusions() {
    let s = side(&["\\.txt$"], &["a"]);
    assert!(s.accepts("/data/a.txt"));
    assert!(!s.accepts("/data/b.log"));
}

#[test]
fn exclusions_reject_matches() {
    let s = side(&[], &["^/tmp/skip"]);
    assert!(!s.accepts("/tmp/skip/x"));
    assert!(s.accepts("/tmp/keep/x"));
}

#[test]
fn no_patterns_admit_everything() {
    let s = side(&[], &[]);
    assert!(s.accepts("/anything/at/all"));
}

#[test]
fn patterns_are_searched_not_anchored() {
    let p = Pattern::new("keep".to_string()).ok().unwrap();
    assert!(p.is_match("/tmp/keep/x"));
    assert!(!p.is_match("/tmp/other/x"));
    assert_eq!(p.as_str(), "keep");
}

#[test]
fn invalid_pattern_is_an_error() {
    let e = Pattern::new("(".to_string()).err().unwrap();
    assert_eq!(e.pattern, "(");
}

#[test]
fn each_side_uses_its_own_patterns() {
    let ctx = SyncContext { from: side(&["\\.txt$"], &[]), to: side(&[], &["\\.txt$"]), recursive: true };
    assert!(ctx.check_include_and_exclude("/x/a.txt", &OperateDirection::From));
    assert!(!ctx.check_include_and_exclude("/x/a.txt", &OperateDirection::To));
    assert!(!ctx.check_include_and_exclude("/x/b.log", &OperateDirection::From));
    assert!(ctx.check_include_and_exclude("/x/b.log", &OperateDirection::To));
}
