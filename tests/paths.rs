use ssync::path::{check_abs, check_name, check_rel, check_under, file_name, join, parent, place};
use ssync::filter::{OperateDirection, Pattern, SyncContext, SyncPath};
use ssync::tree::{DirectoryInfo, EntryKind, FileInfo};

#[test]
fn names_and_parents() {
    assert_eq!(file_name("/a/b/c.txt"), "c.txt");
    assert_eq!(file_name("plain"), "plain");
    assert_eq!(parent("/a/b/c.txt"), "/a/b");
    assert_eq!(parent("/a"), "/");
    assert_eq!(parent("a"), "");
    assert_eq!(join("/a", "b"), "/a/b");
    assert_eq!(place("/root", ""), "/root");
    assert_eq!(place("/root", "x/y"), "/root/x/y");
}

#[test]
fn clean_paths() {
    assert!(check_name("a.txt"));
    assert!(check_name("..."));
    assert!(!check_name(".."));
    assert!(!check_name("."));
    assert!(!check_name(""));
    assert!(!check_name("a/b"));
    assert!(check_rel("a/b/c"));
    assert!(!check_rel("a//b"));
    assert!(!check_rel("a/../b"));
    assert!(check_abs("/a/b"));
    assert!(check_abs("/"));
    assert!(!check_abs("//a"));
    assert!(check_under("/a", "/"));
    assert!(!check_under("//a", "/"));
    assert_eq!(join("/", "a"), "/a");
    assert!(!check_abs("a/b"));
    assert!(check_under("/a/b/c", "/a"));
    assert!(check_under("/a", "/a"));
    assert!(!check_under("/ab", "/a"));
}

#[test]
fn relative_paths_of_entries() {
    let f = FileInfo::new("c.txt".to_string(), "/r".to_string(), "/r/x/y".to_string());
    assert_eq!(f.absolute_dir_with_self(), "/r/x/y/c.txt");
    assert_eq!(f.relative_path(), "x/y/c.txt");
    assert_eq!(f.relative_path_without_file(), "x/y");
    let top = FileInfo::new("c.txt".to_string(), "/r".to_string(), "/r".to_string());
    assert_eq!(top.relative_path(), "c.txt");
    assert_eq!(top.relative_path_without_file(), "");
    let d = DirectoryInfo::create("/r".to_string(), "/r/x/y".to_string());
    assert_eq!(d.name(), "y");
    assert_eq!(d.relative_path(), "x/y");
    let e = d.to_file_info();
    assert_eq!(e.name, "y");
    assert_eq!(e.absolute_dir, "/r/x");
    assert_eq!(e.root, "/r");
}

#[test]
fn loader_classifies_entries() {
    let txt = || vec![Pattern::new("\\.txt$".to_string()).ok().unwrap()];
    let ctx = SyncContext {
        from: SyncPath { path: "/s".to_string(), allow: txt(), exclude: vec![] },
        to: SyncPath { path: "/d".to_string(), allow: vec![], exclude: txt() },
        recursive: true,
    };
    let from = OperateDirection::From;
    assert!(DirectoryInfo::classify(&ctx, &from, "/s/a.txt", false, true) == EntryKind::File);
    assert!(DirectoryInfo::classify(&ctx, &from, "/s/b.log", false, true) == EntryKind::Skipped);
    assert!(DirectoryInfo::classify(&ctx, &from, "/s/d.txt", true, true) == EntryKind::Subtree);
    assert!(DirectoryInfo::classify(&ctx, &from, "/s/d.txt", true, false) == EntryKind::Leaf);
    let to = OperateDirection::To;
    assert!(DirectoryInfo::classify(&ctx, &to, "/d/a.txt", false, true) == EntryKind::Skipped);
    assert!(DirectoryInfo::classify(&ctx, &to, "/d/b.log", false, true) == EntryKind::File);
}

#[test]
fn loader_records_entries() {
    let mut d = DirectoryInfo::create("/r".to_string(), "/r".to_string());
    d.add_file("/r/a.txt");
    d.add_leaf("/r/sub".to_string());
    assert_eq!(d.files[0].name, "a.txt");
    assert_eq!(d.files[0].absolute_dir, "/r");
    assert_eq!(d.files[0].root, "/r");
    assert_eq!(d.sub_dirs[0].absolute_dir, "/r/sub");
    assert_eq!(d.sub_dirs[0].name(), "sub");
    assert!(d.is_well_formed());
}

#[test]
fn entries_right_below_the_top_round_trip() {
    let d = DirectoryInfo::create("/".to_string(), "/a".to_string());
    let e = d.to_file_info();
    assert_eq!(e.absolute_dir, "/");
    assert_eq!(e.name, "a");
    assert_eq!(e.absolute_dir_with_self(), "/a");
    assert_eq!(e.relative_path(), "a");
    assert_eq!(d.relative_path(), "a");
    let mut top = DirectoryInfo::create("/".to_string(), "/".to_string());
    top.add_file("/x");
    assert_eq!(top.files[0].absolute_dir_with_self(), "/x");
    assert_eq!(top.files[0].relative_path(), "x");
    top.add_sub_dir(d);
    assert!(top.is_well_formed());
}

#[test]
fn loader_step_records_only_admitted_entries() {
    let txt = || vec![Pattern::new("\\.txt$".to_string()).ok().unwrap()];
    let ctx = SyncContext {
        from: SyncPath { path: "/s".to_string(), allow: txt(), exclude: vec![] },
        to: SyncPath { path: "/d".to_string(), allow: vec![], exclude: vec![] },
        recursive: false,
    };
    let mut d = DirectoryInfo::create("/s".to_string(), "/s".to_string());
    let from = OperateDirection::From;
    assert!(d.take_entry(&ctx, &from, "/s/a.txt".to_string(), false, false) == EntryKind::File);
    assert!(d.take_entry(&ctx, &from, "/s/b.log".to_string(), false, false) == EntryKind::Skipped);
    assert!(d.take_entry(&ctx, &from, "/s/c.txt".to_string(), true, false) == EntryKind::Leaf);
    assert!(d.take_entry(&ctx, &from, "/s/e.txt".to_string(), true, true) == EntryKind::Subtree);
    assert_eq!(d.files.len(), 1);
    assert_eq!(d.files[0].name, "a.txt");
    assert_eq!(d.sub_dirs.len(), 1);
    assert_eq!(d.sub_dirs[0].absolute_dir, "/s/c.txt");
}
