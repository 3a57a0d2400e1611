use ssync::decision::{check_has_updated, is_same_file, DecisionResult, DecisionTask, FileAction};
use ssync::tree::{DirectoryInfo, FileInfo};

fn dir(root: &str, abs: &str) -> DirectoryInfo {
    DirectoryInfo::create(root.to_string(), abs.to_string())
}

fn file(root: &str, abs_dir: &str, name: &str) -> FileInfo {
    FileInfo::new(name.to_string(), root.to_string(), abs_dir.to_string())
}

fn source_tree() -> DirectoryInfo {
    let mut top = dir("/src", "/src");
    top.files.push(file("/src", "/src", "a.txt"));
    let mut sub = dir("/src", "/src/sub");
    sub.files.push(file("/src", "/src/sub", "b.txt"));
    top.sub_dirs.push(sub);
    top
}

fn count_all(r: &DecisionResult) -> (usize, usize, usize) {
    let n = |gs: &Vec<ssync::decision::DecisionGroup>| gs.iter().map(|g| g.items.len()).sum();
    (n(&r.add_items), n(&r.del_items), n(&r.update_items))
}

#[test]
fn new_tree_is_added_under_destination_root() {
    let from = source_tree();
    let to = dir("/dst", "/dst");
    assert!(from.is_well_formed());
    assert!(to.is_well_formed());
    let (result, cands) = DecisionTask::new(&from, &to, true).make_decision();
    assert!(cands.is_empty());
    assert_eq!(count_all(&result), (2, 0, 0));
    let mut dests: Vec<String> = result
        .add_items
        .iter()
        .flat_map(|g| g.items.iter())
        .map(|it| {
            assert!(it.action == FileAction::Add);
            it.dest_file_info.absolute_dir_with_self()
        })
        .collect();
    dests.sort();
    assert_eq!(dests, vec!["/dst/a.txt".to_string(), "/dst/sub".to_string()]);
    assert_eq!(result.total_count(), 2);
    assert!(!result.is_empty());
}

#[test]
fn nested_file_is_added_below_its_directory() {
    let from = source_tree();
    let mut to = dir("/dst", "/dst");
    to.sub_dirs.push(dir("/dst", "/dst/sub"));
    to.files.push(file("/dst", "/dst", "a.txt"));
    let (result, cands) = DecisionTask::new(&from, &to, true).make_decision();
    assert_eq!(count_all(&result), (1, 0, 0));
    let item = &result.add_items.iter().flat_map(|g| g.items.iter()).next().unwrap();
    assert_eq!(item.dest_file_info.absolute_dir, "/dst/sub");
    assert_eq!(item.dest_file_info.name, "b.txt");
    assert_eq!(item.src_file_info.as_ref().unwrap().absolute_dir_with_self(), "/src/sub/b.txt");
    assert_eq!(cands.len(), 1);
    assert_eq!(cands[0].src.absolute_dir_with_self(), "/src/a.txt");
    assert_eq!(cands[0].dest.absolute_dir_with_self(), "/dst/a.txt");
}

#[test]
fn same_contents_with_other_times_is_no_update() {
    let mut from = dir("/src", "/src");
    from.files.push(file("/src", "/src", "a.txt"));
    let mut to = dir("/dst", "/dst");
    to.files.push(file("/dst", "/dst", "a.txt"));
    let (mut result, cands) = DecisionTask::new(&from, &to, true).make_decision();
    assert_eq!(cands.len(), 1);
    let changed = vec![check_has_updated(b"hello", b"hello")];
    assert_eq!(changed, vec![false]);
    result.add_updates(&cands, &changed);
    assert_eq!(count_all(&result), (0, 0, 0));
    assert!(result.is_empty());
}

#[test]
fn different_contents_is_an_update() {
    let mut from = dir("/src", "/src");
    from.files.push(file("/src", "/src", "a.txt"));
    let mut to = dir("/dst", "/dst");
    to.files.push(file("/dst", "/dst", "a.txt"));
    let (mut result, cands) = DecisionTask::new(&from, &to, false).make_decision();
    let changed = vec![check_has_updated(b"hello", b"hellp")];
    result.add_updates(&cands, &changed);
    assert_eq!(count_all(&result), (0, 0, 1));
    let item = &result.update_items[0].items[0];
    assert!(item.action == FileAction::Update);
    assert_eq!(item.dest_file_info.absolute_dir_with_self(), "/dst/a.txt");
}

#[test]
fn orphan_is_deleted_once() {
    let from = dir("/src", "/src");
    let mut to = dir("/dst", "/dst");
    to.files.push(file("/dst", "/dst", "orphan.txt"));
    let (result, _) = DecisionTask::new(&from, &to, true).make_decision();
    assert_eq!(count_all(&result), (0, 1, 0));
    let item = &result.del_items.iter().flat_map(|g| g.items.iter()).next().unwrap();
    assert!(item.action == FileAction::Del);
    assert!(item.src_file_info.is_none());
    assert_eq!(item.dest_file_info.absolute_dir_with_self(), "/dst/orphan.txt");
}

#[test]
fn without_recursion_directories_are_left_alone() {
    let mut from = dir("/src", "/src");
    from.sub_dirs.push(dir("/src", "/src/only_here"));
    let mut to = dir("/dst", "/dst");
    to.sub_dirs.push(dir("/dst", "/dst/only_there"));
    let (result, _) = DecisionTask::new(&from, &to, false).make_decision();
    assert!(result.is_empty());
    let (result, _) = DecisionTask::new(&from, &to, true).make_decision();
    assert_eq!(count_all(&result), (1, 1, 0));
}

#[test]
fn mirrored_trees_decide_nothing() {
    let from = source_tree();
    let mut to = dir("/dst", "/dst");
    to.files.push(file("/dst", "/dst", "a.txt"));
    let mut sub = dir("/dst", "/dst/sub");
    sub.files.push(file("/dst", "/dst/sub", "b.txt"));
    to.sub_dirs.push(sub);
    let (mut result, cands) = DecisionTask::new(&from, &to, true).make_decision();
    assert_eq!(cands.len(), 2);
    let changed: Vec<bool> = cands.iter().map(|_| check_has_updated(b"x", b"x")).collect();
    result.add_updates(&cands, &changed);
    assert!(result.is_empty());
    assert_eq!(result.total_count(), 0);
}

#[test]
fn groups_are_keyed_by_relative_directory() {
    let from = source_tree();
    let mut to = dir("/dst", "/dst");
    to.sub_dirs.push(dir("/dst", "/dst/sub"));
    let (result, _) = DecisionTask::new(&from, &to, true).make_decision();
    let keys: Vec<&str> = result.add_items.iter().map(|g| g.dir.as_str()).collect();
    assert_eq!(keys, vec!["", "sub"]);
}

#[test]
fn byte_comparison() {
    assert!(is_same_file(b"", b""));
    assert!(is_same_file(b"abc", b"abc"));
    assert!(!is_same_file(b"abc", b"abcd"));
    assert!(!is_same_file(b"abc", b"abd"));
}

#[test]
fn merge_keeps_both_sides() {
    let from = source_tree();
    let to = dir("/dst", "/dst");
    let (mut a, _) = DecisionTask::new(&from, &to, true).make_decision();
    let (b, _) = DecisionTask::new(&from, &to, true).make_decision();
    a.merge(b);
    assert_eq!(count_all(&a), (4, 0, 0));
    assert_eq!(a.total_count(), 4);
}

#[test]
fn summary_lists_relative_paths() {
    let from = source_tree();
    let to = dir("/dst", "/dst");
    let (result, _) = DecisionTask::new(&from, &to, true).make_decision();
    assert_eq!(
        result.summary(),
        "——分析结果——\n· 新增：\n\tsub\n\ta.txt\n· 删除：\n· 更新：无\n"
    );
    assert_eq!(DecisionResult::new().summary(), "无任务需执行");
}

#[test]
fn ill_formed_trees_are_detected() {
    let mut top = dir("/src", "/src");
    top.files.push(file("/src", "/elsewhere", "a.txt"));
    assert!(!top.is_well_formed());
    let mut top = dir("/src", "/src");
    top.sub_dirs.push(dir("/src", "/src/a/b"));
    assert!(!top.is_well_formed());
    assert!(!dir("src", "src").is_well_formed());
    assert!(dir("/src", "/src/x").is_well_formed());
}

#[test]
fn added_deleted_and_shared_names_are_apart() {
    let mut from = dir("/src", "/src");
    from.files.push(file("/src", "/src", "x.txt"));
    from.files.push(file("/src", "/src", "both.txt"));
    from.sub_dirs.push(dir("/src", "/src/d"));
    let mut to = dir("/dst", "/dst");
    to.files.push(file("/dst", "/dst", "y.txt"));
    to.files.push(file("/dst", "/dst", "both.txt"));
    to.sub_dirs.push(dir("/dst", "/dst/d"));
    let (result, cands) = DecisionTask::new(&from, &to, true).make_decision();
    let names = |gs: &Vec<ssync::decision::DecisionGroup>| -> Vec<String> {
        gs.iter().flat_map(|g| g.items.iter()).map(|it| it.dest_file_info.name.clone()).collect()
    };
    assert_eq!(names(&result.add_items), vec!["x.txt".to_string()]);
    assert_eq!(names(&result.del_items), vec!["y.txt".to_string()]);
    assert_eq!(cands.len(), 1);
    assert_eq!(cands[0].dest.name, "both.txt");
    let keys: Vec<&str> = result.add_items.iter().map(|g| g.dir.as_str()).collect();
    assert_eq!(keys, vec!["", "d"]);
}

#[test]
fn updates_share_one_group_per_directory() {
    let mut from = dir("/src", "/src");
    from.files.push(file("/src", "/src", "a.txt"));
    from.files.push(file("/src", "/src", "b.txt"));
    let mut to = dir("/dst", "/dst");
    to.files.push(file("/dst", "/dst", "a.txt"));
    to.files.push(file("/dst", "/dst", "b.txt"));
    let (mut result, cands) = DecisionTask::new(&from, &to, true).make_decision();
    assert_eq!(cands.len(), 2);
    result.add_updates(&cands, &vec![true, true]);
    assert_eq!(result.update_items.len(), 1);
    assert_eq!(result.update_items[0].dir, "");
    assert_eq!(result.update_items[0].items.len(), 2);
}

#[test]
fn top_level_root_is_supported() {
    let mut from = dir("/", "/");
    from.files.push(file("/", "/", "a.txt"));
    let to = dir("/dst", "/dst");
    assert!(from.is_well_formed());
    let (result, _) = DecisionTask::new(&from, &to, true).make_decision();
    let item = &result.add_items[0].items[0];
    assert_eq!(item.src_file_info.as_ref().unwrap().absolute_dir_with_self(), "/a.txt");
    assert_eq!(item.dest_file_info.absolute_dir_with_self(), "/dst/a.txt");
}
