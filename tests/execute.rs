use ssync::decision::{DecisionTask, FileAction};
use ssync::execute::{adjust_canonicalization, DecisionExecuteTask};
use ssync::tree::{DirectoryInfo, FileInfo};

fn dir(root: &str, abs: &str) -> DirectoryInfo {
    DirectoryInfo::create(root.to_string(), abs.to_string())
}

fn file(root: &str, abs_dir: &str, name: &str) -> FileInfo {
    FileInfo::new(name.to_string(), root.to_string(), abs_dir.to_string())
}

#[test]
fn verbatim_prefix_is_removed() {
    assert_eq!(adjust_canonicalization("\\\\?\\C:\\x".to_string()), "C:\\x");
    assert_eq!(adjust_canonicalization("/plain/path".to_string()), "/plain/path");
    assert_eq!(adjust_canonicalization("\\\\?".to_string()), "\\\\?");
}

#[test]
fn progress_prefix_counts_from_the_counter() {
    let mut from = dir("/src", "/src");
    from.files.push(file("/src", "/src", "a.txt"));
    let to = dir("/dst", "/dst");
    let (result, _) = DecisionTask::new(&from, &to, true).make_decision();
    let task = DecisionExecuteTask::new(result);
    assert_eq!(task.total_count, 1);
    let mut counter: usize = 7;
    assert_eq!(task.count_and_progress_prefix(&mut counter), "7/1");
    assert_eq!(counter, 8);
    let mut top: usize = usize::MAX;
    task.count_and_progress_prefix(&mut top);
    assert_eq!(top, 0);
}

#[test]
fn additions_then_updates_then_deletions() {
    let mut from = dir("/src", "/src");
    from.files.push(file("/src", "/src", "new.txt"));
    from.files.push(file("/src", "/src", "same.txt"));
    let mut to = dir("/dst", "/dst");
    to.files.push(file("/dst", "/dst", "orphan.txt"));
    to.files.push(file("/dst", "/dst", "same.txt"));
    let (mut result, cands) = DecisionTask::new(&from, &to, true).make_decision();
    result.add_updates(&cands, &vec![true]);
    let task = DecisionExecuteTask::new(result);
    assert_eq!(task.total_count, 3);
    let ops = task.execute();
    let actions: Vec<FileAction> = ops.iter().map(|o| o.action).collect();
    assert!(actions == vec![FileAction::Add, FileAction::Update, FileAction::Del]);
    assert_eq!(ops[0].log, "0/3  Copying - /src/new.txt to /dst/new.txt");
    assert_eq!(ops[1].log, "1/3  Updating - /src/same.txt to /dst/same.txt");
    assert_eq!(ops[2].log, "2/3  Deleting - /dst/orphan.txt");
    assert_eq!(ops[0].src, "/src/new.txt");
    assert_eq!(ops[0].dest, "/dst/new.txt");
    assert_eq!(ops[2].src, "");
    assert_eq!(ops[2].dest, "/dst/orphan.txt");
}

#[test]
fn each_phase_numbers_on() {
    let mut from = dir("/src", "/src");
    from.files.push(file("/src", "/src", "a.txt"));
    let mut to = dir("/dst", "/dst");
    to.files.push(file("/dst", "/dst", "b.txt"));
    let (result, _) = DecisionTask::new(&from, &to, true).make_decision();
    let task = DecisionExecuteTask::new(result);
    let mut counter: usize = 0;
    let adds = task.execute_add_task(&mut counter);
    let ups = task.execute_update_task(&mut counter);
    let dels = task.execute_del_task(&mut counter);
    assert_eq!((adds.len(), ups.len(), dels.len()), (1, 0, 1));
    assert_eq!(counter, 2);
    assert_eq!(dels[0].log, "1/2  Deleting - /dst/b.txt");
}
