use std::path::Path;
use todo::storage::{write_tasks, FileWrite, StorageConfig, StorageError, TaskStorage};
use todo::{storage, task};

fn test_storage(filename: &str) -> storage::TaskStorage {
    storage::TaskStorage::with_config(storage::StorageConfig {
        filename: String::from(filename),
        dirname: String::from("./test_files"),
    })
}

fn file_with(entries: &[&str]) -> String {
    let s = test_storage("todo.txt");
    let mut file = String::new();
    for entry in entries {
        s.add(entry).apply(&mut file);
    }
    file
}

fn entries_of(tasks: &[task::Task]) -> Vec<(String, task::Status)> {
    tasks.iter().map(|t| (t.entry.clone(), t.status)).collect()
}

fn open(entry: &str) -> (String, task::Status) {
    (String::from(entry), task::Status::Unchecked)
}

fn done(entry: &str) -> (String, task::Status) {
    (String::from(entry), task::Status::Checked)
}

#[test]
fn check_storage_filepath() {
    let config = storage::StorageConfig {
        filename: String::from("todo.txt"),
        dirname: String::from("./test_files"),
    };

    let s = storage::TaskStorage::with_config(config);
    assert_eq!(s.config.file(), "./test_files/todo.txt");
    assert!(s.get_all("").is_empty());
}

#[test]
fn check_storage_can_parse_todo_file() {
    let config = storage::StorageConfig {
        filename: String::from("another_todo.txt"),
        dirname: String::from("./test_files"),
    };

    let s = storage::TaskStorage::with_config(config);
    assert_eq!(s.config.file(), "./test_files/another_todo.txt");
    let tasks = s.get_all("- [ ] important task\n- [x] another important task\n");
    assert_eq!(tasks.len(), 2);
    assert_eq!(tasks[0].entry, "important task");
    assert_eq!(tasks[0].status, task::Status::Unchecked);
    assert_eq!(tasks[1].entry, "another important task");
    assert_eq!(tasks[1].status, task::Status::Checked);
}

#[test]
fn check_storage_can_add() {
    let s = test_storage("todo_add.txt");
    let mut file = String::new();
    let tasks = s.get_all(&file);
    assert_eq!(tasks.len(), 0);
    s.add("floufen").apply(&mut file);
    let tasks = s.get_all(&file);
    assert_eq!(tasks.len(), 1);
    assert_eq!(tasks[0].entry, "floufen");
    assert_eq!(tasks[0].status, task::Status::Unchecked);
}

#[test]
fn check_storage_can_update() {
    let s = test_storage("todo_update.txt");
    let mut file = String::new();
    let tasks = s.get_all(&file);
    assert_eq!(tasks.len(), 0);
    s.add("floufen").apply(&mut file);
    s.add("ploupen").apply(&mut file);
    let tasks = s.get_all(&file);
    assert_eq!(tasks.len(), 2);
    assert_eq!(tasks[0].entry, "floufen");
    assert_eq!(tasks[0].status, task::Status::Unchecked);
    assert_eq!(tasks[1].entry, "ploupen");
    assert_eq!(tasks[1].status, task::Status::Unchecked);
    s.update(&file, 2, "ploupen 2").unwrap().apply(&mut file);
    let tasks = s.get_all(&file);
    assert_eq!(tasks.len(), 2);
    assert_eq!(tasks[0].entry, "floufen");
    assert_eq!(tasks[0].status, task::Status::Unchecked);
    assert_eq!(tasks[1].entry, "ploupen 2");
    assert_eq!(tasks[1].status, task::Status::Unchecked);
}

#[test]
fn check_storage_can_remove() {
    let s = test_storage("todo_remove.txt");
    let mut file = String::new();
    let tasks = s.get_all(&file);
    assert_eq!(tasks.len(), 0);
    s.add("floufen").apply(&mut file);
    s.add("ploupen").apply(&mut file);
    s.add("ibaden").apply(&mut file);
    let tasks = s.get_all(&file);
    assert_eq!(tasks.len(), 3);
    assert_eq!(tasks[0].entry, "floufen");
    assert_eq!(tasks[0].status, task::Status::Unchecked);
    assert_eq!(tasks[1].entry, "ploupen");
    assert_eq!(tasks[1].status, task::Status::Unchecked);
    assert_eq!(tasks[2].entry, "ibaden");
    assert_eq!(tasks[2].status, task::Status::Unchecked);
    s.remove(&file, 2).unwrap().apply(&mut file);
    let tasks = s.get_all(&file);
    assert_eq!(tasks.len(), 2);
    assert_eq!(tasks[0].entry, "floufen");
    assert_eq!(tasks[0].status, task::Status::Unchecked);
    assert_eq!(tasks[1].entry, "ibaden");
    assert_eq!(tasks[1].status, task::Status::Unchecked);
}

#[test]
fn check_storage_can_check_uncheck() {
    let s = test_storage("todo_check.txt");
    let mut file = String::new();
    let tasks = s.get_all(&file);
    assert_eq!(tasks.len(), 0);
    s.add("floufen").apply(&mut file);
    s.add("ploupen").apply(&mut file);
    s.add("ibaden").apply(&mut file);
    s.check(&file, 2).unwrap().apply(&mut file);
    let tasks = s.get_all(&file);
    assert_eq!(tasks.len(), 3);
    assert_eq!(tasks[0].entry, "floufen");
    assert_eq!(tasks[0].status, task::Status::Unchecked);
    assert_eq!(tasks[1].entry, "ploupen");
    assert_eq!(tasks[1].status, task::Status::Checked);
    assert_eq!(tasks[2].entry, "ibaden");
    assert_eq!(tasks[2].status, task::Status::Unchecked);
    s.uncheck(&file, 2).unwrap().apply(&mut file);
    let tasks = s.get_all(&file);
    assert_eq!(tasks.len(), 3);
    assert_eq!(tasks[0].entry, "floufen");
    assert_eq!(tasks[0].status, task::Status::Unchecked);
    assert_eq!(tasks[1].entry, "ploupen");
    assert_eq!(tasks[1].status, task::Status::Unchecked);
    assert_eq!(tasks[2].entry, "ibaden");
    assert_eq!(tasks[2].status, task::Status::Unchecked);
}

#[test]
fn file_joins_directory_and_name() {
    let path = |dirname: &str, filename: &str| {
        StorageConfig { filename: String::from(filename), dirname: String::from(dirname) }.file()
    };
    assert_eq!(path("/home/alice/.local/share", "todo.txt"), "/home/alice/.local/share/todo.txt");
    assert_eq!(path("/tmp/", "todo.txt"), "/tmp/todo.txt");
    assert_eq!(path("", "todo.txt"), "todo.txt");
    assert_eq!(path("/", "todo.txt"), "/todo.txt");
    assert_eq!(path("dir", "sub/list.txt"), "dir/sub/list.txt");
    assert_eq!(path("dir", ""), "dir/");
    assert_eq!(path("", ""), "");
    assert_eq!(path("répertoire", "tâches.txt"), "répertoire/tâches.txt");
}

#[test]
fn file_takes_a_rooted_name_as_it_is() {
    let config = StorageConfig {
        filename: String::from("/var/lib/todo.txt"),
        dirname: String::from("/home/alice"),
    };
    assert_eq!(config.file(), "/var/lib/todo.txt");
}

#[test]
fn file_agrees_with_std_paths() {
    if std::path::MAIN_SEPARATOR != '/' {
        return;
    }
    for dirname in ["", "/", "/tmp", "/tmp/", "./test_files", "a/b", "a//", "é"] {
        for filename in ["todo.txt", "", "/abs.txt", "sub/list.txt", "é.txt"] {
            let config = StorageConfig {
                filename: String::from(filename),
                dirname: String::from(dirname),
            };
            let expected = Path::new(dirname).join(filename);
            assert_eq!(config.file(), expected.to_str().unwrap(), "{:?} {:?}", dirname, filename);
        }
    }
}

#[test]
fn in_data_dir_names_the_default_file() {
    let config = StorageConfig::in_data_dir(Some(String::from("/home/alice/.local/share")));
    let config = config.ok().unwrap();
    assert_eq!(config.filename, "todo.txt");
    assert_eq!(config.dirname, "/home/alice/.local/share");
    assert_eq!(config.file(), "/home/alice/.local/share/todo.txt");
}

#[test]
fn in_data_dir_fails_without_a_directory() {
    match StorageConfig::in_data_dir(None) {
        Err(e) => assert_eq!(e, StorageError::NoDataDir),
        Ok(_) => panic!("a configuration without a directory"),
    }
}

#[test]
fn new_uses_the_platform_data_dir() {
    match TaskStorage::new() {
        Ok(s) => {
            assert_eq!(s.config.filename, "todo.txt");
            assert!(s.config.file().ends_with("todo.txt"));
        }
        Err(e) => assert_eq!(e, StorageError::NoDataDir),
    }
    match StorageConfig::platform_default() {
        Ok(c) => assert_eq!(c.filename, "todo.txt"),
        Err(e) => assert_eq!(e, StorageError::NoDataDir),
    }
}

#[test]
fn add_appends_one_unchecked_line() {
    let s = test_storage("todo.txt");
    assert_eq!(s.add("buy milk"), FileWrite::Append(String::from("- [ ] buy milk\n")));
    assert_eq!(s.add(""), FileWrite::Append(String::from("- [ ] \n")));
}

#[test]
fn add_to_an_empty_file() {
    let s = test_storage("todo.txt");
    let mut file = String::new();
    s.add("buy milk").apply(&mut file);
    assert_eq!(file, "- [ ] buy milk\n");
    assert_eq!(entries_of(&s.get_all(&file)), vec![open("buy milk")]);
}

#[test]
fn add_leaves_what_the_file_held() {
    let s = test_storage("todo.txt");
    let before = "- [x] a\nsome note\n\n- [ ] b\n";
    let mut file = String::from(before);
    s.add("c").apply(&mut file);
    assert!(file.starts_with(before));
    assert_eq!(&file[before.len()..], "- [ ] c\n");
    assert_eq!(entries_of(&s.get_all(&file)), vec![done("a"), open("b"), open("c")]);
}

#[test]
fn apply_appends_or_replaces() {
    let mut file = String::from("old\n");
    FileWrite::Append(String::from("new\n")).apply(&mut file);
    assert_eq!(file, "old\nnew\n");
    FileWrite::Rewrite(String::from("other\n")).apply(&mut file);
    assert_eq!(file, "other\n");
    FileWrite::Rewrite(String::new()).apply(&mut file);
    assert_eq!(file, "");
    FileWrite::Append(String::new()).apply(&mut file);
    assert_eq!(file, "");
}

#[test]
fn write_tasks_writes_each_task_on_its_line() {
    let tasks = vec![
        task::Task::new("a"),
        task::Task::new_with_status("b", task::Status::Checked),
        task::Task::new(""),
    ];
    let text = "- [ ] a\n- [x] b\n- [ ] \n";
    assert_eq!(write_tasks(&tasks, false), FileWrite::Rewrite(String::from(text)));
    assert_eq!(write_tasks(&tasks, true), FileWrite::Append(String::from(text)));
    assert_eq!(write_tasks(&[], false), FileWrite::Rewrite(String::new()));
    assert_eq!(write_tasks(&[], true), FileWrite::Append(String::new()));
}

#[test]
fn rewriting_twice_gives_the_same_file() {
    let s = test_storage("todo.txt");
    let tasks = s.get_all("- [ ] a\n- [x] b\n- [ ] c\n");
    let first = write_tasks(&tasks, false);
    let second = write_tasks(&tasks, false);
    assert_eq!(first, second);
    let mut file = String::from("something else\n");
    first.apply(&mut file);
    let after_first = file.clone();
    second.apply(&mut file);
    assert_eq!(file, after_first);
    assert_eq!(file, "- [ ] a\n- [x] b\n- [ ] c\n");
}

#[test]
fn get_all_reads_tasks_in_file_order() {
    let s = test_storage("todo.txt");
    let tasks = s.get_all("- [x] first\n- [ ] second\n- [X] third\n");
    assert_eq!(entries_of(&tasks), vec![done("first"), open("second"), done("third")]);
}

#[test]
fn get_all_reads_a_last_line_without_line_feed() {
    let s = test_storage("todo.txt");
    assert_eq!(entries_of(&s.get_all("- [ ] a\n- [x] b")), vec![open("a"), done("b")]);
}

#[test]
fn get_all_reads_lines_that_end_in_cr_lf() {
    let s = test_storage("todo.txt");
    assert_eq!(entries_of(&s.get_all("- [ ] a\r\n- [x] b\r\n")), vec![open("a"), done("b")]);
}

#[test]
fn get_all_skips_malformed_and_blank_lines() {
    let s = test_storage("todo.txt");
    let file = "- [ ] a\nnot a task\n\n- [x] b\n  - [ ] indented\n- [ ]\n";
    assert_eq!(entries_of(&s.get_all(file)), vec![open("a"), done("b")]);
    assert!(s.get_all("not a task\n").is_empty());
    assert!(s.get_all("\n\n\n").is_empty());
}

#[test]
fn malformed_lines_are_gone_after_a_rewrite() {
    let s = test_storage("todo.txt");
    let mut file = String::from("- [ ] a\nnot a task\n- [ ] b\n");
    s.check(&file, 2).unwrap().apply(&mut file);
    assert_eq!(file, "- [ ] a\n- [x] b\n");
    assert_eq!(entries_of(&s.get_all(&file)), vec![open("a"), done("b")]);
}

#[test]
fn update_replaces_the_entry_and_keeps_the_status() {
    let s = test_storage("todo.txt");
    let file = "- [ ] a\n- [x] b\n- [ ] c\n";
    assert_eq!(
        s.update(file, 2, "bee"),
        Ok(FileWrite::Rewrite(String::from("- [ ] a\n- [x] bee\n- [ ] c\n")))
    );
    assert_eq!(
        s.update(file, 1, ""),
        Ok(FileWrite::Rewrite(String::from("- [ ] \n- [x] b\n- [ ] c\n")))
    );
    assert_eq!(
        s.update(file, 3, "- [x] c"),
        Ok(FileWrite::Rewrite(String::from("- [ ] a\n- [x] b\n- [ ] - [x] c\n")))
    );
}

#[test]
fn check_and_uncheck_set_the_status_and_keep_the_entry() {
    let s = test_storage("todo.txt");
    let file = "- [ ] a\n- [x] b\n- [?] c\n";
    assert_eq!(
        s.check(file, 1),
        Ok(FileWrite::Rewrite(String::from("- [x] a\n- [x] b\n- [x] c\n")))
    );
    assert_eq!(
        s.check(file, 2),
        Ok(FileWrite::Rewrite(String::from("- [ ] a\n- [x] b\n- [x] c\n")))
    );
    assert_eq!(
        s.uncheck(file, 2),
        Ok(FileWrite::Rewrite(String::from("- [ ] a\n- [ ] b\n- [x] c\n")))
    );
    assert_eq!(
        s.uncheck(file, 3),
        Ok(FileWrite::Rewrite(String::from("- [ ] a\n- [x] b\n- [ ] c\n")))
    );
}

#[test]
fn remove_takes_one_task_out() {
    let s = test_storage("todo.txt");
    let file = "- [ ] a\n- [x] b\n- [ ] c\n";
    assert_eq!(s.remove(file, 1), Ok(FileWrite::Rewrite(String::from("- [x] b\n- [ ] c\n"))));
    assert_eq!(s.remove(file, 2), Ok(FileWrite::Rewrite(String::from("- [ ] a\n- [ ] c\n"))));
    assert_eq!(s.remove(file, 3), Ok(FileWrite::Rewrite(String::from("- [ ] a\n- [x] b\n"))));
    assert_eq!(s.remove("- [ ] only\n", 1), Ok(FileWrite::Rewrite(String::new())));
}

#[test]
fn index_counts_tasks_not_lines() {
    let s = test_storage("todo.txt");
    let file = "heading\n- [ ] a\n\n- [ ] b\n";
    assert_eq!(s.check(file, 2), Ok(FileWrite::Rewrite(String::from("- [ ] a\n- [x] b\n"))));
    assert_eq!(s.remove(file, 1), Ok(FileWrite::Rewrite(String::from("- [ ] b\n"))));
    assert_eq!(s.check(file, 3), Err(StorageError::IndexOutOfRange { index: 3 }));
}

#[test]
fn other_tasks_stay_when_one_is_changed() {
    let s = test_storage("todo.txt");
    let start = file_with(&["a", "b", "c", "d"]);
    for index in 1..=4 {
        let before = entries_of(&s.get_all(&start));

        let mut file = start.clone();
        s.update(&file, index, "changed").unwrap().apply(&mut file);
        let after = entries_of(&s.get_all(&file));
        assert_eq!(after.len(), before.len());
        for j in 0..before.len() {
            if j + 1 == index as usize {
                assert_eq!(after[j], open("changed"));
            } else {
                assert_eq!(after[j], before[j]);
            }
        }

        let mut file = start.clone();
        s.check(&file, index).unwrap().apply(&mut file);
        let after = entries_of(&s.get_all(&file));
        assert_eq!(after.len(), before.len());
        for j in 0..before.len() {
            if j + 1 == index as usize {
                assert_eq!(after[j], (before[j].0.clone(), task::Status::Checked));
            } else {
                assert_eq!(after[j], before[j]);
            }
        }
        s.uncheck(&file, index).unwrap().apply(&mut file);
        assert_eq!(entries_of(&s.get_all(&file)), before);
    }
}

#[test]
fn remove_moves_the_later_tasks_up() {
    let s = test_storage("todo.txt");
    let start = file_with(&["a", "b", "c", "d"]);
    let before = entries_of(&s.get_all(&start));
    for index in 1..=4usize {
        let mut file = start.clone();
        s.remove(&file, index as i32).unwrap().apply(&mut file);
        let after = entries_of(&s.get_all(&file));
        assert_eq!(after.len(), before.len() - 1);
        for j in 0..after.len() {
            if j + 1 < index {
                assert_eq!(after[j], before[j]);
            } else {
                assert_eq!(after[j], before[j + 1]);
            }
        }
    }
}

#[test]
fn three_tasks_remove_the_second() {
    let s = test_storage("todo.txt");
    let mut file = file_with(&["first", "second", "third"]);
    s.remove(&file, 2).unwrap().apply(&mut file);
    assert_eq!(entries_of(&s.get_all(&file)), vec![open("first"), open("third")]);
    assert_eq!(s.to_string(&file, true), "1. - [ ] first\n2. - [ ] third\n");
}

#[test]
fn out_of_range_index_is_an_error() {
    let s = test_storage("todo.txt");
    let file = "- [ ] a\n- [x] b\n";
    for index in [0, -1, 3, 4, i32::MIN, i32::MAX] {
        let err = Err(StorageError::IndexOutOfRange { index });
        assert_eq!(s.update(file, index, "x"), err);
        assert_eq!(s.check(file, index), err);
        assert_eq!(s.uncheck(file, index), err);
        assert_eq!(s.remove(file, index), err);
    }
    for index in [1, 2] {
        assert!(s.update(file, index, "x").is_ok());
        assert!(s.check(file, index).is_ok());
        assert!(s.uncheck(file, index).is_ok());
        assert!(s.remove(file, index).is_ok());
    }
}

#[test]
fn no_index_is_in_range_of_an_empty_file() {
    let s = test_storage("todo.txt");
    for file in ["", "no task here\n"] {
        for index in [-1, 0, 1, 2] {
            let err = Err(StorageError::IndexOutOfRange { index });
            assert_eq!(s.update(file, index, "x"), err);
            assert_eq!(s.check(file, index), err);
            assert_eq!(s.uncheck(file, index), err);
            assert_eq!(s.remove(file, index), err);
        }
    }
}

#[test]
fn to_string_numbers_the_tasks() {
    let s = test_storage("todo.txt");
    let file = "- [ ] a\n- [x] b\n- [ ] c\n";
    assert_eq!(s.to_string(file, true), "1. - [ ] a\n2. - [x] b\n3. - [ ] c\n");
    assert_eq!(s.to_string(file, false), "1. - [ ] a\n3. - [ ] c\n");
    assert_eq!(s.to_string("", true), "");
    assert_eq!(s.to_string("", false), "");
}

#[test]
fn to_string_without_show_all_leaves_checked_tasks_out() {
    let s = test_storage("todo.txt");
    assert_eq!(s.to_string("- [x] a\n- [x] b\n", false), "");
    assert_eq!(s.to_string("- [x] a\n- [x] b\n", true), "1. - [x] a\n2. - [x] b\n");
    assert_eq!(s.to_string("- [ ] a\n- [ ] b\n", false), s.to_string("- [ ] a\n- [ ] b\n", true));
    assert_eq!(s.to_string("- [!] a\n- [ ] b\n", false), "2. - [ ] b\n");
}

#[test]
fn to_string_writes_indices_of_more_than_one_digit() {
    let s = test_storage("todo.txt");
    let mut file = String::new();
    for i in 1..=12 {
        s.add(&format!("task {}", i)).apply(&mut file);
    }
    s.check(&file, 11).unwrap().apply(&mut file);
    let all = s.to_string(&file, true);
    let lines: Vec<&str> = all.lines().collect();
    assert_eq!(lines.len(), 12);
    assert_eq!(lines[0], "1. - [ ] task 1");
    assert_eq!(lines[8], "9. - [ ] task 9");
    assert_eq!(lines[9], "10. - [ ] task 10");
    assert_eq!(lines[10], "11. - [x] task 11");
    assert_eq!(lines[11], "12. - [ ] task 12");
    let open_only = s.to_string(&file, false);
    let lines: Vec<&str> = open_only.lines().collect();
    assert_eq!(lines.len(), 11);
    assert_eq!(lines[9], "10. - [ ] task 10");
    assert_eq!(lines[10], "12. - [ ] task 12");
}

#[test]
fn two_tasks_check_the_first() {
    let s = test_storage("todo.txt");
    let mut file = String::new();
    s.add("a").apply(&mut file);
    s.add("b").apply(&mut file);
    s.check(&file, 1).unwrap().apply(&mut file);
    assert_eq!(s.to_string(&file, false), "2. - [ ] b\n");
    assert_eq!(s.to_string(&file, true), "1. - [x] a\n2. - [ ] b\n");
}

#[test]
fn to_string_skips_malformed_lines() {
    let s = test_storage("todo.txt");
    let file = "# my list\n- [ ] a\nnot a task\n- [x] b\n";
    assert_eq!(s.to_string(file, true), "1. - [ ] a\n2. - [x] b\n");
}

#[test]
fn an_entry_of_two_lines_is_written_as_given() {
    let s = test_storage("todo.txt");
    let mut file = String::from("- [ ] a\n");
    s.update(&file, 1, "one\n- [x] two").unwrap().apply(&mut file);
    assert_eq!(file, "- [ ] one\n- [x] two\n");
    assert_eq!(entries_of(&s.get_all(&file)), vec![open("one"), done("two")]);
}

#[test]
fn a_carriage_return_at_the_end_of_an_entry_is_lost_on_reading() {
    let s = test_storage("todo.txt");
    let mut file = String::from("- [ ] a\r\r\n- [ ] b\n");
    assert_eq!(entries_of(&s.get_all(&file)), vec![open("a\r"), open("b")]);
    s.check(&file, 2).unwrap().apply(&mut file);
    assert_eq!(file, "- [ ] a\r\n- [x] b\n");
    assert_eq!(entries_of(&s.get_all(&file)), vec![open("a"), done("b")]);
}
