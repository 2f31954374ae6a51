use dir_cleaner::Entry;

fn file(name: &str, secs: u64) -> Entry {
    Entry::File { name: name.to_string(), created_secs: secs }
}

fn dir(name: &str, entries: Vec<Entry>) -> Entry {
    Entry::Dir { name: name.to_string(), readable: true, entries }
}

fn unreadable_dir(name: &str) -> Entry {
    Entry::Dir { name: name.to_string(), readable: false, entries: Vec::new() }
}

#[test]
fn get_dir_files() {
    let root = dir("", vec![file("text.txt", 1658579581)]);
    let files = dir_cleaner::get_dir_files("./", "text.txt", &root).unwrap();
    assert_eq!(files.len(), 1);
    assert_eq!(files[0].name, "text.txt");
    assert_eq!(files[0].folder, "./");
    assert_eq!(files[0].creation_date, "2022-07-23 12:33:01");
    assert_eq!(files[0].path().as_str(), "./text.txt");
}

#[test]
fn nested_tree_finds_exactly_matching_files() {
    let root = dir(
        "",
        vec![
            dir("a", vec![file("target.txt", 0)]),
            dir(
                "b",
                vec![file("other.txt", 0), dir("c", vec![file("target.txt", 947638923)])],
            ),
        ],
    );
    let files = dir_cleaner::get_dir_files(".", "target.txt", &root).unwrap();
    assert_eq!(files.len(), 2);
    assert_eq!(files[0].path().as_str(), "./a/target.txt");
    assert_eq!(files[0].folder, "./a");
    assert_eq!(files[0].creation_date, "1970-01-01 00:00:00");
    assert_eq!(files[1].path().as_str(), "./b/c/target.txt");
    assert_eq!(files[1].folder, "./b/c");
    assert_eq!(files[1].creation_date, "2000-01-12 01:02:03");
}

#[test]
fn own_matches_come_before_subdirectory_matches() {
    let root = dir(
        "",
        vec![
            dir("sub", vec![file("dup.txt", 10)]),
            file("dup.txt", 20),
        ],
    );
    let files = dir_cleaner::get_dir_files(".", "dup.txt", &root).unwrap();
    assert_eq!(files.len(), 2);
    assert_eq!(files[0].path().as_str(), "./dup.txt");
    assert_eq!(files[1].path().as_str(), "./sub/dup.txt");
}

#[test]
fn empty_tree_yields_empty_result() {
    let root = dir("", Vec::new());
    let files = dir_cleaner::get_dir_files(".", "test.txt", &root).unwrap();
    assert!(files.is_empty());
}

#[test]
fn tree_without_matches_yields_empty_result() {
    let root = dir(
        "",
        vec![file("a.txt", 1), dir("d", vec![file("b.txt", 2)]), file("Target.txt", 3)],
    );
    let files = dir_cleaner::get_dir_files(".", "target.txt", &root).unwrap();
    assert!(files.is_empty());
}

#[test]
fn unreadable_root_yields_error_and_no_partial_results() {
    let root = unreadable_dir("");
    assert!(dir_cleaner::get_dir_files(".", "test.txt", &root).is_err());
}

#[test]
fn root_that_is_a_file_yields_error() {
    let root = file("test.txt", 0);
    assert!(dir_cleaner::get_dir_files("./test.txt", "test.txt", &root).is_err());
}

#[test]
fn unreadable_subdirectory_fails_whole_traversal() {
    let root = dir("", vec![file("test.txt", 0), unreadable_dir("locked")]);
    assert!(dir_cleaner::get_dir_files(".", "test.txt", &root).is_err());
}

#[test]
fn directory_path_ending_in_separator_gets_no_second_separator() {
    let root = dir("", vec![file("test.txt", 0)]);
    let files = dir_cleaner::get_dir_files("./", "test.txt", &root).unwrap();
    assert_eq!(files[0].path().as_str(), "./test.txt");
}
