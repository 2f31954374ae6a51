use dir_cleaner::deletion_step;
use dir_cleaner::parse_index;
use dir_cleaner::trim_str;
use dir_cleaner::wants_keep_all;
use dir_cleaner::Action;
use dir_cleaner::File;

fn records(n: usize) -> Vec<File> {
    let mut v = Vec::new();
    let mut i = 0;
    while i < n {
        let name = format!("dup{}.txt", i);
        let path = format!("./d{}/dup{}.txt", i, i);
        let folder = format!("./d{}", i);
        v.push(File::new(&name, &folder, "1970-01-01 00:00:00", &path));
        i += 1;
    }
    v
}

#[test]
fn file_constructor() {
    let name = "test.txt";
    let folder = ".";
    let creation_date = "2022-07-23 12:33:01";
    let path = "./test.txt";

    let file = File::new(name, folder, creation_date, path);

    assert_eq!(file.name, name);
    assert_eq!(file.folder, folder);
    assert_eq!(file.creation_date, creation_date);
    assert_eq!(file.path().as_str(), path);
}

#[test]
fn info_text_lists_name_folder_and_date() {
    let file = File::new("test.txt", ".", "2022-07-23 12:33:01", "./test.txt");
    assert_eq!(
        file.info_text(),
        "\tfile name: test.txt \n\tdirectory: . \n\tcreation date: 2022-07-23 12:33:01"
    );
}

#[test]
fn trimming_console_answers() {
    assert_eq!(trim_str("  done \n").as_str(), "done");
    assert_eq!(trim_str("y\n").as_str(), "y");
    assert_eq!(trim_str("\t \r\n").as_str(), "");
    assert_eq!(trim_str("no trim needed").as_str(), "no trim needed");
}

#[test]
fn parsing_deletion_indices() {
    assert_eq!(parse_index("7"), Some(7));
    assert_eq!(parse_index("+7"), Some(7));
    assert_eq!(parse_index("0"), Some(0));
    assert_eq!(parse_index(""), None);
    assert_eq!(parse_index("+"), None);
    assert_eq!(parse_index("-1"), None);
    assert_eq!(parse_index("12a"), None);
    assert_eq!(parse_index("done"), None);
    assert_eq!(parse_index("99999999999999999999999999"), None);
}

#[test]
fn keep_all_answer_is_trimmed_exact_y() {
    assert!(wants_keep_all("y"));
    assert!(wants_keep_all(" y\n"));
    assert!(!wants_keep_all("Y"));
    assert!(!wants_keep_all("n"));
    assert!(!wants_keep_all("yes"));
}

#[test]
fn keep_all_flow_deletes_nothing() {
    let files = records(3);
    assert!(wants_keep_all("y\n"));
    // The keep-all answer ends the session before any deletion round, so
    // the working collection and every discovered file stay as they are.
    assert_eq!(files.len(), 3);
}

#[test]
fn done_ends_the_loop_without_changes() {
    let mut files = records(2);
    let a = deletion_step(&mut files, " done\n");
    assert!(matches!(a, Action::Quit));
    assert_eq!(files.len(), 2);
}

#[test]
fn non_numeric_answer_reprompts_without_changes() {
    let mut files = records(2);
    let a = deletion_step(&mut files, "two\n");
    assert!(matches!(a, Action::Reprompt));
    assert_eq!(files.len(), 2);
}

#[test]
fn out_of_range_number_halts_without_deleting() {
    let mut files = records(2);
    let a = deletion_step(&mut files, "3\n");
    assert!(matches!(a, Action::Halt));
    assert_eq!(files.len(), 2);

    let a = deletion_step(&mut files, "0\n");
    assert!(matches!(a, Action::Halt));
    assert_eq!(files.len(), 2);
}

#[test]
fn valid_index_removes_exactly_that_record_by_swap() {
    let mut files = records(3);
    let a = deletion_step(&mut files, "2\n");
    match a {
        Action::Deleted(f) => {
            assert_eq!(f.path().as_str(), "./d1/dup1.txt");
        },
        _ => panic!("expected a deletion"),
    }
    // The last record moved into the vacated slot.
    assert_eq!(files.len(), 2);
    assert_eq!(files[0].path().as_str(), "./d0/dup0.txt");
    assert_eq!(files[1].path().as_str(), "./d2/dup2.txt");

    let a = deletion_step(&mut files, "done");
    assert!(matches!(a, Action::Quit));
    assert_eq!(files.len(), 2);
}

#[test]
fn plus_signed_index_is_accepted() {
    let mut files = records(2);
    let a = deletion_step(&mut files, "+1\n");
    match a {
        Action::Deleted(f) => assert_eq!(f.path().as_str(), "./d0/dup0.txt"),
        _ => panic!("expected a deletion"),
    }
    assert_eq!(files.len(), 1);
}

#[test]
fn single_record_session_deletes_and_quits() {
    let mut files = vec![File::new(
        "test.txt",
        ".",
        "2022-07-23 12:33:01",
        "./test.txt",
    )];
    assert!(!wants_keep_all("n\n"));
    let a = deletion_step(&mut files, "1\n");
    match a {
        Action::Deleted(f) => assert_eq!(f.path().as_str(), "./test.txt"),
        _ => panic!("expected a deletion"),
    }
    assert_eq!(files.len(), 0);
    let a = deletion_step(&mut files, "done\n");
    assert!(matches!(a, Action::Quit));
}
