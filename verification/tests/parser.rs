use dirtree::{classify, get_sizes, parse, Command, ErrorKind, FileSystem};

const EXAMPLE: &str = "\
$ cd /
$ ls
dir a
14848514 b.txt
8504156 c.dat
dir d
$ cd a
$ ls
dir e
29116 f
2557 g
62596 h.lst
$ cd e
$ ls
584 i
$ cd ..
$ cd ..
$ cd d
$ ls
4060174 j
8033020 d.log
5626152 d.ext
7214296 k";

fn error_of(input: &str) -> ErrorKind {
    match parse(input) {
        Ok(_) => panic!("the log was read without error"),
        Err(e) => e,
    }
}

fn tree_of(input: &str) -> FileSystem {
    match parse(input) {
        Ok(fs) => fs,
        Err(_) => panic!("the log was refused"),
    }
}

#[test]
fn test_parse() {
    let file_system = parse(EXAMPLE);

    assert!(file_system.is_ok());

    let file_system = file_system.unwrap();

    let size: u64 = file_system.get_size();

    assert_eq!(size, 48381165);
}

#[test]
fn example_report_lists_the_four_directories() {
    let fs = tree_of(EXAMPLE);
    let sizes = get_sizes(&fs, fs.get_root());
    assert_eq!(sizes, vec![48381165, 94853, 584, 24933642]);
    assert_eq!(48381165, 14848514 + 8504156 + 94853 + 24933642);
    assert_eq!(94853, 584 + 29116 + 2557 + 62596);
    assert_eq!(24933642u64, 4060174 + 8033020 + 5626152 + 7214296);
}

#[test]
fn example_thresholds() {
    let fs = tree_of(EXAMPLE);
    let sizes = get_sizes(&fs, fs.get_root());
    let small: u64 = sizes.iter().filter(|&&e| e <= 100000).sum();
    assert_eq!(small, 95437);
    let needed = 30_000_000 - (70_000_000 - fs.get_size());
    let freed = sizes.iter().filter(|&&e| e >= needed).min();
    assert_eq!(freed, Some(&24933642));
}

#[test]
fn example_ends_in_directory_d() {
    let fs = tree_of(EXAMPLE);
    let current = fs.get_current_dir();
    assert_eq!(fs.get_node(current).name, "d");
    assert_eq!(fs.get_node(current).get_parent(), Some(fs.get_root()));
    assert_eq!(fs.node_count(), 14);
    assert_eq!(get_sizes(&fs, current), vec![24933642]);
}

#[test]
fn report_of_a_file_is_its_size() {
    let mut fs = FileSystem::new();
    let f = fs.create_file("f", 5);
    assert_eq!(get_sizes(&fs, f), vec![5]);
    assert_eq!(get_sizes(&fs, fs.get_root()), vec![5]);
}

#[test]
fn report_follows_attachment_order() {
    let fs = tree_of("dir b\ndir a\n1 f\n$ cd a\n2 g\n$ cd ..\n$ cd b\n4 h\ndir c");
    assert_eq!(get_sizes(&fs, fs.get_root()), vec![7, 4, 0, 2]);
}

#[test]
fn size_is_the_same_at_each_call() {
    let fs = tree_of(EXAMPLE);
    let first = fs.get_size();
    let report = get_sizes(&fs, fs.get_root());
    assert_eq!(fs.get_size(), first);
    assert_eq!(get_sizes(&fs, fs.get_root()), report);
    assert_eq!(fs.get_size(), first);
}

#[test]
fn empty_log_is_an_empty_root() {
    let fs = tree_of("");
    assert_eq!(fs.node_count(), 1);
    assert_eq!(fs.get_size(), 0);
    assert_eq!(get_sizes(&fs, fs.get_root()), vec![0]);
}

#[test]
fn parse_stops_at_missing_directory() {
    assert_eq!(error_of("$ cd /\n$ cd a\nx y"), ErrorKind::NotFound);
}

#[test]
fn parse_stops_at_file_target() {
    assert_eq!(error_of("$ cd /\n12 a\n$ cd a"), ErrorKind::NotADirectory);
}

#[test]
fn parse_stops_at_bad_size() {
    assert_eq!(error_of("$ cd /\nabc name"), ErrorKind::InvalidSize);
    assert_eq!(error_of("-1 name"), ErrorKind::InvalidSize);
    assert_eq!(error_of("1_000 name"), ErrorKind::InvalidSize);
    assert_eq!(error_of("0x10 name"), ErrorKind::InvalidSize);
    assert_eq!(error_of("+ name"), ErrorKind::InvalidSize);
    assert_eq!(error_of("$ cd"), ErrorKind::InvalidSize);
    assert_eq!(error_of("18446744073709551616 name"), ErrorKind::InvalidSize);
}

#[test]
fn parse_reports_the_first_error() {
    assert_eq!(error_of("$ cd nowhere\nabc name"), ErrorKind::NotFound);
    assert_eq!(error_of("abc name\n$ cd nowhere"), ErrorKind::InvalidSize);
}

#[test]
fn parse_accepts_sizes_as_written() {
    assert_eq!(tree_of("18446744073709551615 name").get_size(), u64::MAX);
    assert_eq!(tree_of("+5 name").get_size(), 5);
    assert_eq!(tree_of("007 name\n0 zero").get_size(), 7);
}

#[test]
fn parse_ignores_other_lines() {
    let fs = tree_of("$ cd /\n\n$ ls -l extra\nalone\n3 a b\n   \n$ cd / /\n4 f");
    assert_eq!(fs.node_count(), 2);
    assert_eq!(fs.get_size(), 4);
}

#[test]
fn parse_trims_and_splits_on_any_white_space() {
    let fs = tree_of("\n\n   $ cd /\r\n\t dir \t a  \r\n  $   cd    a\n 10\tf \n\n");
    assert_eq!(fs.node_count(), 3);
    assert_eq!(fs.get_node(1).name, "a");
    assert_eq!(fs.get_node(2).name, "f");
    assert_eq!(fs.get_node(2).get_parent(), Some(1));
    assert_eq!(fs.get_current_dir(), 1);
    assert_eq!(fs.get_size(), 10);
}

#[test]
fn classify_tells_the_forms_apart() {
    assert!(matches!(classify(&vec!["$", "cd", "x"]), Command::ChangeDir { target: "x" }));
    assert!(matches!(classify(&vec!["$", "ls"]), Command::List));
    assert!(matches!(classify(&vec!["dir", "x"]), Command::MakeDir { name: "x" }));
    assert!(matches!(classify(&vec!["12", "x"]), Command::MakeFile { name: "x", size: 12 }));
    assert!(matches!(classify(&vec!["dir", "12"]), Command::MakeDir { name: "12" }));
    assert!(matches!(classify(&vec!["x", "12"]), Command::BadSize));
    assert!(matches!(classify(&vec!["$", "cd"]), Command::BadSize));
    assert!(matches!(classify(&vec!["$", "ls", "x"]), Command::Skip));
    assert!(matches!(classify(&vec!["$", "CD", "x"]), Command::Skip));
    assert!(matches!(classify(&vec!["12"]), Command::Skip));
    assert!(matches!(classify(&Vec::new()), Command::Skip));
}

#[test]
fn apply_carries_out_one_command() {
    let mut fs = FileSystem::new();
    assert!(fs.apply(&Command::MakeDir { name: "a" }).is_ok());
    assert!(fs.apply(&Command::ChangeDir { target: "a" }).is_ok());
    assert!(fs.apply(&Command::MakeFile { name: "f", size: 3 }).is_ok());
    assert!(fs.apply(&Command::List).is_ok());
    assert!(fs.apply(&Command::Skip).is_ok());
    assert_eq!(fs.apply(&Command::BadSize), Err(ErrorKind::InvalidSize));
    assert_eq!(fs.apply(&Command::ChangeDir { target: "f" }), Err(ErrorKind::NotADirectory));
    assert_eq!(fs.apply(&Command::ChangeDir { target: "g" }), Err(ErrorKind::NotFound));
    assert_eq!(fs.get_current_dir(), 1);
    assert_eq!(fs.node_count(), 3);
    assert_eq!(fs.get_size(), 3);
}
