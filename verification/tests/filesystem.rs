use dirtree::{ErrorKind, FileSystem, Node, NodeType};

#[test]
fn filesystem_filesystem_current_dir_equal_root() {
    let fs = FileSystem::new();

    assert_eq!(fs.get_root(), fs.get_current_dir());
}

#[test]
fn lib_filesystem_current_dir_equal_root() {
    let fs = FileSystem::new();

    assert_eq!(fs.get_root(), fs.get_current_dir());
    assert_eq!(fs.node_count(), 1);
    assert_eq!(fs.get_node(fs.get_root()).name, "/");
}

#[test]
fn change_dir_valid_directory() {
    let mut fs = FileSystem::new();
    let home = fs.create_directory("home");

    let name = fs.get_node(home).name.clone();
    let res = fs.change_dir(&name);
    assert!(res.is_ok());
    assert_eq!(home, fs.get_current_dir());
}

#[test]
fn change_dir_invalid_file() {
    let mut fs = FileSystem::new();

    let home = fs.create_directory("home");
    let name = fs.get_node(home).name.clone();
    let res = fs.change_dir(&name);
    assert!(res.is_ok());
    assert_eq!(home, fs.get_current_dir());

    let bashrc = fs.create_file(".bashrc", 10);
    let name = fs.get_node(bashrc).name.clone();
    let res = fs.change_dir(&name);
    assert!(res.is_err());
    assert_eq!(home, fs.get_current_dir());
}

#[test]
fn change_dir_parent_from_root_stays_at_root() {
    let mut fs = FileSystem::new();

    let res = fs.change_dir("..");
    assert!(res.is_ok());
    assert_eq!(fs.get_root(), fs.get_current_dir());
}

#[test]
fn change_dir_missing_name_is_not_found() {
    let mut fs = FileSystem::new();
    let home = fs.create_directory("home");
    assert!(fs.change_dir("home").is_ok());

    let res = fs.change_dir("nowhere");
    assert!(matches!(res, Err(ErrorKind::NotFound)));
    assert_eq!(home, fs.get_current_dir());
}

#[test]
fn change_dir_to_file_is_not_a_directory() {
    let mut fs = FileSystem::new();
    fs.create_file("notes", 3);

    let res = fs.change_dir("notes");
    assert!(matches!(res, Err(ErrorKind::NotADirectory)));
    assert_eq!(fs.get_root(), fs.get_current_dir());
}

#[test]
fn change_dir_is_case_sensitive_and_single_level() {
    let mut fs = FileSystem::new();
    let home = fs.create_directory("home");
    fs.create_directory_in(home, "user");

    assert!(matches!(fs.change_dir("Home"), Err(ErrorKind::NotFound)));
    assert!(matches!(fs.change_dir("home/user"), Err(ErrorKind::NotFound)));
    assert!(matches!(fs.change_dir("user"), Err(ErrorKind::NotFound)));
    assert!(matches!(fs.change_dir("."), Err(ErrorKind::NotFound)));
    assert_eq!(fs.get_root(), fs.get_current_dir());
}

#[test]
fn change_dir_root_and_parent() {
    let mut fs = FileSystem::new();
    let a = fs.create_directory("a");
    assert!(fs.change_dir("a").is_ok());
    let b = fs.create_directory("b");
    assert!(fs.change_dir("b").is_ok());
    assert_eq!(b, fs.get_current_dir());

    assert!(fs.change_dir("..").is_ok());
    assert_eq!(a, fs.get_current_dir());

    assert!(fs.change_dir("b").is_ok());
    assert!(fs.change_dir("/").is_ok());
    assert_eq!(fs.get_root(), fs.get_current_dir());
}

#[test]
fn change_dir_takes_first_of_equal_names() {
    let mut fs = FileSystem::new();
    let first = fs.create_directory("x");
    let second = fs.create_directory("x");
    assert_ne!(first, second);
    assert!(fs.change_dir("x").is_ok());
    assert_eq!(first, fs.get_current_dir());

    let mut fs = FileSystem::new();
    fs.create_file("y", 1);
    fs.create_directory("y");
    assert!(matches!(fs.change_dir("y"), Err(ErrorKind::NotADirectory)));
}

#[test]
fn created_nodes_are_attached_in_order() {
    let mut fs = FileSystem::new();
    let root = fs.get_root();
    let a = fs.create_directory("a");
    let f = fs.create_file("f", 7);
    let g = fs.create_file_in(a, "g", 9);

    assert_eq!(fs.node_count(), 4);
    assert_eq!(fs.get_node(root).get_children(), Some(&vec![a, f]));
    assert_eq!(fs.get_node(a).get_children(), Some(&vec![g]));
    assert!(fs.get_node(f).get_children().is_none());
    assert_eq!(fs.get_node(root).get_parent(), None);
    assert_eq!(fs.get_node(a).get_parent(), Some(root));
    assert_eq!(fs.get_node(f).get_parent(), Some(root));
    assert_eq!(fs.get_node(g).get_parent(), Some(a));
    assert_eq!(fs.get_node(g).name, "g");
    assert!(fs.get_node(a).is_directory());
    assert!(!fs.get_node(g).is_directory());
    assert!(matches!(fs.get_node(g).node_type, NodeType::File { size: 9 }));
    assert_eq!(root, fs.get_current_dir());
}

#[test]
fn sizes_add_up() {
    let mut fs = FileSystem::new();
    assert_eq!(fs.get_size(), 0);
    let a = fs.create_directory("a");
    assert_eq!(fs.size_of(a), 0);
    let f = fs.create_file("f", 7);
    let g = fs.create_file_in(a, "g", 9);
    let h = fs.create_file_in(a, "h", 4);

    assert_eq!(fs.size_of(f), 7);
    assert_eq!(fs.size_of(g), 9);
    assert_eq!(fs.size_of(a), fs.size_of(g) + fs.size_of(h));
    assert_eq!(fs.size_of(a), 13);
    assert_eq!(fs.get_size(), fs.size_of(a) + fs.size_of(f));
    assert_eq!(fs.get_size(), 20);
    assert_eq!(fs.get_size(), 20);
    assert_eq!(fs.size_of(fs.get_root()), 20);
}

#[test]
fn size_holds_the_largest_value() {
    let mut fs = FileSystem::new();
    fs.create_file("big", u64::MAX - 1);
    fs.create_file("one", 1);
    assert_eq!(fs.get_size(), u64::MAX);
}

#[test]
fn detached_nodes() {
    let file = Node::new_file("f", 12);
    assert_eq!(file.name, "f");
    assert!(!file.is_directory());
    assert!(file.get_children().is_none());
    assert_eq!(file.get_parent(), None);
    assert!(matches!(file.node_type, NodeType::File { size: 12 }));

    let mut dir = Node::new_directory("d");
    assert_eq!(dir.name, "d");
    assert!(dir.is_directory());
    assert_eq!(dir.get_children(), Some(&vec![]));
    assert_eq!(dir.get_parent(), None);
    dir.set_parent(3);
    assert_eq!(dir.get_parent(), Some(3));
    assert_eq!(dir.name, "d");
    assert!(dir.is_directory());
}

#[test]
fn node_size_is_sum_of_children() {
    let mut fs = FileSystem::new();
    let a = fs.create_directory("a");
    let f = fs.create_file("f", 7);
    let g = fs.create_file_in(a, "g", 9);
    let h = fs.create_file_in(a, "h", 4);
    let e = fs.create_directory_in(a, "e");

    assert_eq!(fs.get_node(g).get_size(&fs), 9);
    assert_eq!(fs.get_node(h).get_size(&fs), 4);
    assert_eq!(fs.get_node(e).get_size(&fs), 0);
    assert_eq!(fs.get_node(a).get_size(&fs), 13);
    assert_eq!(fs.get_node(f).get_size(&fs), 7);
    assert_eq!(fs.get_node(fs.get_root()).get_size(&fs), 20);
    for node in 0..fs.node_count() {
        assert_eq!(fs.get_node(node).get_size(&fs), fs.size_of(node));
        assert_eq!(fs.checked_size_of(node), Some(fs.size_of(node)));
    }
}

#[test]
fn new_directory_has_size_zero() {
    let fs = FileSystem::new();
    assert_eq!(fs.get_size(), 0);
    assert_eq!(Node::new_directory("d").get_size(&fs), 0);
    assert_eq!(Node::new_file("f", 12).get_size(&fs), 12);
}

#[test]
fn checked_size_tells_overflow() {
    let mut fs = FileSystem::new();
    let a = fs.create_directory("a");
    let big = fs.create_file_in(a, "big", u64::MAX);
    assert_eq!(fs.checked_size_of(fs.get_root()), Some(u64::MAX));
    let one = fs.create_file("one", 1);
    assert_eq!(fs.checked_size_of(fs.get_root()), None);
    assert_eq!(fs.checked_size_of(a), Some(u64::MAX));
    assert_eq!(fs.checked_size_of(big), Some(u64::MAX));
    assert_eq!(fs.checked_size_of(one), Some(1));
    let b = fs.create_directory_in(a, "b");
    fs.create_file_in(b, "two", 2);
    assert_eq!(fs.checked_size_of(a), None);
    assert_eq!(fs.checked_size_of(b), Some(2));
}
