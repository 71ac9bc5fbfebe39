use wtshell::paths::{check_special, eval_path_str, Special};

#[test]
fn resolves_parent_components() {
    assert_eq!(eval_path_str("/home/user/../other"), "/home/other");
    assert_eq!(eval_path_str("/a/b/c/../../d"), "/a/d");
}

#[test]
fn drops_empty_components() {
    assert_eq!(eval_path_str("//usr///bin/"), "/usr/bin");
}

#[test]
fn parent_of_root_is_root() {
    assert_eq!(eval_path_str("/.."), "/");
    assert_eq!(eval_path_str("/../../x"), "/x");
}

#[test]
fn empty_path_is_root() {
    assert_eq!(eval_path_str(""), "/");
    assert_eq!(eval_path_str("/"), "/");
}

#[test]
fn relative_path_becomes_absolute() {
    assert_eq!(eval_path_str("a/./b"), "/a/./b");
}


#[test]
fn exit_is_special() {
    assert!(matches!(check_special("exit\n", "/home"), Special::Exit));
}

#[test]
fn cd_relative_resolves_from_current_dir() {
    match check_special("cd ../tmp\n", "/home/user") {
        Special::Cd { target, path } => {
            assert_eq!(target, "../tmp");
            assert_eq!(path, "/home/tmp");
        }
        other => panic!("unexpected {:?}", other),
    }
}

#[test]
fn cd_absolute_ignores_current_dir() {
    match check_special("cd /usr//lib\n", "/home/user") {
        Special::Cd { path, .. } => assert_eq!(path, "/usr/lib"),
        other => panic!("unexpected {:?}", other),
    }
}

#[test]
fn other_lines_are_not_special() {
    assert!(matches!(check_special("ls -l\n", "/"), Special::NotSpecial));
    assert!(matches!(check_special("exitx\n", "/"), Special::NotSpecial));
}
