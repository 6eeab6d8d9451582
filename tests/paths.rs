use cleanroom::paths::{file_name, is_absolute, join_with, push_path, split_on};

#[test]
fn split_keeps_empty_pieces() {
    assert_eq!(split_on("a::b", ':'), vec!["a", "", "b"]);
    assert_eq!(split_on("", ':'), vec![""]);
    assert_eq!(split_on("/usr/bin:/bin", ':'), vec!["/usr/bin", "/bin"]);
    assert_eq!(split_on("x:", ':'), vec!["x", ""]);
}

#[test]
fn join_puts_separator_between() {
    let parts = vec!["a".to_string(), "".to_string(), "b".to_string()];
    assert_eq!(join_with(&parts, ":"), "a::b");
    assert_eq!(join_with(&Vec::new(), ":"), "");
}

#[test]
fn push_follows_path_rules() {
    assert_eq!(push_path("/usr/bin", "ls"), "/usr/bin/ls");
    assert_eq!(push_path("/usr/bin/", "ls"), "/usr/bin/ls");
    assert_eq!(push_path("", "ls"), "ls");
    assert_eq!(push_path("/usr/bin", "/bin/ls"), "/bin/ls");
}

#[test]
fn absolute_paths() {
    assert!(is_absolute("/bin/ls"));
    assert!(!is_absolute("ls"));
    assert!(!is_absolute(""));
}

#[test]
fn final_names() {
    assert_eq!(file_name("/usr/bin/ls"), Some("ls".to_string()));
    assert_eq!(file_name("ls"), Some("ls".to_string()));
    assert_eq!(file_name("/usr/bin/"), Some("bin".to_string()));
    assert_eq!(file_name("a/./"), Some("a".to_string()));
    assert_eq!(file_name("./a"), Some("a".to_string()));
    assert_eq!(file_name("/usr/.."), None);
    assert_eq!(file_name(".."), None);
    assert_eq!(file_name("/"), None);
    assert_eq!(file_name(""), None);
    assert_eq!(file_name("."), None);
}
