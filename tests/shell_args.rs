use cleanroom::config::Root;

#[test]
fn args_noprofile_with_rcfile_interactive() {
    let mut root = Root::new();
    root.shell.noprofile = true;
    root.shell.norc = false;
    root.shell.interactive = true;
    root.shell.login = false;
    let args = root.get_shell_args("/env/x/rc.sh");
    assert_eq!(args, vec!["--noprofile", "--rcfile", "/env/x/rc.sh", "-i"]);
}

#[test]
fn args_norc_login() {
    let mut root = Root::new();
    root.shell.noprofile = false;
    root.shell.norc = true;
    root.shell.login = true;
    let args = root.get_shell_args("/env/x/rc.sh");
    assert_eq!(args, vec!["--norc", "-l"]);
}

#[test]
fn args_not_interactive_gives_norc() {
    let mut root = Root::new();
    root.shell.interactive = false;
    let args = root.get_shell_args("/rc.sh");
    assert_eq!(args, vec!["--noprofile", "--norc"]);
}

#[test]
fn args_defaults() {
    let root = Root::new();
    assert_eq!(root.get_shell_args("/c/rc.sh"), vec!["--noprofile", "--rcfile", "/c/rc.sh", "-i"]);
}

#[test]
fn path_joins_dirs_in_order() {
    let mut root = Root::new();
    root.bin.inherit_dirs = vec!["/a".to_string(), "/b".to_string()];
    assert_eq!(root.bin.build_path(), "/a:/b");
}

#[test]
fn path_of_defaults() {
    let root = Root::new();
    assert_eq!(root.bin.build_path(), "/usr/local/bin:/bin:/usr/bin");
}

#[test]
fn path_of_no_dirs_is_empty() {
    let mut root = Root::new();
    root.bin.inherit_dirs = Vec::new();
    assert_eq!(root.bin.build_path(), "");
}
