use std::collections::HashMap;

use cleanroom::bins::{bin_get_abs, bin_try_exists, symlink_exists, BinStep, HostBin, InheritError, LinkState};
use cleanroom::config::{Bin, Root};

#[derive(Clone, Debug, PartialEq)]
enum Node {
    File,
    Dir,
    Link(String),
}

struct Fs {
    nodes: HashMap<String, Node>,
    creates: usize,
}

impl Fs {
    fn new(files: &[&str]) -> Fs {
        let mut nodes = HashMap::new();
        for f in files {
            nodes.insert(f.to_string(), Node::File);
        }
        Fs { nodes, creates: 0 }
    }
}

const HOST_PATH: &str = "/usr/local/bin:/usr/bin:/bin";
const BIN_DIR: &str = "/env/bin";

fn run(bin: &Bin, fs: &mut Fs) -> Result<(), InheritError> {
    let mut step = bin.inherit_bins(HOST_PATH);
    loop {
        step = match step {
            BinStep::Lookup { entry, candidates } => {
                let found = candidates.iter().position(|c| matches!(fs.nodes.get(c), Some(Node::File)));
                bin.after_lookup(entry, &candidates, found, HOST_PATH)
            }
            BinStep::CheckHost { entry, host } => {
                let exists = fs.nodes.contains_key(&host);
                bin.after_host_check(entry, &host, exists, BIN_DIR)
            }
            BinStep::Inspect { entry, host, name, link } => {
                let found = match fs.nodes.get(&link) {
                    None => LinkState::Absent,
                    Some(Node::Link(d)) => LinkState::Symlink(d.clone()),
                    Some(_) => LinkState::NotSymlink,
                };
                bin.after_inspect(entry, &host, &name, &link, &found, HOST_PATH)
            }
            BinStep::Create { entry, host, link } => {
                fs.nodes.insert(link, Node::Link(host));
                fs.creates += 1;
                bin.after_create(entry, HOST_PATH)
            }
            BinStep::Done => return Ok(()),
            BinStep::Failed(e) => return Err(e),
        }
    }
}

fn policy(inherit: &[&str]) -> Root {
    let mut root = Root::new();
    root.bin.inherit = inherit.iter().map(|s| s.to_string()).collect();
    root
}

#[test]
fn links_absolute_and_searched_binaries() {
    let root = policy(&["/usr/bin/ls", "cat"]);
    let mut fs = Fs::new(&["/usr/bin/ls", "/bin/cat", "/usr/bin/cat.d"]);
    assert_eq!(run(&root.bin, &mut fs), Ok(()));
    assert_eq!(fs.nodes.get("/env/bin/ls"), Some(&Node::Link("/usr/bin/ls".to_string())));
    assert_eq!(fs.nodes.get("/env/bin/cat"), Some(&Node::Link("/bin/cat".to_string())));
    assert_eq!(fs.creates, 2);
}

#[test]
fn search_takes_first_directory_with_a_file() {
    let root = policy(&["git"]);
    let mut fs = Fs::new(&["/usr/bin/git", "/bin/git"]);
    fs.nodes.insert("/usr/local/bin/git".to_string(), Node::Dir);
    assert_eq!(run(&root.bin, &mut fs), Ok(()));
    assert_eq!(fs.nodes.get("/env/bin/git"), Some(&Node::Link("/usr/bin/git".to_string())));
}

#[test]
fn second_run_changes_nothing() {
    let root = policy(&["/usr/bin/ls", "cat"]);
    let mut fs = Fs::new(&["/usr/bin/ls", "/bin/cat"]);
    assert_eq!(run(&root.bin, &mut fs), Ok(()));
    let after_first = fs.nodes.clone();
    fs.creates = 0;
    assert_eq!(run(&root.bin, &mut fs), Ok(()));
    assert_eq!(fs.creates, 0);
    assert_eq!(fs.nodes, after_first);
}

#[test]
fn conflicting_link_fails_and_is_kept() {
    let root = policy(&["/usr/bin/ls"]);
    let mut fs = Fs::new(&["/usr/bin/ls"]);
    fs.nodes.insert("/env/bin/ls".to_string(), Node::Link("/other/ls".to_string()));
    assert_eq!(
        run(&root.bin, &mut fs),
        Err(InheritError::SymlinkConflict(
            "ls".to_string(),
            "/other/ls".to_string(),
            "/usr/bin/ls".to_string()
        ))
    );
    assert_eq!(fs.nodes.get("/env/bin/ls"), Some(&Node::Link("/other/ls".to_string())));
    assert_eq!(fs.creates, 0);
}

#[test]
fn conflicting_link_left_without_exit_on_change() {
    let mut root = policy(&["/usr/bin/ls", "/bin/cat"]);
    root.bin.exit_on_change = false;
    let mut fs = Fs::new(&["/usr/bin/ls", "/bin/cat"]);
    fs.nodes.insert("/env/bin/ls".to_string(), Node::Link("/other/ls".to_string()));
    assert_eq!(run(&root.bin, &mut fs), Ok(()));
    assert_eq!(fs.nodes.get("/env/bin/ls"), Some(&Node::Link("/other/ls".to_string())));
    assert_eq!(fs.nodes.get("/env/bin/cat"), Some(&Node::Link("/bin/cat".to_string())));
}

#[test]
fn regular_file_at_link_fails_and_is_kept() {
    let root = policy(&["/usr/bin/ls"]);
    let mut fs = Fs::new(&["/usr/bin/ls", "/env/bin/ls"]);
    assert_eq!(
        run(&root.bin, &mut fs),
        Err(InheritError::NotASymlink("/env/bin/ls".to_string()))
    );
    assert_eq!(fs.nodes.get("/env/bin/ls"), Some(&Node::File));
    assert_eq!(fs.creates, 0);
}

#[test]
fn name_not_in_path_fails_with_exit_on_not_found() {
    let root = policy(&["nosuch"]);
    let mut fs = Fs::new(&[]);
    assert_eq!(
        run(&root.bin, &mut fs),
        Err(InheritError::NotFoundInPath("nosuch".to_string()))
    );
}

#[test]
fn name_not_in_path_skipped_without_exit_on_not_found() {
    let mut root = policy(&["nosuch", "/bin/cat"]);
    root.bin.exit_on_not_found = false;
    let mut fs = Fs::new(&["/bin/cat"]);
    assert_eq!(run(&root.bin, &mut fs), Ok(()));
    assert_eq!(fs.creates, 1);
    assert_eq!(fs.nodes.get("/env/bin/nosuch"), None);
}

#[test]
fn missing_host_binary_fails_whatever_the_policy() {
    let mut root = policy(&["/opt/none/tool"]);
    root.bin.exit_on_not_found = false;
    let mut fs = Fs::new(&[]);
    assert_eq!(
        run(&root.bin, &mut fs),
        Err(InheritError::HostBinaryMissing("/opt/none/tool".to_string()))
    );
}

#[test]
fn entry_without_final_name_fails() {
    let root = policy(&["/usr/.."]);
    let mut fs = Fs::new(&[]);
    fs.nodes.insert("/usr/..".to_string(), Node::Dir);
    assert_eq!(
        run(&root.bin, &mut fs),
        Err(InheritError::DegenerateBinaryPath("/usr/..".to_string()))
    );
}

#[test]
fn failure_leaves_earlier_links() {
    let root = policy(&["/usr/bin/ls", "/opt/none"]);
    let mut fs = Fs::new(&["/usr/bin/ls"]);
    assert!(run(&root.bin, &mut fs).is_err());
    assert_eq!(fs.nodes.get("/env/bin/ls"), Some(&Node::Link("/usr/bin/ls".to_string())));
}

#[test]
fn no_binaries_is_done_at_once() {
    let root = Root::new();
    assert!(matches!(root.bin.inherit_bins(HOST_PATH), BinStep::Done));
}

#[test]
fn host_binary_of_entries() {
    match bin_get_abs("/bin/ls", HOST_PATH) {
        HostBin::Absolute(p) => assert_eq!(p, "/bin/ls"),
        other => panic!("unexpected {:?}", other),
    }
    match bin_get_abs("ls", "/a:/b/:") {
        HostBin::Search(c) => assert_eq!(c, vec!["/a/ls", "/b/ls", "ls"]),
        other => panic!("unexpected {:?}", other),
    }
}

#[test]
fn existence_verdict() {
    assert_eq!(bin_try_exists("/bin/ls", true), Ok(()));
    assert_eq!(
        bin_try_exists("/bin/ls", false),
        Err(InheritError::HostBinaryMissing("/bin/ls".to_string()))
    );
}

#[test]
fn symlink_to_source() {
    assert!(symlink_exists("/bin/ls", &LinkState::Symlink("/bin/ls".to_string())));
    assert!(!symlink_exists("/bin/ls", &LinkState::Symlink("/bin/cat".to_string())));
    assert!(!symlink_exists("/bin/ls", &LinkState::NotSymlink));
    assert!(!symlink_exists("/bin/ls", &LinkState::Absent));
}
