use bestls::fsops::{DirItem, EntryMeta, PlatformMeta};
use bestls::walk::{Child, Frame, RootReadFailure, Walk, WalkConfig};

fn meta(dir: bool) -> EntryMeta {
    EntryMeta {
        is_file: !dir,
        is_dir: dir,
        is_symlink: false,
        len: 1,
        modified: None,
        platform: PlatformMeta::Other,
    }
}

fn file(name: &str) -> DirItem {
    DirItem { name: name.as_bytes().to_vec(), meta: Some(meta(false)) }
}

fn dir(name: &str) -> DirItem {
    DirItem { name: name.as_bytes().to_vec(), meta: Some(meta(true)) }
}

/// The tree `root/{a, d/{b, e/{c}}}`: what is read in a directory, by path.
fn read(path: &str) -> Option<Vec<DirItem>> {
    match path {
        "root" => Some(vec![file("a"), dir("d")]),
        "root/d" => Some(vec![file("b"), dir("e")]),
        "root/d/e" => Some(vec![file("c")]),
        _ => None,
    }
}

/// Runs a walk over the tree and gives the names of the records.
fn walk_tree(config: WalkConfig) -> Vec<String> {
    let mut walk = Walk::new(config);
    let mut paths: Vec<String> = vec!["root".to_string()];
    while let Some(frame) = walk.next_directory() {
        let path = paths[frame.dir].clone();
        let listing = read(&path);
        let names: Vec<String> = listing
            .iter()
            .flatten()
            .map(|item| String::from_utf8_lossy(&item.name).into_owned())
            .collect();
        let children = walk.visit(frame, listing).unwrap();
        for child in children {
            assert_eq!(child.dir, paths.len());
            paths.push(format!("{}/{}", path, names[child.item]));
        }
    }
    assert!(walk.is_done());
    walk.into_records().into_iter().map(|e| e.name).collect()
}

#[test]
fn flat_mode_lists_the_root_only() {
    let config = WalkConfig { include_hidden: false, tree: false, max_depth: None };
    assert_eq!(walk_tree(config), vec!["a", "d"]);
    let config = WalkConfig { include_hidden: false, tree: false, max_depth: Some(5) };
    assert_eq!(walk_tree(config), vec!["a", "d"]);
}

#[test]
fn tree_mode_without_a_bound_lists_everything() {
    let config = WalkConfig { include_hidden: false, tree: true, max_depth: None };
    assert_eq!(walk_tree(config), vec!["a", "d", "b", "e", "c"]);
}

#[test]
fn tree_with_depth_one_reads_one_level_below_the_root() {
    let config = WalkConfig { include_hidden: false, tree: true, max_depth: Some(1) };
    assert_eq!(walk_tree(config), vec!["a", "d", "b", "e"]);
}

#[test]
fn tree_with_depth_two_reads_two_levels_below_the_root() {
    let config = WalkConfig { include_hidden: false, tree: true, max_depth: Some(2) };
    assert_eq!(walk_tree(config), vec!["a", "d", "b", "e", "c"]);
}

#[test]
fn tree_with_depth_zero_is_flat_mode() {
    let tree = WalkConfig { include_hidden: false, tree: true, max_depth: Some(0) };
    let flat = WalkConfig { include_hidden: false, tree: false, max_depth: None };
    assert_eq!(walk_tree(tree), walk_tree(flat));
    assert_eq!(walk_tree(tree), vec!["a", "d"]);
}

#[test]
fn a_new_walk_stands_before_the_root() {
    let config = WalkConfig { include_hidden: true, tree: true, max_depth: None };
    let mut walk = Walk::new(config);
    assert!(!walk.is_done());
    assert_eq!(walk.next_directory(), Some(Frame { dir: 0, depth: 0 }));
    assert!(walk.is_done());
    assert_eq!(walk.next_directory(), None);
    assert!(walk.into_records().is_empty());
}

#[test]
fn an_unreadable_root_fails_the_walk() {
    let config = WalkConfig { include_hidden: false, tree: true, max_depth: None };
    let mut walk = Walk::new(config);
    let root = walk.next_directory().unwrap();
    assert_eq!(walk.visit(root, None), Err(RootReadFailure));
}

#[test]
fn an_unreadable_directory_below_the_root_is_passed_over() {
    let config = WalkConfig { include_hidden: false, tree: true, max_depth: None };
    let mut walk = Walk::new(config);
    let root = walk.next_directory().unwrap();
    let children = walk.visit(root, Some(vec![dir("x"), file("f"), dir("y")])).unwrap();
    assert_eq!(children, vec![Child { dir: 1, item: 0 }, Child { dir: 2, item: 2 }]);
    let x = walk.next_directory().unwrap();
    assert_eq!(x, Frame { dir: 1, depth: 1 });
    assert_eq!(walk.visit(x, None), Ok(Vec::new()));
    let y = walk.next_directory().unwrap();
    assert_eq!(y, Frame { dir: 2, depth: 1 });
    assert_eq!(walk.visit(y, Some(vec![file("g")])), Ok(Vec::new()));
    assert_eq!(walk.next_directory(), None);
    let names: Vec<String> = walk.into_records().into_iter().map(|e| e.name).collect();
    assert_eq!(names, vec!["x", "f", "y", "g"]);
}

#[test]
fn hidden_directories_are_not_read_unless_asked_for() {
    let items = || vec![dir(".git"), dir("src"), file(".env")];
    let mut walk = Walk::new(WalkConfig { include_hidden: false, tree: true, max_depth: None });
    let root = walk.next_directory().unwrap();
    assert_eq!(walk.visit(root, Some(items())), Ok(vec![Child { dir: 1, item: 1 }]));
    assert_eq!(walk.into_records().len(), 1);
    let mut walk = Walk::new(WalkConfig { include_hidden: true, tree: true, max_depth: None });
    let root = walk.next_directory().unwrap();
    assert_eq!(
        walk.visit(root, Some(items())),
        Ok(vec![Child { dir: 1, item: 0 }, Child { dir: 2, item: 1 }])
    );
    assert_eq!(walk.into_records().len(), 3);
}

#[test]
fn a_directory_past_the_bound_adds_nothing() {
    let mut walk = Walk::new(WalkConfig { include_hidden: false, tree: true, max_depth: Some(1) });
    let deep = Frame { dir: 0, depth: 2 };
    assert_eq!(walk.visit(deep, Some(vec![file("f"), dir("d")])), Ok(Vec::new()));
    assert!(walk.into_records().is_empty());
}

#[test]
fn items_without_metadata_open_no_directory() {
    let mut walk = Walk::new(WalkConfig { include_hidden: false, tree: true, max_depth: None });
    let root = walk.next_directory().unwrap();
    let listing = vec![DirItem { name: b"gone".to_vec(), meta: None }, dir("d")];
    assert_eq!(walk.visit(root, Some(listing)), Ok(vec![Child { dir: 1, item: 1 }]));
    assert_eq!(walk.into_records().len(), 1);
}
