use bevy_convars::path::split_path;
use bevy_convars::tree::{CVarTreeNode, ComponentId, TreeConflict};

#[test]
fn paths_split_at_every_dot() {
    assert_eq!(split_path("render.aa.method"), vec!["render", "aa", "method"]);
    assert_eq!(split_path("single"), vec!["single"]);
    assert_eq!(split_path(""), vec![""]);
    assert_eq!(split_path("a..b"), vec!["a", "", "b"]);
    assert_eq!(split_path(".a."), vec!["", "a", ""]);
    assert_eq!(split_path("ä.ö"), vec!["ä", "ö"]);
}

#[test]
fn registered_path_is_found() {
    let mut tree = CVarTreeNode::default();
    assert_eq!(tree.get("render.aa.method"), None);
    assert_eq!(tree.conflict("render.aa.method"), None);
    tree.insert("render.aa.method", ComponentId(7));
    assert_eq!(tree.get("render.aa.method"), Some(ComponentId(7)));
    // namespaces and unknown paths are no values
    assert_eq!(tree.get("render"), None);
    assert_eq!(tree.get("render.aa"), None);
    assert_eq!(tree.get("render.aa.method.more"), None);
    assert_eq!(tree.get("render.aa.other"), None);
    assert_eq!(tree.get(""), None);
    // paths are case-sensitive
    assert_eq!(tree.get("Render.aa.method"), None);

    tree.insert("render.aa.samples", ComponentId(8));
    tree.insert("core.log", ComponentId(9));
    assert_eq!(tree.get("render.aa.method"), Some(ComponentId(7)));
    assert_eq!(tree.get("render.aa.samples"), Some(ComponentId(8)));
    assert_eq!(tree.get("core.log"), Some(ComponentId(9)));
}

#[test]
fn taken_paths_are_conflicts() {
    let mut tree = CVarTreeNode::new();
    tree.insert("a.b", ComponentId(1));
    assert_eq!(tree.conflict("a.b"), Some(TreeConflict::Duplicate));
    assert_eq!(tree.conflict("a.b.c"), Some(TreeConflict::ParentIsLeaf));
    assert_eq!(tree.conflict("a.b.c.d"), Some(TreeConflict::ParentIsLeaf));
    assert_eq!(tree.conflict("a"), Some(TreeConflict::Duplicate));
    assert_eq!(tree.conflict("a.c"), None);
    assert_eq!(tree.conflict("b"), None);
    assert_eq!(tree.conflict("a.bb"), None);

    // the reverse order
    let mut tree = CVarTreeNode::new();
    tree.insert("a.b.c", ComponentId(1));
    assert_eq!(tree.conflict("a.b"), Some(TreeConflict::Duplicate));
    assert_eq!(tree.get("a.b.c"), Some(ComponentId(1)));
}

#[test]
fn children_and_leaves_by_position() {
    let mut tree = CVarTreeNode::new();
    let root = tree.root();
    assert!(!tree.is_leaf(root));
    assert_eq!(tree.children(root), Some(Vec::new()));
    assert_eq!(tree.leaf(root), None);

    tree.insert("a.x", ComponentId(1));
    tree.insert("a.y", ComponentId(2));
    tree.insert("b", ComponentId(3));

    let mut top = tree.children(root).unwrap();
    top.sort();
    assert_eq!(top.len(), 2);
    assert_eq!(top[0].0, "a");
    assert_eq!(top[1].0, "b");
    let (a, b) = (top[0].1, top[1].1);

    assert!(tree.is_leaf(b));
    assert_eq!(tree.children(b), None);
    let (name, reg) = tree.leaf(b).unwrap();
    assert_eq!(name, "b");
    assert_eq!(reg, ComponentId(3));

    assert!(!tree.is_leaf(a));
    let mut below = tree.children(a).unwrap();
    below.sort();
    assert_eq!(below.len(), 2);
    assert_eq!(below[0].0, "x");
    assert_eq!(below[1].0, "y");
    let (name, reg) = tree.leaf(below[1].1).unwrap();
    assert_eq!(name, "a.y");
    assert_eq!(reg, ComponentId(2));
}
