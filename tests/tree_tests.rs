use secmanager::tree::{build_tree, SecretNode};

fn names(v: &[&str]) -> Vec<String> {
    v.iter().map(|s| s.to_string()).collect()
}

fn child<'a>(n: &'a SecretNode, name: &str) -> &'a SecretNode {
    n.children.iter().find(|c| c.name == name).expect("child")
}

fn child_names(n: &SecretNode) -> Vec<String> {
    let mut v: Vec<String> = n.children.iter().map(|c| c.name.clone()).collect();
    v.sort();
    v
}

fn leaves(n: &SecretNode, out: &mut Vec<String>) {
    if n.is_leaf {
        out.push(n.full_path.clone());
    }
    for c in &n.children {
        leaves(c, out);
    }
}

#[test]
fn tree_scenario_two_levels() {
    let root = build_tree(&names(&["db/password", "db/user", "api/key"]));
    assert_eq!(root.name, "root");
    assert!(!root.is_leaf);
    assert_eq!(child_names(&root), names(&["api", "db"]));
    let db = child(&root, "db");
    assert!(!db.is_leaf);
    assert_eq!(child_names(db), names(&["password", "user"]));
    assert!(child(db, "password").is_leaf);
    assert!(child(db, "user").is_leaf);
    assert_eq!(child(db, "user").full_path, "db/user");
    let api = child(&root, "api");
    assert_eq!(child_names(api), names(&["key"]));
    assert_eq!(child(api, "key").full_path, "api/key");
}

#[test]
fn tree_walk_gives_each_identifier_once() {
    let ids = names(&["a/b/c", "a/b/d", "x", "a/b/c", "x", "y/z"]);
    let root = build_tree(&ids);
    let mut out = Vec::new();
    leaves(&root, &mut out);
    out.sort();
    assert_eq!(out, names(&["a/b/c", "a/b/d", "x", "y/z"]));
}

#[test]
fn tree_duplicates_collapse() {
    let root = build_tree(&names(&["k/v", "k/v"]));
    assert_eq!(root.children.len(), 1);
    assert_eq!(child(&root, "k").children.len(), 1);
}

#[test]
fn tree_prefix_identifier_is_leaf_and_parent() {
    for ids in [names(&["a", "a/b"]), names(&["a/b", "a"])] {
        let root = build_tree(&ids);
        let a = child(&root, "a");
        assert!(a.is_leaf);
        assert_eq!(a.full_path, "a");
        let b = child(a, "b");
        assert!(b.is_leaf);
        assert_eq!(b.full_path, "a/b");
        let mut out = Vec::new();
        leaves(&root, &mut out);
        out.sort();
        assert_eq!(out, names(&["a", "a/b"]));
    }
}

#[test]
fn tree_empty_list() {
    let root = build_tree(&[]);
    assert_eq!(root.name, "root");
    assert_eq!(root.full_path, "");
    assert!(root.children.is_empty());
}

#[test]
fn tree_empty_segments_kept() {
    let root = build_tree(&names(&["a//b", "/c"]));
    let a = child(&root, "a");
    let gap = child(a, "");
    assert_eq!(child(gap, "b").full_path, "a//b");
    let lead = child(&root, "");
    assert_eq!(child(lead, "c").full_path, "/c");
}

#[test]
fn tree_same_structure_whatever_the_order() {
    let r1 = build_tree(&names(&["p/q", "p/r", "s"]));
    let r2 = build_tree(&names(&["s", "p/r", "p/q"]));
    let mut l1 = Vec::new();
    let mut l2 = Vec::new();
    leaves(&r1, &mut l1);
    leaves(&r2, &mut l2);
    l1.sort();
    l2.sort();
    assert_eq!(l1, l2);
    assert_eq!(child_names(&r1), child_names(&r2));
    assert_eq!(child_names(child(&r1, "p")), child_names(child(&r2, "p")));
}

#[test]
fn node_new_is_collapsed_and_childless() {
    let n = SecretNode::new("x".to_string(), "a/x".to_string(), true);
    assert_eq!(n.name, "x");
    assert_eq!(n.full_path, "a/x");
    assert!(n.is_leaf);
    assert!(!n.expanded);
    assert!(n.children.is_empty());
}

#[test]
fn tree_nodes_start_collapsed() {
    fn all_collapsed(n: &SecretNode) -> bool {
        !n.expanded && n.children.iter().all(all_collapsed)
    }
    let root = build_tree(&names(&["a/b/c", "a/d", "e"]));
    assert!(all_collapsed(&root));
}

#[test]
fn tree_reinsert_changes_nothing() {
    let r1 = build_tree(&names(&["a/b", "a/c"]));
    let r2 = build_tree(&names(&["a/b", "a/c", "a/b"]));
    let a1 = child(&r1, "a");
    let a2 = child(&r2, "a");
    let n1: Vec<&str> = a1.children.iter().map(|c| c.name.as_str()).collect();
    let n2: Vec<&str> = a2.children.iter().map(|c| c.name.as_str()).collect();
    assert_eq!(n1, n2);
}
