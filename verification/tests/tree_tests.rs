use stribog::{walk_tree, DirTree};

fn leaf(path: &str, name: &str) -> DirTree {
    DirTree { path: path.to_string(), name: name.to_string(), children: vec![] }
}

fn node(path: &str, name: &str, children: Vec<DirTree>) -> DirTree {
    DirTree { path: path.to_string(), name: name.to_string(), children }
}

fn forbidden(entries: &[&str]) -> Vec<String> {
    entries.iter().map(|e| e.to_string()).collect()
}

fn walk(t: &DirTree, f: &[&str], depth: i32) -> Vec<String> {
    let mut out: Vec<String> = Vec::new();
    walk_tree(t, &forbidden(f), depth, &mut out);
    out
}

#[test]
fn forbidden_children_are_pruned_with_their_subtrees() {
    // root `/a` with children `b`, `.git`, `build`; forbidden `.` and
    // `build`; depth 1: exactly `/a` and `/a/b` are reported.
    let t = node(
        "/a",
        "a",
        vec![
            leaf("/a/b", "b"),
            node("/a/.git", ".git", vec![leaf("/a/.git/objects", "objects")]),
            leaf("/a/build", "build"),
        ],
    );
    let out = walk(&t, &[".", "build"], 1);
    assert_eq!(out, vec!["/a".to_string(), "/a/b".to_string()]);
}

#[test]
fn depth_budget_bounds_how_deep_the_walk_reports() {
    // root `/a` over the chain `/a/b/c/d`; depth 2 reports `/a`, `/a/b`,
    // `/a/b/c` and stops short of `/a/b/c/d`.
    let t = node(
        "/a",
        "a",
        vec![node("/a/b", "b", vec![node("/a/b/c", "c", vec![leaf("/a/b/c/d", "d")])])],
    );
    let out = walk(&t, &[], 2);
    assert_eq!(
        out,
        vec!["/a".to_string(), "/a/b".to_string(), "/a/b/c".to_string()],
    );
    assert!(!out.contains(&"/a/b/c/d".to_string()));
}

#[test]
fn depth_zero_reports_the_root_alone() {
    let t = node("/a", "a", vec![leaf("/a/b", "b")]);
    let out = walk(&t, &[], 0);
    assert_eq!(out, vec!["/a".to_string()]);
}

#[test]
fn empty_root_path_reports_nothing() {
    let t = node("", "", vec![leaf("/x", "x")]);
    let out = walk(&t, &[], 5);
    assert!(out.is_empty());
}

#[test]
fn self_referential_and_root_children_are_skipped() {
    // A child resolving back to the directory itself or to `/` is not
    // descended into.
    let t = node(
        "/a",
        "a",
        vec![leaf("/a", "a"), leaf("/", "/"), leaf("/a/ok", "ok")],
    );
    let out = walk(&t, &[], 3);
    assert_eq!(out, vec!["/a".to_string(), "/a/ok".to_string()]);
}

#[test]
fn walk_appends_after_existing_output() {
    let t = leaf("/solo", "solo");
    let mut out = vec!["kept".to_string()];
    walk_tree(&t, &forbidden(&[]), 1, &mut out);
    assert_eq!(out, vec!["kept".to_string(), "/solo".to_string()]);
}

#[test]
fn negative_budget_still_reports_the_root() {
    let t = node("/a", "a", vec![leaf("/a/b", "b")]);
    let out = walk(&t, &[], -3);
    assert_eq!(out, vec!["/a".to_string()]);
}
