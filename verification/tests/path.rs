use be_music_cabinet::path::TreePath;

fn path(parts: &[&str]) -> TreePath {
    TreePath::from_parts(parts.iter().map(|p| p.to_string()).collect())
}

#[test]
fn paths_grow_by_one_name() {
    let root = TreePath::new();
    assert_eq!(root.len(), 0);
    let a = root.join("a");
    let ab = a.join("b");
    assert_eq!(a.parts, vec!["a".to_string()]);
    assert_eq!(ab.parts, vec!["a".to_string(), "b".to_string()]);
    assert_eq!(ab.len(), 2);
    assert_eq!(root.len(), 0);
    assert_eq!(ab.duplicate().parts, ab.parts);
}

#[test]
fn paths_are_compared_by_their_components() {
    assert!(path(&["a", "b"]).same(&path(&["a", "b"])));
    assert!(!path(&["a", "b"]).same(&path(&["a", "c"])));
    assert!(!path(&["a", "b"]).same(&path(&["a"])));
    assert!(!path(&["a"]).same(&path(&["a", "b"])));
    assert!(!path(&["a/b"]).same(&path(&["a", "b"])));
    assert!(path(&[]).same(&path(&[])));
}

#[test]
fn prefixes_go_by_whole_components() {
    assert!(path(&["mnt", "data", "x"]).starts_with(&path(&["mnt", "data"])));
    assert!(path(&["mnt", "data"]).starts_with(&path(&["mnt", "data"])));
    assert!(path(&["mnt", "data"]).starts_with(&path(&[])));
    assert!(!path(&["mnt", "database"]).starts_with(&path(&["mnt", "data"])));
    assert!(!path(&["mnt"]).starts_with(&path(&["mnt", "data"])));
}
