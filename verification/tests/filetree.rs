use buckeval::filetree::DataTree;

fn key(parts: &[&str]) -> Vec<String> {
    parts.iter().map(|s| s.to_string()).collect()
}

#[test]
fn prefix_get_finds_value_at_prefix() {
    // A value at "foo/bar"; querying "foo/bar/c" finds it.
    let mut tree: DataTree<String> = DataTree::new();
    tree.insert(&key(&["foo", "bar"]), 0, "contents_of_foobar".to_string());
    assert_eq!(
        tree.prefix_get(&key(&["foo", "bar", "c"]), 0),
        Some(&"contents_of_foobar".to_string())
    );
    assert_eq!(
        tree.prefix_get(&key(&["foo", "bar"]), 0),
        Some(&"contents_of_foobar".to_string())
    );
    assert_eq!(tree.prefix_get(&key(&["foo"]), 0), None);
    assert_eq!(tree.prefix_get(&key(&["qux"]), 0), None);
}

#[test]
fn insert_replaces_prefixes_and_extensions() {
    let mut tree: DataTree<u32> = DataTree::new();
    tree.insert(&key(&["a", "b", "c"]), 0, 1);
    tree.insert(&key(&["a", "d"]), 0, 2);
    // Inserting at "a" removes both keys under it.
    tree.insert(&key(&["a"]), 0, 3);
    assert_eq!(tree.prefix_get(&key(&["a", "b", "c"]), 0), Some(&3));
    assert_eq!(tree.prefix_get(&key(&["a", "d"]), 0), Some(&3));
    // Inserting below "a" removes the value at "a".
    tree.insert(&key(&["a", "e"]), 0, 4);
    assert_eq!(tree.prefix_get(&key(&["a", "e"]), 0), Some(&4));
    assert_eq!(tree.prefix_get(&key(&["a"]), 0), None);
}

#[test]
fn remove_returns_the_stored_value() {
    let mut tree: DataTree<u32> = DataTree::new();
    tree.insert(&key(&["x", "y"]), 0, 7);
    tree.insert(&key(&["x", "z"]), 0, 8);
    assert_eq!(tree.remove(&key(&["x", "y"]), 0), Some(7));
    assert_eq!(tree.remove(&key(&["x", "y"]), 0), None);
    assert_eq!(tree.prefix_get(&key(&["x", "z"]), 0), Some(&8));
    // Removing with a longer key removes the value at the stored prefix.
    assert_eq!(tree.remove(&key(&["x", "z", "deep"]), 0), Some(8));
    assert_eq!(tree.prefix_get(&key(&["x", "z"]), 0), None);
}

#[test]
fn keys_start_at_the_given_offset() {
    let mut tree: DataTree<u32> = DataTree::new();
    let path = key(&["skipme", "a", "b"]);
    tree.insert(&path, 1, 5);
    assert_eq!(tree.prefix_get(&key(&["a", "b"]), 0), Some(&5));
    assert_eq!(tree.prefix_get(&path, 1), Some(&5));
}
