use caseless_fs::path::{Component, StorePath};
use caseless_fs::store::Entry;

#[test]
fn new_path_is_empty() {
    assert_eq!(StorePath::new().components, Vec::<Component>::new());
}

#[test]
fn root_path_is_the_root_marker() {
    assert_eq!(StorePath::root().components, vec![Component::RootDir]);
}

#[test]
fn push_adds_a_named_segment_at_the_end() {
    let mut path = StorePath::root();
    path.push(&b"Docs".to_vec());
    path.push(&b"\xff".to_vec());
    assert_eq!(
        path.components,
        vec![
            Component::RootDir,
            Component::Normal(b"Docs".to_vec()),
            Component::Normal(b"\xff".to_vec()),
        ]
    );
}

#[test]
fn clone_keeps_the_components() {
    let mut path = StorePath::new();
    path.push(&b"a".to_vec());
    let copy = path.clone();
    assert_eq!(copy, path);
    assert_eq!(Component::Normal(b"a".to_vec()).clone(), Component::Normal(b"a".to_vec()));
    assert_eq!(Component::RootDir.clone(), Component::RootDir);
}

#[test]
fn clone_of_an_entry_keeps_the_name() {
    let entry = Entry { name: b"Readme".to_vec() };
    assert_eq!(entry.clone(), entry);
}
