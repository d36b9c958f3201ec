use conch::local_fs::{sort_entries, FileEntry};

#[test]
fn sort_dirs_first() {
    let mut entries = vec![
        FileEntry { name: "zebra.txt".into(), is_dir: false, size: 10, modified: None, permissions: None },
        FileEntry { name: "alpha_dir".into(), is_dir: true, size: 0, modified: None, permissions: None },
        FileEntry { name: "beta.txt".into(), is_dir: false, size: 20, modified: None, permissions: None },
    ];
    sort_entries(&mut entries);
    assert!(entries[0].is_dir);
    assert_eq!(entries[0].name, "alpha_dir");
    assert_eq!(entries[1].name, "beta.txt");
    assert_eq!(entries[2].name, "zebra.txt");
}

#[test]
fn sort_case_insensitive() {
    let mut entries = vec![
        FileEntry { name: "Zebra".into(), is_dir: false, size: 0, modified: None, permissions: None },
        FileEntry { name: "alpha".into(), is_dir: false, size: 0, modified: None, permissions: None },
    ];
    sort_entries(&mut entries);
    assert_eq!(entries[0].name, "alpha");
    assert_eq!(entries[1].name, "Zebra");
}

#[test]
fn sort_keeps_order_of_names_equal_ignoring_case() {
    let mut entries = vec![
        FileEntry { name: "b".into(), is_dir: false, size: 1, modified: None, permissions: None },
        FileEntry { name: "README".into(), is_dir: false, size: 2, modified: None, permissions: None },
        FileEntry { name: "readme".into(), is_dir: false, size: 3, modified: None, permissions: None },
        FileEntry { name: "Readme".into(), is_dir: false, size: 4, modified: None, permissions: Some(0o644) },
        FileEntry { name: "src".into(), is_dir: true, size: 5, modified: Some(7), permissions: None },
    ];
    sort_entries(&mut entries);
    let sizes: Vec<u64> = entries.iter().map(|e| e.size).collect();
    assert_eq!(sizes, vec![5, 1, 2, 3, 4]);
    assert_eq!(entries[4].permissions, Some(0o644));
    assert_eq!(entries[0].modified, Some(7));
}

#[test]
fn sort_empty_and_unicode_names() {
    let mut empty: Vec<FileEntry> = Vec::new();
    sort_entries(&mut empty);
    assert!(empty.is_empty());
    let mut entries = vec![
        FileEntry { name: "Édition".into(), is_dir: false, size: 0, modified: None, permissions: None },
        FileEntry { name: "éa".into(), is_dir: false, size: 1, modified: None, permissions: None },
        FileEntry { name: "z".into(), is_dir: false, size: 2, modified: None, permissions: None },
    ];
    sort_entries(&mut entries);
    let names: Vec<&str> = entries.iter().map(|e| e.name.as_str()).collect();
    assert_eq!(names, vec!["z", "éa", "Édition"]);
}
