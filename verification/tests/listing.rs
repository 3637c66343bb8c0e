use dicom_webview::listing::{insert_entry, list_directory, sort_entries, FileEntry};

fn names(listing: &[FileEntry]) -> Vec<String> {
    listing.iter().map(|e| e.name.clone()).collect()
}

fn found(items: &[(&str, bool)]) -> Vec<(String, bool)> {
    items.iter().map(|(name, is_dir)| (name.to_string(), *is_dir)).collect()
}

#[test]
fn directories_come_first_then_names() {
    let listing = list_directory(
        "",
        &found(&[("b.dcm", false), ("zeta", true), ("a.dcm", false), ("alpha", true), ("B.dcm", false)]),
    );
    assert_eq!(names(&listing), vec!["alpha", "zeta", "B.dcm", "a.dcm", "b.dcm"]);
    let dirs: Vec<bool> = listing.iter().map(|e| e.is_dir).collect();
    assert_eq!(dirs, vec![true, true, false, false, false]);
}

#[test]
fn entry_paths_are_relative_to_the_root() {
    let listing = list_directory("", &found(&[("a.dcm", false), ("sub", true)]));
    assert_eq!(listing[0].path, "sub");
    assert_eq!(listing[1].path, "a.dcm");
    let listing = list_directory("anna/study", &found(&[("a.dcm", false), ("sub", true)]));
    assert_eq!(listing[0].name, "sub");
    assert_eq!(listing[0].path, "anna/study/sub");
    assert!(listing[0].is_dir);
    assert_eq!(listing[1].name, "a.dcm");
    assert_eq!(listing[1].path, "anna/study/a.dcm");
    assert!(!listing[1].is_dir);
}

#[test]
fn new_entry_joins_request_and_name() {
    let entry = FileEntry::new("a/b", "c.dcm".to_string(), false);
    assert_eq!(entry.name, "c.dcm");
    assert_eq!(entry.path, "a/b/c.dcm");
    assert!(!entry.is_dir);
    let entry = FileEntry::new("", "c".to_string(), true);
    assert_eq!(entry.path, "c");
    assert!(entry.is_dir);
}

#[test]
fn empty_directory_gives_empty_listing() {
    assert!(list_directory("x", &vec![]).is_empty());
    assert!(sort_entries(vec![]).is_empty());
}

#[test]
fn precedes_puts_directories_before_files() {
    let dir = FileEntry::new("", "z".to_string(), true);
    let file = FileEntry::new("", "a".to_string(), false);
    assert!(dir.precedes(&file));
    assert!(!file.precedes(&dir));
    assert!(!dir.precedes(&dir));
    let other = FileEntry::new("", "b".to_string(), false);
    assert!(file.precedes(&other));
    assert!(!other.precedes(&file));
}

#[test]
fn sort_entries_agrees_with_a_stable_sort() {
    let mut entries = Vec::new();
    let given = [
        ("m", false, "1"),
        ("a", true, "2"),
        ("m", false, "3"),
        ("z", true, "4"),
        ("a", false, "5"),
        ("m", true, "6"),
        ("m", false, "7"),
        ("", false, "8"),
    ];
    for (name, is_dir, path) in given {
        entries.push(FileEntry { name: name.to_string(), path: path.to_string(), is_dir });
    }
    let mut expected = entries.clone();
    expected.sort_by(|a, b| match (a.is_dir, b.is_dir) {
        (true, false) => std::cmp::Ordering::Less,
        (false, true) => std::cmp::Ordering::Greater,
        _ => a.name.cmp(&b.name),
    });
    let listing = sort_entries(entries);
    let got: Vec<(String, String, bool)> =
        listing.iter().map(|e| (e.name.clone(), e.path.clone(), e.is_dir)).collect();
    let want: Vec<(String, String, bool)> =
        expected.iter().map(|e| (e.name.clone(), e.path.clone(), e.is_dir)).collect();
    assert_eq!(got, want);
    let paths: Vec<&str> = listing.iter().map(|e| e.path.as_str()).collect();
    assert_eq!(paths, vec!["2", "6", "4", "8", "5", "1", "3", "7"]);
}

#[test]
fn insert_entry_goes_behind_its_equals() {
    let mut listing = vec![
        FileEntry { name: "a".to_string(), path: "old".to_string(), is_dir: false },
        FileEntry { name: "c".to_string(), path: "c".to_string(), is_dir: false },
    ];
    insert_entry(&mut listing, FileEntry { name: "a".to_string(), path: "new".to_string(), is_dir: false });
    insert_entry(&mut listing, FileEntry { name: "b".to_string(), path: "b".to_string(), is_dir: false });
    insert_entry(&mut listing, FileEntry { name: "z".to_string(), path: "z".to_string(), is_dir: true });
    let paths: Vec<&str> = listing.iter().map(|e| e.path.as_str()).collect();
    assert_eq!(paths, vec!["z", "old", "new", "b", "c"]);
}
