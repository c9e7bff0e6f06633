use myrustutils::common::{select_entries, DirEntryInfo};

fn entry(name: &str, is_dir: bool) -> DirEntryInfo {
    DirEntryInfo { name: name.to_string(), is_dir, is_file: !is_dir }
}

fn listing() -> Vec<DirEntryInfo> {
    vec![entry("file1", false), entry("dir1", true), entry("file2", false), entry("dir2", true)]
}

#[test]
fn test_read_dir() {
    let entries = listing();
    let dirs = select_entries(&entries, None, Some(true));
    let files = select_entries(&entries, None, Some(false));
    let both = select_entries(&entries, None, None);

    assert!(dirs.contains(&String::from("dir1")) && dirs.contains(&String::from("dir2")));
    assert!(dirs.len() == 2);
    assert!(files.contains(&String::from("file1")) && files.contains(&String::from("file2")));
    assert!(files.len() == 2);
    assert!(both.contains(&String::from("dir1")) && both.contains(&String::from("dir2")));
    assert!(both.contains(&String::from("file1")) && both.contains(&String::from("file2")));
    assert!(both.len() == 4);
}

#[test]
fn select_keeps_listing_order() {
    let entries = listing();
    assert_eq!(select_entries(&entries, None, None), vec!["file1", "dir1", "file2", "dir2"]);
    assert_eq!(select_entries(&entries, None, Some(true)), vec!["dir1", "dir2"]);
}

#[test]
fn select_by_text() {
    let entries = listing();
    assert_eq!(select_entries(&entries, Some("2"), None), vec!["file2", "dir2"]);
    assert_eq!(select_entries(&entries, Some("dir"), Some(false)), Vec::<String>::new());
    assert_eq!(select_entries(&entries, Some("ile"), Some(false)), vec!["file1", "file2"]);
    assert_eq!(select_entries(&entries, Some(""), Some(true)), vec!["dir1", "dir2"]);
    assert_eq!(select_entries(&entries, Some("file10"), None), Vec::<String>::new());
}

#[test]
fn select_entry_of_neither_kind() {
    let entries = vec![DirEntryInfo { name: "link".to_string(), is_dir: false, is_file: false }];
    assert_eq!(select_entries(&entries, None, None), vec!["link"]);
    assert_eq!(select_entries(&entries, None, Some(true)), Vec::<String>::new());
    assert_eq!(select_entries(&entries, None, Some(false)), Vec::<String>::new());
}
