use indexref::diff_files::{diff_files_with_db, FileSummary};
use indexref::types::FileType;

fn summary(file_type: FileType, path: &str, hash: &str) -> FileSummary {
    FileSummary { file_type, path: path.to_string(), hash: hash.to_string() }
}

fn paths(v: &[FileSummary]) -> Vec<&str> {
    v.iter().map(|s| s.path.as_str()).collect()
}

#[test]
fn diff_deletes_gone_and_changed_files_and_adds_new_ones() {
    let indexed = vec![
        (summary(FileType::Telegram, "/a/result.json", "h1"), 1),
        (summary(FileType::OneTab, "/b/tabs.json", "h2"), 2),
        (summary(FileType::Scrapbook, "/c/scrapbook.rdf", "h3"), 3),
    ];
    let actual = vec![
        summary(FileType::Telegram, "/a/result.json", "h1"),
        summary(FileType::OneTab, "/b/tabs.json", "h2-changed"),
        summary(FileType::SingleFileZ, "/d/page.html", "h4"),
    ];
    let diff = diff_files_with_db(&indexed, actual);
    assert_eq!(diff.to_delete, vec![2, 3]);
    assert_eq!(paths(&diff.to_add), vec!["/b/tabs.json", "/d/page.html"]);
    assert_eq!(diff.to_add[0].hash, "h2-changed");
}

#[test]
fn diff_of_synced_index_is_empty() {
    let indexed = vec![
        (summary(FileType::Telegram, "/a/result.json", "h1"), 10),
        (summary(FileType::OneTab, "/b/tabs.json", "h2"), 11),
    ];
    let actual = vec![
        summary(FileType::OneTab, "/b/tabs.json", "h2"),
        summary(FileType::Telegram, "/a/result.json", "h1"),
    ];
    let diff = diff_files_with_db(&indexed, actual);
    assert!(diff.to_delete.is_empty());
    assert!(diff.to_add.is_empty());
}

#[test]
fn diff_against_empty_index_adds_everything() {
    let actual = vec![summary(FileType::OneTab, "/b/tabs.json", "h2")];
    let diff = diff_files_with_db(&Vec::new(), actual);
    assert!(diff.to_delete.is_empty());
    assert_eq!(paths(&diff.to_add), vec!["/b/tabs.json"]);
}

#[test]
fn same_path_with_other_type_is_another_file() {
    let indexed = vec![(summary(FileType::OneTab, "/x.json", "h"), 5)];
    let actual = vec![summary(FileType::Telegram, "/x.json", "h")];
    let diff = diff_files_with_db(&indexed, actual);
    assert_eq!(diff.to_delete, vec![5]);
    assert_eq!(diff.to_add.len(), 1);
}

#[test]
fn file_summaries_compare_by_all_fields() {
    assert!(summary(FileType::OneTab, "/x", "h") == summary(FileType::OneTab, "/x", "h"));
    assert!(summary(FileType::OneTab, "/x", "h") != summary(FileType::OneTab, "/x", "g"));
    assert!(summary(FileType::OneTab, "/x", "h") != summary(FileType::OneTab, "/y", "h"));
}

#[test]
fn files_found_twice_are_added_once() {
    let actual = vec![
        summary(FileType::OneTab, "/b/tabs.json", "h2"),
        summary(FileType::Telegram, "/a/result.json", "h1"),
        summary(FileType::OneTab, "/b/tabs.json", "h2"),
    ];
    let diff = diff_files_with_db(&Vec::new(), actual);
    assert_eq!(paths(&diff.to_add), vec!["/b/tabs.json", "/a/result.json"]);
}

#[test]
fn paths_compare_by_components() {
    assert!(summary(FileType::OneTab, "/x/y", "h") == summary(FileType::OneTab, "/x//y/", "h"));
    let indexed = vec![(summary(FileType::Telegram, "/a/result.json", "h1"), 1)];
    let actual = vec![summary(FileType::Telegram, "/a/./result.json", "h1")];
    let diff = diff_files_with_db(&indexed, actual);
    assert!(diff.to_delete.is_empty());
    assert!(diff.to_add.is_empty());
}

#[test]
fn index_keeps_the_last_entry_of_a_file() {
    let indexed = vec![
        (summary(FileType::OneTab, "/b/tabs.json", "h2"), 1),
        (summary(FileType::OneTab, "/b/tabs.json", "h2"), 2),
    ];
    let diff = diff_files_with_db(&indexed, Vec::new());
    assert_eq!(diff.to_delete, vec![2]);
}
