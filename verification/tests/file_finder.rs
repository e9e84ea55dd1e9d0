use indexref::file_finder::{
    find_all, find_onetab, find_scrapbooks, find_singlefile_z, find_telegram, is_source_name, WalkedSources,
};
use indexref::types::FileType;

fn strings(v: &[&str]) -> Vec<String> {
    v.iter().map(|s| s.to_string()).collect()
}

fn found_paths(v: &[indexref::file_finder::FoundFile]) -> Vec<&str> {
    v.iter().map(|f| f.path.as_str()).collect()
}

#[test]
fn telegram_exports_are_result_json_files() {
    let walked = strings(&["/chats", "/chats/a/result.json", "/chats/b/other.json", "/chats/result.json/x", "/chats/c/result.json"]);
    let found = find_telegram(&walked);
    assert_eq!(found_paths(&found), vec!["/chats/a/result.json", "/chats/c/result.json"]);
    assert!(found.iter().all(|f| f.file_type == FileType::Telegram));
}

#[test]
fn single_file_z_pages_have_html_extension() {
    let walked = strings(&["/p/a.html", "/p/b.htm", "/p/c.HTML", "/p/d (01.02.2023 10_11_12).html", "/p/.html"]);
    let found = find_singlefile_z(&walked);
    assert_eq!(found_paths(&found), vec!["/p/a.html", "/p/d (01.02.2023 10_11_12).html"]);
}

#[test]
fn scrapbooks_are_scrapbook_rdf_files() {
    let walked = strings(&["/s/scrapbook.rdf", "/s/data/x/index.html", "/t/scrapbook.rdf.bak"]);
    let found = find_scrapbooks(&walked);
    assert_eq!(found_paths(&found), vec!["/s/scrapbook.rdf"]);
    assert_eq!(found[0].file_type, FileType::Scrapbook);
}

#[test]
fn onetab_exports_have_json_extension() {
    let walked = strings(&["/o/tabs.json", "/o/result.json", "/o/tabs.json5", "/o/archive.tar.json"]);
    let found = find_onetab(&walked);
    assert_eq!(found_paths(&found), vec!["/o/tabs.json", "/o/result.json", "/o/archive.tar.json"]);
}

#[test]
fn find_all_goes_by_kind_then_directory() {
    let walked = WalkedSources {
        telegram: vec![strings(&["/t1/result.json"]), strings(&["/t2/x/result.json", "/t2/y.txt"])],
        single_file_z: vec![strings(&["/s/p.html"])],
        scrapbook: vec![strings(&["/b/scrapbook.rdf"])],
        onetab: vec![strings(&["/o/a.json", "/o/b.json"])],
    };
    let found = find_all(&walked);
    assert_eq!(
        found_paths(&found),
        vec!["/t1/result.json", "/t2/x/result.json", "/s/p.html", "/b/scrapbook.rdf", "/o/a.json", "/o/b.json"]
    );
    let kinds: Vec<FileType> = found.iter().map(|f| f.file_type).collect();
    assert_eq!(
        kinds,
        vec![FileType::Telegram, FileType::Telegram, FileType::SingleFileZ, FileType::Scrapbook, FileType::OneTab, FileType::OneTab]
    );
}

#[test]
fn source_names_by_kind() {
    let some = |s: &str| Some(s.to_string());
    assert!(is_source_name(FileType::Telegram, &some("result.json"), &some("json")));
    assert!(!is_source_name(FileType::Telegram, &some("results.json"), &some("json")));
    assert!(is_source_name(FileType::OneTab, &some("results.json"), &some("json")));
    assert!(!is_source_name(FileType::SingleFileZ, &None, &None));
    assert!(is_source_name(FileType::Scrapbook, &some("scrapbook.rdf"), &some("rdf")));
}
