use indexref::record::ImportError;
use indexref::scrapbook::{
    extract_redirect_path, index_html_path, is_file_item, item_record, none_if_empty, parent_links, redirect_target,
    scrapbook_dir, RdfDescription, RdfLi, RdfSequence,
};
use indexref::types::NodeType;

fn description(id: &str, t: &str, title: &str, source: &str) -> RdfDescription {
    RdfDescription {
        about: format!("urn:scrapbook:item{id}"),
        id: id.to_string(),
        item_type: t.to_string(),
        title: title.to_string(),
        source: source.to_string(),
    }
}

fn sequence(about: &str, items: &[&str]) -> RdfSequence {
    RdfSequence {
        about: about.to_string(),
        items: items.iter().map(|r| RdfLi { resource: r.to_string() }).collect(),
    }
}

fn ids(v: &[(&str, i32)]) -> Vec<(String, i32)> {
    v.iter().map(|(a, i)| (a.to_string(), *i)).collect()
}

#[test]
fn empty_texts_become_none() {
    assert_eq!(none_if_empty(&String::new()), None);
    assert_eq!(none_if_empty(&"x".to_string()).as_deref(), Some("x"));
}

#[test]
fn item_record_of_a_page() {
    let d = description("20230101", "", "Title", "https://src");
    let r = item_record(2, &d, None, None);
    assert_eq!(r.node_type, NodeType::Scrapbook);
    assert_eq!(r.subtype, None);
    assert_eq!(r.title.as_deref(), Some("Title"));
    assert_eq!(r.url.as_deref(), Some("https://src"));
    assert_eq!(r.original_id.as_deref(), Some("20230101"));
    assert!(!is_file_item(&d));
    assert!(is_file_item(&description("1", "file", "", "")));
}

#[test]
fn scrapbook_paths() {
    assert_eq!(scrapbook_dir("/books/sb/scrapbook.rdf").unwrap(), "/books/sb");
    assert!(matches!(scrapbook_dir("/"), Err(ImportError::NoParentFolder(_))));
    assert_eq!(index_html_path("/books/sb", "20230101"), "/books/sb/data/20230101/index.html");
}

#[test]
fn redirect_targets() {
    assert_eq!(redirect_target("0;URL=./file.pdf").as_deref(), Some("./file.pdf"));
    assert_eq!(redirect_target("1; 0;URL=a b\nrest").as_deref(), Some("a b"));
    assert_eq!(redirect_target("0;URL=\n0;URL=second").as_deref(), Some("second"));
    assert_eq!(redirect_target("0;URL="), None);
    assert_eq!(redirect_target("url=x"), None);
}

#[test]
fn redirect_is_followed_to_the_file() {
    let html = "<html><head><meta http-equiv=\"refresh\" content=\"0;URL=./doc%20one.pdf\"></head></html>";
    assert_eq!(extract_redirect_path("/sb/data/1/index.html", html).unwrap(), "/sb/data/1/doc one.pdf");
    let up = "<meta content=\"0;URL=../2/x.txt\">";
    assert_eq!(extract_redirect_path("/sb/data/1/index.html", up).unwrap(), "/sb/data/2/x.txt");
}

#[test]
fn redirect_errors() {
    assert!(matches!(extract_redirect_path("/sb/index.html", "<p>none</p>"), Err(ImportError::NoMetaTag)));
    match extract_redirect_path("/sb/index.html", "<meta content=\"5\">") {
        Err(ImportError::UnexpectedContentValue(c)) => assert_eq!(c, "5"),
        other => panic!("unexpected {other:?}"),
    }
    assert!(matches!(
        extract_redirect_path("relative/index.html", "<meta content=\"0;URL=x\">"),
        Err(ImportError::NotAFileUrl(_))
    ));
}

#[test]
fn parent_links_place_items_under_folders() {
    let ids = ids(&[("urn:a", 10), ("urn:b", 11), ("urn:c", 12), ("urn:b", 13)]);
    let seqs = vec![
        sequence("urn:scrapbook:root", &["urn:a"]),
        sequence("urn:a", &["urn:b", "urn:c"]),
    ];
    assert_eq!(parent_links(&ids, &seqs).unwrap(), vec![(13, 10), (12, 10)]);
}

#[test]
fn parent_links_report_missing_resources() {
    let ids = ids(&[("urn:a", 10)]);
    match parent_links(&ids, &vec![sequence("urn:x", &["urn:a"])]) {
        Err(ImportError::MissingAbout(a)) => assert_eq!(a, "urn:x"),
        other => panic!("unexpected {other:?}"),
    }
    match parent_links(&ids, &vec![sequence("urn:a", &["urn:a", "urn:y", "urn:z"])]) {
        Err(ImportError::MissingResource(r)) => assert_eq!(r, "urn:y"),
        other => panic!("unexpected {other:?}"),
    }
    assert_eq!(parent_links(&ids, &vec![sequence("urn:scrapbook:root", &["urn:missing"])]).unwrap(), vec![]);
}

#[test]
fn redirect_target_is_what_follows_the_marker() {
    assert_eq!(redirect_target("0;URL=tail").as_deref(), Some("tail"));
    assert_eq!(redirect_target("00;URL=x"), Some("x".to_string()));
}

#[test]
fn redirect_to_a_path_that_is_not_utf8_is_followed() {
    let html = "<meta content=\"0;URL=%FF.pdf\">";
    assert_eq!(extract_redirect_path("/sb/data/1/index.html", html).unwrap(), "/sb/data/1/\u{FFFD}.pdf");
}
