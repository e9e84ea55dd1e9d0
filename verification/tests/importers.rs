use indexref::datetime::{parse_datetime, DateTime};
use indexref::onetab::{import_onetab, onetab_date, OnetabBlock, OnetabDate, OnetabLink, OnetabString};
use indexref::record::ImportError;
use indexref::single_file_z::{import_single_file_z, page_record, saved_date};
use indexref::telegram::{
    full_text, import_chat, message_node, message_record, message_url, Chat, ChatMetadata, Message, TextEntity,
};
use indexref::types::NodeType;

fn dt(year: i32, month: u32, day: u32, hour: u32, minute: u32, second: u32) -> DateTime {
    DateTime { year, month, day, hour, minute, second, nanosecond: 0 }
}

fn entity(t: &str, text: &str, href: Option<&str>) -> TextEntity {
    TextEntity { entity_type: t.to_string(), text: text.to_string(), href: href.map(|h| h.to_string()) }
}

fn message(id: i64, t: &str, date: &str, entities: Vec<TextEntity>) -> Message {
    Message {
        id,
        message_type: t.to_string(),
        date: date.to_string(),
        edited: None,
        text_entities: entities,
        photo: None,
        file: None,
    }
}

#[test]
fn parse_datetime_reads_valid_dates_only() {
    assert_eq!(parse_datetime("2023-06-09T15:37:19", "%Y-%m-%dT%H:%M:%S"), Some(dt(2023, 6, 9, 15, 37, 19)));
    assert_eq!(parse_datetime("2023-02-30T15:37:19", "%Y-%m-%dT%H:%M:%S"), None);
    assert_eq!(parse_datetime("yesterday", "%Y-%m-%dT%H:%M:%S"), None);
}

#[test]
fn message_text_and_link() {
    let es = vec![
        entity("plain", "see ", None),
        entity("text_link", "here", Some("https://example.org/a")),
        entity("link", "https://example.org/b", None),
    ];
    assert_eq!(full_text(&es), "see herehttps://example.org/b");
    assert_eq!(message_url(&es).as_deref(), Some("https://example.org/a"));
    let es2 = vec![entity("plain", "x", None), entity("link", "https://l", None), entity("text_link", "y", Some("https://h"))];
    assert_eq!(message_url(&es2).as_deref(), Some("https://l"));
    assert_eq!(message_url(&vec![entity("plain", "x", None)]), None);
}

#[test]
fn message_record_of_a_text_message() {
    let m = message(-17, "message", "2023-06-09T15:37:19", vec![entity("plain", "hello", None)]);
    let node = message_record(3, 0, &m).expect("dates read");
    let r = &node.record;
    assert_eq!(r.file_id, Some(3));
    assert_eq!(r.node_type, NodeType::Telegram);
    assert_eq!(r.title.as_deref(), Some("hello"));
    assert_eq!(r.subtype.as_deref(), Some("message"));
    assert_eq!(r.url, None);
    assert_eq!(r.created, Some(dt(2023, 6, 9, 15, 37, 19)));
    assert_eq!(r.modified, r.created);
    assert_eq!(r.original_id.as_deref(), Some("-17"));
    assert_eq!(node.full_text, "hello");
}

#[test]
fn message_title_falls_back_to_file_then_photo() {
    let mut m = message(1, "message", "2023-06-09T15:37:19", vec![]);
    m.photo = Some("photos/p.jpg".to_string());
    assert_eq!(message_record(1, 0, &m).unwrap().record.title.as_deref(), Some("photos/p.jpg"));
    m.file = Some("files/doc.pdf".to_string());
    assert_eq!(message_record(1, 0, &m).unwrap().record.title.as_deref(), Some("files/doc.pdf"));
    m.photo = None;
    m.file = None;
    assert_eq!(message_record(1, 0, &m).unwrap().record.title, None);
}

#[test]
fn edited_message_is_modified_when_edited() {
    let mut m = message(1, "message", "2023-06-09T15:37:19", vec![]);
    m.edited = Some("2023-06-10T01:02:03".to_string());
    let r = message_record(1, 0, &m).unwrap().record;
    assert_eq!(r.created, Some(dt(2023, 6, 9, 15, 37, 19)));
    assert_eq!(r.modified, Some(dt(2023, 6, 10, 1, 2, 3)));
}

#[test]
fn unreadable_message_dates_are_errors() {
    let m = message(1, "message", "June 9th", vec![]);
    match message_record(1, 0, &m) {
        Err(ImportError::InvalidDate(t)) => assert_eq!(t, "June 9th"),
        other => panic!("unexpected {other:?}"),
    }
    let mut m = message(1, "message", "2023-06-09T15:37:19", vec![]);
    m.edited = Some("later".to_string());
    match message_record(1, 0, &m) {
        Err(ImportError::InvalidDate(t)) => assert_eq!(t, "later"),
        other => panic!("unexpected {other:?}"),
    }
}

#[test]
fn message_node_from_read_dates() {
    let m = message(5, "message", "whatever", vec![]);
    let n = message_node(2, 5, &m, Some(dt(2020, 1, 1, 0, 0, 0)), None).unwrap();
    assert_eq!(n.position, 5);
    assert_eq!(n.record.created, Some(dt(2020, 1, 1, 0, 0, 0)));
    assert_eq!(n.record.modified, Some(dt(2020, 1, 1, 0, 0, 0)));
    assert!(matches!(message_node(2, 0, &m, None, None), Err(ImportError::InvalidDate(_))));
}

#[test]
fn chat_import_skips_service_messages() {
    let chat = Chat {
        metadata: ChatMetadata { name: Some("chat".to_string()), chat_type: "personal_chat".to_string(), id: 9 },
        messages: vec![
            message(1, "message", "2023-06-09T15:37:19", vec![entity("plain", "a", None)]),
            message(2, "service", "not a date", vec![]),
            message(3, "message", "2023-06-09T15:38:00", vec![entity("plain", "b", None)]),
        ],
    };
    let nodes = import_chat(4, &chat).unwrap();
    let ids: Vec<&str> = nodes.iter().map(|n| n.record.original_id.as_deref().unwrap()).collect();
    assert_eq!(ids, vec!["1", "3"]);
    let positions: Vec<usize> = nodes.iter().map(|n| n.position).collect();
    assert_eq!(positions, vec![0, 2]);
}

#[test]
fn chat_import_stops_at_first_bad_date() {
    let chat = Chat {
        metadata: ChatMetadata { name: None, chat_type: "saved_messages".to_string(), id: 9 },
        messages: vec![
            message(1, "message", "bad one", vec![]),
            message(2, "message", "bad two", vec![]),
        ],
    };
    match import_chat(4, &chat) {
        Err(ImportError::InvalidDate(t)) => assert_eq!(t, "bad one"),
        other => panic!("unexpected {other:?}"),
    }
}

fn link(url: &str, title: &str) -> OnetabLink {
    OnetabLink { children: (OnetabString { string: url.to_string() }, OnetabString { string: title.to_string() }) }
}

#[test]
fn onetab_date_is_read_after_the_marker() {
    assert_eq!(onetab_date("[[OneTab]] 2023-05-25_07-47-39 (12 tabs)").as_deref(), Some("2023-05-25_07-47-39"));
    assert_eq!(onetab_date("[[OneTab]] 2023-05-25_07-47-39").as_deref(), Some("2023-05-25_07-47-39"));
    assert_eq!(onetab_date("[[OneTab]] 2023-05-25 07-47-39"), None);
    assert_eq!(onetab_date(" [[OneTab]] 2023-05-25_07-47-39"), None);
    assert_eq!(onetab_date("[[OneTab]] 2023-05-25_07-47-3"), None);
}

#[test]
fn onetab_import_makes_a_node_per_tab() {
    let blocks = vec![
        OnetabBlock {
            title: "one".to_string(),
            children: vec![OnetabDate {
                string: "[[OneTab]] 2023-05-25_07-47-39 (2 tabs)".to_string(),
                children: vec![link("https://a", "A"), link("https://b", "B")],
            }],
        },
        OnetabBlock {
            title: "two".to_string(),
            children: vec![OnetabDate {
                string: "[[OneTab]] 2022-01-02_03-04-05".to_string(),
                children: vec![link("https://c", "C")],
            }],
        },
    ];
    let nodes = import_onetab(8, &blocks).unwrap();
    assert_eq!(nodes.len(), 3);
    assert_eq!(nodes[0].url.as_deref(), Some("https://a"));
    assert_eq!(nodes[0].title.as_deref(), Some("A"));
    assert_eq!(nodes[1].created, Some(dt(2023, 5, 25, 7, 47, 39)));
    assert_eq!(nodes[2].created, Some(dt(2022, 1, 2, 3, 4, 5)));
    assert_eq!(nodes[2].node_type, NodeType::OneTab);
    assert_eq!(nodes[2].file_id, Some(8));
}

#[test]
fn onetab_import_errors() {
    let bad_text = vec![OnetabBlock {
        title: "x".to_string(),
        children: vec![OnetabDate { string: "tabs of monday".to_string(), children: vec![] }],
    }];
    match import_onetab(1, &bad_text) {
        Err(ImportError::UnexpectedDateString(s)) => assert_eq!(s, "tabs of monday"),
        other => panic!("unexpected {other:?}"),
    }
    let bad_date = vec![OnetabBlock {
        title: "x".to_string(),
        children: vec![OnetabDate { string: "[[OneTab]] 2023-13-25_07-47-39".to_string(), children: vec![] }],
    }];
    match import_onetab(1, &bad_date) {
        Err(ImportError::InvalidDate(s)) => assert_eq!(s, "2023-13-25_07-47-39"),
        other => panic!("unexpected {other:?}"),
    }
}

#[test]
fn saved_date_is_read_from_the_end_of_the_name() {
    assert_eq!(saved_date("Page title (09.06.2023 15_37_19).html").as_deref(), Some("09.06.2023 15_37_19"));
    assert_eq!(saved_date("(09.06-2023 15_37_19).html").as_deref(), Some("09.06-2023 15_37_19"));
    assert_eq!(saved_date("Page title (09.06.2023 15_37_19).htm"), None);
    assert_eq!(saved_date("Page title (9.06.2023 15_37_19).html"), None);
    assert_eq!(saved_date("Page title.html"), None);
}

#[test]
fn single_file_z_page_record() {
    let html = "<html><head><title>My page</title><link rel=\"canonical\" href=\"https://example.org/page\"></head><body></body></html>";
    let r = import_single_file_z(6, "/saved/My page (09.06.2023 15_37_19).html", html).unwrap();
    assert_eq!(r.node_type, NodeType::SingleFileZ);
    assert_eq!(r.file_id, Some(6));
    assert_eq!(r.title.as_deref(), Some("My page"));
    assert_eq!(r.url.as_deref(), Some("https://example.org/page"));
    assert_eq!(r.created, Some(dt(2023, 6, 9, 15, 37, 19)));
    let plain = import_single_file_z(6, "/saved/page.html", "<p>no head</p>").unwrap();
    assert_eq!(plain.title, None);
    assert_eq!(plain.url, None);
    assert_eq!(plain.created, None);
}

#[test]
fn single_file_z_errors() {
    match import_single_file_z(6, "/saved/p (31.02.2023 15_37_19).html", "") {
        Err(ImportError::InvalidDate(d)) => assert_eq!(d, "31.02.2023 15_37_19"),
        other => panic!("unexpected {other:?}"),
    }
    assert!(matches!(import_single_file_z(6, "/", ""), Err(ImportError::NotAFilePath(_))));
    assert!(matches!(page_record(1, None, None, Some("x".to_string()), None), Err(ImportError::InvalidDate(_))));
    assert_eq!(page_record(1, None, None, None, None).unwrap().created, None);
}

#[test]
fn dates_in_names_take_any_decimal_digits() {
    assert_eq!(
        onetab_date("[[OneTab]] \u{0662}023-05-25_07-47-39").as_deref(),
        Some("\u{0662}023-05-25_07-47-39")
    );
    assert_eq!(
        saved_date("p (\u{0660}9.06.2023 15_37_19).html").as_deref(),
        Some("\u{0660}9.06.2023 15_37_19")
    );
}
