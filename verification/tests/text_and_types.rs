use indexref::config::{default_log_filter, default_port, Config};
use indexref::env_config::{self, default_sources, EnvConfig};
use indexref::result_ext::{ok_log_errors, ResultExt};
use indexref::sources_config::SourcesConfig;
use indexref::text::{i64_to_decimal, text_is};
use indexref::types::{FileType, NodeType, RelativePathSql};

#[test]
fn decimal_text_of_integers() {
    assert_eq!(i64_to_decimal(0), "0");
    assert_eq!(i64_to_decimal(7), "7");
    assert_eq!(i64_to_decimal(1234567890), "1234567890");
    assert_eq!(i64_to_decimal(-42), "-42");
    assert_eq!(i64_to_decimal(i64::MAX), i64::MAX.to_string());
    assert_eq!(i64_to_decimal(i64::MIN), i64::MIN.to_string());
}

#[test]
fn text_comparison_is_exact() {
    assert!(text_is("link", "link"));
    assert!(!text_is("link", "links"));
    assert!(!text_is("Link", "link"));
    assert!(text_is("", ""));
    assert!(text_is("Ж", "Ж"));
}

#[test]
fn file_type_database_text_round_trips() {
    for t in [FileType::Telegram, FileType::SingleFileZ, FileType::Scrapbook, FileType::OneTab] {
        assert_eq!(FileType::from_value(t.to_value()), Some(t));
    }
    assert_eq!(FileType::Telegram.to_value(), "Telegram");
    assert_eq!(FileType::SingleFileZ.to_value(), "SingleFileZ");
    assert_eq!(FileType::from_value("OneTab"), Some(FileType::OneTab));
    assert_eq!(FileType::from_value("onetab"), None);
    assert_eq!(FileType::from_value(""), None);
}

#[test]
fn node_type_texts_round_trip() {
    for t in [NodeType::Root, NodeType::Telegram, NodeType::SingleFileZ, NodeType::Scrapbook, NodeType::OneTab] {
        assert_eq!(NodeType::from_value(t.to_value()), Some(t));
        assert_eq!(NodeType::from_field_name(t.field_name()), Some(t));
    }
    assert_eq!(NodeType::Root.to_value(), "Root");
    assert_eq!(NodeType::Telegram.field_name(), "telegram");
    assert_eq!(NodeType::SingleFileZ.field_name(), "single_file_z");
    assert_eq!(NodeType::from_value("root"), None);
    assert_eq!(NodeType::from_field_name("Root"), None);
}

#[test]
fn relative_path_keeps_its_text() {
    let p = RelativePathSql::new("data/20230101/index.html".to_string());
    assert_eq!(p.as_str(), "data/20230101/index.html");
    assert_eq!(p.into_string(), "data/20230101/index.html");
}

#[test]
fn server_config_defaults_and_getters() {
    assert_eq!(default_port(), 80);
    assert_eq!(default_log_filter(), "indexref_serve,sea_orm");
    let c = Config::new("postgres://db".to_string(), 3200, "info".to_string());
    assert_eq!(c.db(), "postgres://db");
    assert_eq!(c.port(), 3200);
    assert_eq!(c.log(), "info");
}

#[test]
fn sync_config_defaults_and_getters() {
    assert_eq!(default_sources(), "config.json");
    assert_eq!(env_config::default_log_filter(), "indexref_sync,sea_orm");
    let c = EnvConfig::new("postgres://db".to_string(), "sources.json".to_string(), "debug".to_string());
    assert_eq!(c.db(), "postgres://db");
    assert_eq!(c.sources(), "sources.json");
    assert_eq!(c.log(), "debug");
}

#[test]
fn sources_config_lists_all_directories_in_order() {
    let c = SourcesConfig::new(
        vec!["/t1".to_string(), "/t2".to_string()],
        vec!["/s".to_string()],
        vec![],
        vec!["/o".to_string()],
    );
    assert_eq!(c.telegram(), &["/t1".to_string(), "/t2".to_string()][..]);
    assert_eq!(c.single_file_z(), &["/s".to_string()][..]);
    assert!(c.scrapbook().is_empty());
    assert_eq!(c.onetab(), &["/o".to_string()][..]);
    assert_eq!(c.iter_paths(), vec!["/t1", "/t2", "/s", "/o"]);
}

#[test]
fn results_keep_values_and_drop_errors() {
    let ok: Result<i32, String> = Ok(3);
    let err: Result<i32, String> = Err("bad".to_string());
    assert_eq!(ok.ok_log_errors(), Some(3));
    assert_eq!(err.ok_log_errors(), None);
    assert_eq!(ok_log_errors::<i32, String>(Ok(4)), Some(4));
    assert_eq!(ok_log_errors::<i32, String>(Err(vec!["a".to_string(), "b".to_string()])), None);
}
