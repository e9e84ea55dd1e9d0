use indexref::http::{
    get_node_full, response_status, static_asset_uri, ErrorStatusCode, InternalError, NodeDataError,
};
use indexref::presentation::{FileModel, NodeModel, NodePresentaion, RecordId};
use indexref::types::{FileType, NodeType, PathBufSql};

fn node(id: i32, data: Option<&str>) -> NodeModel {
    NodeModel {
        id,
        file_id: Some(4),
        node_type: NodeType::Telegram,
        title: Some("t".to_string()),
        subtype: Some("message".to_string()),
        url: None,
        icon: None,
        created: None,
        modified: None,
        original_id: Some("99".to_string()),
        data: data.map(|d| d.to_string()),
        parent_id: Some(1),
    }
}

fn file() -> FileModel {
    FileModel { id: 4, source_type: FileType::Telegram, path: PathBufSql("/c/result.json".to_string()), hash: "h".to_string() }
}

#[test]
fn presentation_joins_node_and_file() {
    let p = NodePresentaion::from((node(12, Some("{\"a\":1}")), Some(file())));
    assert_eq!(p.id, 12);
    assert_eq!(p.file_id, Some(4));
    assert_eq!(p.file_path.as_ref().map(|f| f.0.as_str()), Some("/c/result.json"));
    assert_eq!(p.title.as_deref(), Some("t"));
    assert_eq!(p.parent_id, Some(1));
    let data = p.data.as_ref().unwrap();
    assert_eq!(data.node_type.field_name(), "telegram");
    assert_eq!(data.value, "{\"a\":1}");
    let q = NodePresentaion::from((node(13, None), None));
    assert!(q.file_path.is_none());
    assert!(q.data.is_none());
}

#[test]
fn record_id_is_the_decimal_node_id() {
    assert_eq!(NodePresentaion::from((node(12, None), None)).record_id(), "12");
    assert_eq!(NodePresentaion::from((node(-3, None), None)).record_id(), "-3");
}

#[test]
fn node_full_is_found_or_not_found() {
    let found = get_node_full(Some((node(12, None), Some(file()))), 12).unwrap();
    assert_eq!(found.id, 12);
    match get_node_full(None, 77) {
        Err(e) => {
            assert_eq!(e.status_code(), 404);
            assert_eq!(e.message(), "Node not found: 77");
        },
        Ok(_) => panic!("found a missing node"),
    }
}

#[test]
fn error_status_codes() {
    assert_eq!(NodeDataError::NodeNotFound { id: 1 }.status_code(), 404);
    let db = NodeDataError::DbError("connection refused".to_string());
    assert_eq!(db.status_code(), 500);
    assert_eq!(db.message(), "connection refused");
    assert_eq!(InternalError("boom".to_string()).status_code(), 500);
}

#[test]
fn response_status_of_results() {
    let ok: Result<i32, NodeDataError> = Ok(1);
    assert_eq!(response_status(&ok), (200, "ok"));
    let missing: Result<i32, NodeDataError> = Err(NodeDataError::NodeNotFound { id: 5 });
    assert_eq!(response_status(&missing), (404, "error"));
    let internal: Result<i32, InternalError> = Err(InternalError("x".to_string()));
    assert_eq!(response_status(&internal), (500, "error"));
}

#[test]
fn static_assets_are_forwarded_with_their_query() {
    assert_eq!(static_asset_uri("/app.js", Some("/app.js?v=2")), "http://localhost:3000/static/app.js?v=2");
    assert_eq!(static_asset_uri("/app.js", None), "http://localhost:3000/static/app.js");
}
