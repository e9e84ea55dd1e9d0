use vstd::prelude::*;

use crate::presentation::{presentation_of, FileModel, NodeModel, NodePresentaion};
use crate::text::{decimal, i64_to_decimal};

verus! {

/// The HTTP status of a successful response.
pub const STATUS_OK: u16 = 200;

/// The HTTP status of a request for a missing resource.
pub const STATUS_NOT_FOUND: u16 = 404;

/// The HTTP status of a failure of the server.
pub const STATUS_INTERNAL_SERVER_ERROR: u16 = 500;

/// The HTTP status that an error is answered with.
pub trait ErrorStatusCode {
    spec fn spec_status_code(&self) -> u16;

    fn status_code(&self) -> (res: u16)
        ensures
            res == self.spec_status_code(),
    ;
}

/// A failure of the server that has no status of its own, with its message.
#[derive(Debug)]
pub struct InternalError(pub String);

impl ErrorStatusCode for InternalError {
    open spec fn spec_status_code(&self) -> u16 {
        STATUS_INTERNAL_SERVER_ERROR
    }

    fn status_code(&self) -> (res: u16) {
        STATUS_INTERNAL_SERVER_ERROR
    }
}

/// Why the data of a node could not be served.
#[derive(Debug)]
pub enum NodeDataError {
    /// No node has the id.
    NodeNotFound { id: i32 },
    /// The database failed, with its message.
    DbError(String),
}

impl ErrorStatusCode for NodeDataError {
    open spec fn spec_status_code(&self) -> u16 {
        match self {
            NodeDataError::NodeNotFound { .. } => STATUS_NOT_FOUND,
            NodeDataError::DbError(_) => STATUS_INTERNAL_SERVER_ERROR,
        }
    }

    fn status_code(&self) -> (res: u16) {
        match self {
            NodeDataError::NodeNotFound { .. } => STATUS_NOT_FOUND,
            NodeDataError::DbError(_) => STATUS_INTERNAL_SERVER_ERROR,
        }
    }
}

impl NodeDataError {
    /// The message of the error.
    pub fn message(&self) -> (res: String)
        ensures
            res@ == match self {
                NodeDataError::NodeNotFound { id } => "Node not found: "@ + decimal(*id as int),
                NodeDataError::DbError(m) => m@,
            },
    {
        match self {
            NodeDataError::NodeNotFound { id } => {
                let mut s = String::from_str("Node not found: ");
                s.append(i64_to_decimal(*id as i64).as_str());
                s
            },
            NodeDataError::DbError(m) => m.clone(),
        }
    }
}

/// The full data of the node with the given id, from what the database
/// found under that id.
pub fn get_node_full(found: Option<(NodeModel, Option<FileModel>)>, id: i32) -> (res: Result<NodePresentaion, NodeDataError>)
    ensures
        match found {
            Some(f) => res == Ok::<NodePresentaion, NodeDataError>(presentation_of(f.0, f.1)),
            None => res == Err::<NodePresentaion, NodeDataError>(NodeDataError::NodeNotFound { id }),
        },
{
    match found {
        Some(pair) => Ok(NodePresentaion::from(pair)),
        None => Err(NodeDataError::NodeNotFound { id }),
    }
}

/// The status of a JSON response to a result and the text of its `status`
/// field: `200` and `ok` for a value, the error's own status and `error` for
/// an error.
pub fn response_status<T, E: ErrorStatusCode>(result: &Result<T, E>) -> (res: (u16, &'static str))
    ensures
        match result {
            Ok(_) => res.0 == STATUS_OK && res.1@ == "ok"@,
            Err(e) => res.0 == e.spec_status_code() && res.1@ == "error"@,
        },
{
    match result {
        Ok(_) => (STATUS_OK, "ok"),
        Err(e) => (e.status_code(), "error"),
    }
}

/// The address of the front-end development server that static assets are
/// fetched from.
pub const STATIC_ASSET_ORIGIN: &'static str = "http://localhost:3000/static";

/// The address that a request for a static asset is forwarded to: the
/// request's path and query, or its path alone when it has no query part,
/// under the asset server's `/static`.
pub fn static_asset_uri(path: &str, path_and_query: Option<&str>) -> (res: String)
    ensures
        res@ == STATIC_ASSET_ORIGIN@ + match path_and_query {
            Some(pq) => pq@,
            None => path@,
        },
{
    let mut uri = String::from_str(STATIC_ASSET_ORIGIN);
    match path_and_query {
        Some(pq) => uri.append(pq),
        None => uri.append(path),
    }
    uri
}

/// A request for a node that does not exist is answered with 404 (not
/// found); a failure of the database, or any other failure of the server,
/// with 500 (internal server error).
pub proof fn lemma_error_statuses(id: i32, message: String, other: InternalError)
    ensures
        (NodeDataError::NodeNotFound { id }).spec_status_code() == 404,
        NodeDataError::DbError(message).spec_status_code() == 500,
        other.spec_status_code() == 500,
{
}

} // verus!
