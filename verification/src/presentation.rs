use vstd::prelude::*;

use crate::datetime::DateTime;
use crate::text::{decimal, i64_to_decimal};
use crate::types::{FileType, NodeType, PathBufSql};

verus! {

/// A stored node of the index.
#[derive(Debug)]
pub struct NodeModel {
    pub id: i32,
    pub file_id: Option<i32>,
    pub node_type: NodeType,
    pub title: Option<String>,
    pub subtype: Option<String>,
    pub url: Option<String>,
    pub icon: Option<String>,
    pub created: Option<DateTime>,
    pub modified: Option<DateTime>,
    pub original_id: Option<String>,
    /// The node's data, as JSON text.
    pub data: Option<String>,
    pub parent_id: Option<i32>,
}

/// A stored source file of the index.
#[derive(Debug)]
pub struct FileModel {
    pub id: i32,
    pub source_type: FileType,
    pub path: PathBufSql,
    pub hash: String,
}

/// A node's data, presented under the field named after its node type.
#[derive(Debug)]
pub struct NodeData {
    pub node_type: NodeType,
    /// The data, as JSON text.
    pub value: String,
}

/// A node as the user sees it and the search index holds it: the node's
/// fields, the path of its source file, and its data under the field named
/// after its node type.
#[derive(Debug)]
pub struct NodePresentaion {
    pub id: i32,
    pub file_id: Option<i32>,
    pub file_path: Option<PathBufSql>,
    pub node_type: NodeType,
    pub title: Option<String>,
    pub subtype: Option<String>,
    pub url: Option<String>,
    pub icon: Option<String>,
    pub created: Option<DateTime>,
    pub modified: Option<DateTime>,
    pub original_id: Option<String>,
    pub parent_id: Option<i32>,
    pub data: Option<NodeData>,
}

/// The presentation of a node and, if it has one, its source file.
pub open spec fn presentation_of(node: NodeModel, file: Option<FileModel>) -> NodePresentaion {
    NodePresentaion {
        id: node.id,
        file_id: node.file_id,
        file_path: match file {
            Some(f) => Some(f.path),
            None => None,
        },
        node_type: node.node_type,
        title: node.title,
        subtype: node.subtype,
        url: node.url,
        icon: node.icon,
        created: node.created,
        modified: node.modified,
        original_id: node.original_id,
        parent_id: node.parent_id,
        data: match node.data {
            Some(d) => Some(NodeData { node_type: node.node_type, value: d }),
            None => None,
        },
    }
}

impl From<(NodeModel, Option<FileModel>)> for NodePresentaion {
    fn from(value: (NodeModel, Option<FileModel>)) -> (res: NodePresentaion) {
        let (node, file) = value;
        let node_type = node.node_type;
        NodePresentaion {
            id: node.id,
            file_id: node.file_id,
            file_path: match file {
                Some(f) => Some(f.path),
                None => None,
            },
            node_type,
            title: node.title,
            subtype: node.subtype,
            url: node.url,
            icon: node.icon,
            created: node.created,
            modified: node.modified,
            original_id: node.original_id,
            parent_id: node.parent_id,
            data: match node.data {
                Some(d) => Some(NodeData { node_type, value: d }),
                None => None,
            },
        }
    }
}

impl vstd::std_specs::convert::FromSpecImpl<(NodeModel, Option<FileModel>)> for NodePresentaion {
    open spec fn obeys_from_spec() -> bool {
        true
    }

    open spec fn from_spec(v: (NodeModel, Option<FileModel>)) -> NodePresentaion {
        presentation_of(v.0, v.1)
    }
}

/// What identifies a record in the search index.
pub trait RecordId {
    fn record_id(&self) -> String;
}

impl RecordId for NodePresentaion {
    /// The node's id, in decimal.
    fn record_id(&self) -> (res: String)
        ensures
            res@ == decimal(self.id as int),
    {
        i64_to_decimal(self.id as i64)
    }
}

/// A node's presentation keeps the node's own fields (id, file, type,
/// title, subtype, url, icon, dates, original id and parent), takes the path
/// of the node's file where there is one, and holds the node's data, if any,
/// under the node's type.
pub proof fn lemma_presentation_keeps_node(node: NodeModel, file: Option<FileModel>)
    ensures
        presentation_of(node, file).id == node.id,
        presentation_of(node, file).file_id == node.file_id,
        presentation_of(node, file).node_type == node.node_type,
        presentation_of(node, file).title == node.title,
        presentation_of(node, file).subtype == node.subtype,
        presentation_of(node, file).url == node.url,
        presentation_of(node, file).icon == node.icon,
        presentation_of(node, file).created == node.created,
        presentation_of(node, file).modified == node.modified,
        presentation_of(node, file).original_id == node.original_id,
        presentation_of(node, file).parent_id == node.parent_id,
        file is None ==> presentation_of(node, file).file_path is None,
        file is Some ==> presentation_of(node, file).file_path == Some(file->0.path),
        node.data is None ==> presentation_of(node, file).data is None,
        node.data is Some ==> presentation_of(node, file).data == Some(
            NodeData { node_type: node.node_type, value: node.data->0 },
        ),
{
}

} // verus!
