use vstd::prelude::*;

use crate::datetime::DateTime;
use crate::text::opt_view;
use crate::types::NodeType;

verus! {

/// The values an importer sets on a new node of the index; the store
/// assigns its id, and its icon and parent stay unset.
#[derive(Debug)]
pub struct NodeRecord {
    pub file_id: Option<i32>,
    pub node_type: NodeType,
    pub title: Option<String>,
    pub subtype: Option<String>,
    pub url: Option<String>,
    pub created: Option<DateTime>,
    pub modified: Option<DateTime>,
    pub original_id: Option<String>,
}

/// A new node's values, with texts as character sequences.
pub struct NodeRecordView {
    pub file_id: Option<i32>,
    pub node_type: NodeType,
    pub title: Option<Seq<char>>,
    pub subtype: Option<Seq<char>>,
    pub url: Option<Seq<char>>,
    pub created: Option<DateTime>,
    pub modified: Option<DateTime>,
    pub original_id: Option<Seq<char>>,
}

impl View for NodeRecord {
    type V = NodeRecordView;

    open spec fn view(&self) -> NodeRecordView {
        NodeRecordView {
            file_id: self.file_id,
            node_type: self.node_type,
            title: opt_view(self.title),
            subtype: opt_view(self.subtype),
            url: opt_view(self.url),
            created: self.created,
            modified: self.modified,
            original_id: opt_view(self.original_id),
        }
    }
}

/// Why an importer could not read a source file.
#[derive(Debug)]
pub enum ImportError {
    /// A date text that its format does not admit.
    InvalidDate(String),
    /// A OneTab date block whose text does not start with the OneTab date.
    UnexpectedDateString(String),
    /// A path without a final component.
    NotAFilePath(String),
    /// A path without a parent directory.
    NoParentFolder(String),
    /// A Scrapbook sequence whose own resource was not imported.
    MissingAbout(String),
    /// A Scrapbook sequence item whose resource was not imported.
    MissingResource(String),
    /// A Scrapbook index page without a `meta` tag with a `content`.
    NoMetaTag,
    /// A Scrapbook index page without a content attribute.
    NoContentAttribute,
    /// A redirect `content` value without a `0;URL=` target.
    UnexpectedContentValue(String),
    /// A path that does not convert to a `file:` URL.
    NotAFileUrl(String),
    /// A redirect target that does not resolve against the page's URL.
    InvalidRedirect(String),
    /// A resolved URL that does not convert back to a file path.
    NotAFileUrlPath(String),
}

} // verus!
