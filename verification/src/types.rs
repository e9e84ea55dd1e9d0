use vstd::prelude::*;

use crate::text::text_is;

verus! {

/// The kind of source file a record was imported from.
#[derive(Clone, Copy, Debug, PartialEq, Eq, Hash, Structural)]
pub enum FileType {
    Telegram,
    SingleFileZ,
    Scrapbook,
    OneTab,
}

/// The database text of a file type.
pub open spec fn file_type_str(t: FileType) -> Seq<char> {
    match t {
        FileType::Telegram => "Telegram"@,
        FileType::SingleFileZ => "SingleFileZ"@,
        FileType::Scrapbook => "Scrapbook"@,
        FileType::OneTab => "OneTab"@,
    }
}

impl FileType {
    /// The text stored in the database for this file type.
    pub fn to_value(&self) -> (res: &'static str)
        ensures
            res@ == file_type_str(*self),
    {
        match self {
            FileType::Telegram => "Telegram",
            FileType::SingleFileZ => "SingleFileZ",
            FileType::Scrapbook => "Scrapbook",
            FileType::OneTab => "OneTab",
        }
    }

    /// The file type whose database text is `s`, if any.
    pub fn from_value(s: &str) -> (res: Option<FileType>)
        ensures
            res == file_type_from_str(s@),
    {
        if text_is(s, "Telegram") {
            Some(FileType::Telegram)
        } else if text_is(s, "SingleFileZ") {
            Some(FileType::SingleFileZ)
        } else if text_is(s, "Scrapbook") {
            Some(FileType::Scrapbook)
        } else if text_is(s, "OneTab") {
            Some(FileType::OneTab)
        } else {
            None
        }
    }
}

/// The file type whose database text is `s`, if any.
pub open spec fn file_type_from_str(s: Seq<char>) -> Option<FileType> {
    if s == "Telegram"@ {
        Some(FileType::Telegram)
    } else if s == "SingleFileZ"@ {
        Some(FileType::SingleFileZ)
    } else if s == "Scrapbook"@ {
        Some(FileType::Scrapbook)
    } else if s == "OneTab"@ {
        Some(FileType::OneTab)
    } else {
        None
    }
}

/// Reading back the database text of a file type gives the same file type,
/// and a text that reads as a file type is that type's text.
pub proof fn lemma_file_type_str_round_trip(t: FileType, s: Seq<char>)
    ensures
        file_type_from_str(file_type_str(t)) == Some(t),
        file_type_from_str(s) matches Some(u) ==> file_type_str(u) == s,
{
    reveal_strlit("Telegram");
    reveal_strlit("SingleFileZ");
    reveal_strlit("Scrapbook");
    reveal_strlit("OneTab");
    assert("Telegram"@.len() == 8);
    assert("SingleFileZ"@.len() == 11);
    assert("Scrapbook"@.len() == 9);
    assert("OneTab"@.len() == 6);
}

} // verus!

verus! {

/// The kind of a node of the index tree.
#[derive(Clone, Copy, Debug, PartialEq, Eq, Hash, Structural)]
pub enum NodeType {
    Root,
    Telegram,
    SingleFileZ,
    Scrapbook,
    OneTab,
}

/// The database text of a node type.
pub open spec fn node_type_str(t: NodeType) -> Seq<char> {
    match t {
        NodeType::Root => "Root"@,
        NodeType::Telegram => "Telegram"@,
        NodeType::SingleFileZ => "SingleFileZ"@,
        NodeType::Scrapbook => "Scrapbook"@,
        NodeType::OneTab => "OneTab"@,
    }
}

/// The node type whose database text is `s`, if any.
pub open spec fn node_type_from_str(s: Seq<char>) -> Option<NodeType> {
    if s == "Root"@ {
        Some(NodeType::Root)
    } else if s == "Telegram"@ {
        Some(NodeType::Telegram)
    } else if s == "SingleFileZ"@ {
        Some(NodeType::SingleFileZ)
    } else if s == "Scrapbook"@ {
        Some(NodeType::Scrapbook)
    } else if s == "OneTab"@ {
        Some(NodeType::OneTab)
    } else {
        None
    }
}

/// The name of the field under which a node's data is presented.
pub open spec fn node_field_name(t: NodeType) -> Seq<char> {
    match t {
        NodeType::Root => "root"@,
        NodeType::Telegram => "telegram"@,
        NodeType::SingleFileZ => "single_file_z"@,
        NodeType::Scrapbook => "scrapbook"@,
        NodeType::OneTab => "onetab"@,
    }
}

/// The node type whose data field name is `s`, if any.
pub open spec fn node_type_from_field_name(s: Seq<char>) -> Option<NodeType> {
    if s == "root"@ {
        Some(NodeType::Root)
    } else if s == "telegram"@ {
        Some(NodeType::Telegram)
    } else if s == "single_file_z"@ {
        Some(NodeType::SingleFileZ)
    } else if s == "scrapbook"@ {
        Some(NodeType::Scrapbook)
    } else if s == "onetab"@ {
        Some(NodeType::OneTab)
    } else {
        None
    }
}

impl NodeType {
    /// The text stored in the database for this node type.
    pub fn to_value(&self) -> (res: &'static str)
        ensures
            res@ == node_type_str(*self),
    {
        match self {
            NodeType::Root => "Root",
            NodeType::Telegram => "Telegram",
            NodeType::SingleFileZ => "SingleFileZ",
            NodeType::Scrapbook => "Scrapbook",
            NodeType::OneTab => "OneTab",
        }
    }

    /// The node type whose database text is `s`, if any.
    pub fn from_value(s: &str) -> (res: Option<NodeType>)
        ensures
            res == node_type_from_str(s@),
    {
        if text_is(s, "Root") {
            Some(NodeType::Root)
        } else if text_is(s, "Telegram") {
            Some(NodeType::Telegram)
        } else if text_is(s, "SingleFileZ") {
            Some(NodeType::SingleFileZ)
        } else if text_is(s, "Scrapbook") {
            Some(NodeType::Scrapbook)
        } else if text_is(s, "OneTab") {
            Some(NodeType::OneTab)
        } else {
            None
        }
    }

    /// The name of the field under which a node's data is presented.
    pub fn field_name(&self) -> (res: &'static str)
        ensures
            res@ == node_field_name(*self),
    {
        match self {
            NodeType::Root => "root",
            NodeType::Telegram => "telegram",
            NodeType::SingleFileZ => "single_file_z",
            NodeType::Scrapbook => "scrapbook",
            NodeType::OneTab => "onetab",
        }
    }

    /// The node type whose data field name is `s`, if any.
    pub fn from_field_name(s: &str) -> (res: Option<NodeType>)
        ensures
            res == node_type_from_field_name(s@),
    {
        if text_is(s, "root") {
            Some(NodeType::Root)
        } else if text_is(s, "telegram") {
            Some(NodeType::Telegram)
        } else if text_is(s, "single_file_z") {
            Some(NodeType::SingleFileZ)
        } else if text_is(s, "scrapbook") {
            Some(NodeType::Scrapbook)
        } else if text_is(s, "onetab") {
            Some(NodeType::OneTab)
        } else {
            None
        }
    }
}

/// Reading back the database text, or the data field name, of a node type
/// gives the same node type, and a text that reads as a node type is that
/// type's text.
pub proof fn lemma_node_type_str_round_trip(t: NodeType, s: Seq<char>)
    ensures
        node_type_from_str(node_type_str(t)) == Some(t),
        node_type_from_str(s) matches Some(u) ==> node_type_str(u) == s,
        node_type_from_field_name(node_field_name(t)) == Some(t),
        node_type_from_field_name(s) matches Some(u) ==> node_field_name(u) == s,
{
    reveal_strlit("Root");
    reveal_strlit("Telegram");
    reveal_strlit("SingleFileZ");
    reveal_strlit("Scrapbook");
    reveal_strlit("OneTab");
    reveal_strlit("root");
    reveal_strlit("telegram");
    reveal_strlit("single_file_z");
    reveal_strlit("scrapbook");
    reveal_strlit("onetab");
    assert("Root"@.len() == 4);
    assert("Telegram"@.len() == 8);
    assert("SingleFileZ"@.len() == 11);
    assert("Scrapbook"@.len() == 9);
    assert("OneTab"@.len() == 6);
    assert("root"@.len() == 4);
    assert("telegram"@.len() == 8);
    assert("single_file_z"@.len() == 13);
    assert("scrapbook"@.len() == 9);
    assert("onetab"@.len() == 6);
}

/// A UTF-8 file system path as stored in the database.
#[derive(Debug)]
pub struct PathBufSql(pub String);

impl Clone for PathBufSql {
    fn clone(&self) -> (res: Self)
        ensures
            res.0@ == self.0@,
    {
        PathBufSql(self.0.clone())
    }
}

/// A relative path as stored in the database.
#[derive(Debug)]
pub struct RelativePathSql(String);

impl View for RelativePathSql {
    type V = Seq<char>;

    closed spec fn view(&self) -> Seq<char> {
        self.0@
    }
}

impl RelativePathSql {
    /// Wraps a relative path.
    pub fn new(path: String) -> (res: Self)
        ensures
            res@ == path@,
    {
        RelativePathSql(path)
    }

    /// The path's text.
    pub fn as_str(&self) -> (res: &str)
        ensures
            res@ == self@,
    {
        self.0.as_str()
    }

    /// Unwraps the relative path.
    pub fn into_string(self) -> (res: String)
        ensures
            res@ == self@,
    {
        self.0
    }
}

/// Wrapping a relative path and unwrapping it again gives back the same
/// path: `wrapped` is what `RelativePathSql::new` makes of `path`, and
/// `back` what `RelativePathSql::into_string` (or `as_str`) gives of it.
pub proof fn lemma_relative_path_round_trip(path: String, wrapped: RelativePathSql, back: String)
    requires
        wrapped@ == path@,
        back@ == wrapped@,
    ensures
        back@ == path@,
{
}

} // verus!
