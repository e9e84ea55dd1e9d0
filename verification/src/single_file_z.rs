use vstd::prelude::*;

use crate::datetime::{parse_datetime, spec_parse_datetime, DateTime};
use crate::html::{first_attr, first_text, spec_first_attr, spec_first_text};
use crate::paths::{file_name, spec_file_name};
use crate::pattern::{regex_group, spec_regex_group};
use crate::record::{ImportError, NodeRecord};
use crate::text::opt_view;
use crate::types::NodeType;

verus! {

/// The end of the file name of a saved page: the save date in parentheses
/// and the `.html` extension; the date is the first capture group.
pub const SAVED_DATE_PATTERN: &'static str = "\\((\\d{2}\\.\\d{2}.\\d{4} \\d{2}_\\d{2}_\\d{2})\\)\\.html$";

/// The chrono format of the save date of a page.
pub const SAVED_DATE_FORMAT: &'static str = "%d.%m.%Y %H_%M_%S";

/// The selector of a page's title.
pub const TITLE_SELECTOR: &'static str = "title";

/// The selector of a page's canonical link.
pub const CANONICAL_LINK_SELECTOR: &'static str = "link[rel=\"canonical\"]";

/// The save date text at the end of a page's file name, when the name ends
/// with it in parentheses followed by `.html`.
pub open spec fn spec_saved_date(name: Seq<char>) -> Option<Seq<char>> {
    spec_regex_group(SAVED_DATE_PATTERN@, name, 1)
}

/// Reads the save date text at the end of a page's file name.
pub fn saved_date(name: &str) -> (res: Option<String>)
    ensures
        opt_view(res) == spec_saved_date(name@),
{
    regex_group(SAVED_DATE_PATTERN, name, 1)
}

/// The node of a saved page, from what was read of it: its title, its
/// canonical link, the save date text of its file name and the date and time
/// read from that text. A save date that does not read fails the import.
pub fn page_record(
    file_id: i32,
    title: Option<String>,
    url: Option<String>,
    date: Option<String>,
    created: Option<DateTime>,
) -> (res: Result<NodeRecord, ImportError>)
    ensures
        date is Some && created is None ==> (res matches Err(ImportError::InvalidDate(t)) && t@
            == date->0@),
        date is None || created is Some ==> (res matches Ok(r) && {
            &&& r.file_id == Some(file_id)
            &&& r.node_type == NodeType::SingleFileZ
            &&& opt_view(r.title) == opt_view(title)
            &&& opt_view(r.url) == opt_view(url)
            &&& r.created == (if date is Some {
                created
            } else {
                None
            })
            &&& r.subtype is None && r.modified is None && r.original_id is None
        }),
{
    let created = match date {
        Some(d) => match created {
            Some(c) => Some(c),
            None => {
                return Err(ImportError::InvalidDate(d));
            },
        },
        None => None,
    };
    Ok(
        NodeRecord {
            file_id: Some(file_id),
            node_type: NodeType::SingleFileZ,
            title,
            subtype: None,
            url,
            created,
            modified: None,
            original_id: None,
        },
    )
}

/// The canonical link of a page: the `href` of its first canonical `link`.
pub open spec fn spec_canonical_url(html: Seq<char>) -> Option<Seq<char>> {
    match spec_first_attr(html, CANONICAL_LINK_SELECTOR@, "href"@) {
        Some(Some(href)) => Some(href),
        _ => None,
    }
}

/// Builds the node of a page saved by SingleFileZ at `file_path`, whose
/// content, read as text, is `html`.
pub fn import_single_file_z(file_id: i32, file_path: &str, html: &str) -> (res: Result<NodeRecord, ImportError>)
    ensures
        spec_file_name(file_path@) is None ==> (res matches Err(ImportError::NotAFilePath(p)) && p@
            == file_path@),
        spec_file_name(file_path@) is Some ==> {
            let date = spec_saved_date(spec_file_name(file_path@)->0);
            let created = if date is Some {
                spec_parse_datetime(date->0, SAVED_DATE_FORMAT@)
            } else {
                None
            };
            &&& date is Some && created is None ==> (res matches Err(ImportError::InvalidDate(t))
                && t@ == date->0)
            &&& date is None || created is Some ==> (res matches Ok(r) && {
                &&& r.file_id == Some(file_id)
                &&& r.node_type == NodeType::SingleFileZ
                &&& opt_view(r.title) == spec_first_text(html@, TITLE_SELECTOR@)
                &&& opt_view(r.url) == spec_canonical_url(html@)
                &&& r.created == created
                &&& r.subtype is None && r.modified is None && r.original_id is None
            })
        },
{
    let name = match file_name(file_path) {
        Some(n) => n,
        None => {
            return Err(ImportError::NotAFilePath(String::from_str(file_path)));
        },
    };
    let title = first_text(html, TITLE_SELECTOR);
    let url = match first_attr(html, CANONICAL_LINK_SELECTOR, "href") {
        Some(Some(href)) => Some(href),
        _ => None,
    };
    let date = saved_date(name.as_str());
    let created = match &date {
        Some(d) => parse_datetime(d.as_str(), SAVED_DATE_FORMAT),
        None => None,
    };
    page_record(file_id, title, url, date, created)
}

} // verus!
