use vstd::prelude::*;

use crate::datetime::DateTime;
use crate::html::{first_attr, spec_first_attr};
use crate::paths::{join, parent, spec_join, spec_parent};
use crate::pattern::{regex_group, spec_regex_group};
use crate::record::{ImportError, NodeRecord, NodeRecordView};
use crate::text::{opt_view, text_is};
use crate::types::NodeType;
use crate::urls::{file_url, spec_file_url, spec_url_file_path, spec_url_join, url_file_path, url_join};

verus! {

/// An item of a Scrapbook: a saved page, file, folder or note.
#[derive(Debug)]
pub struct RdfDescription {
    pub about: String,
    pub id: String,
    pub item_type: String,
    pub title: String,
    pub source: String,
}

/// A reference to an item from a folder.
#[derive(Debug)]
pub struct RdfLi {
    pub resource: String,
}

/// A folder of a Scrapbook: the resource it describes and its items.
#[derive(Debug)]
pub struct RdfSequence {
    pub about: String,
    pub items: Vec<RdfLi>,
}

/// The resource of the Scrapbook's top folder, which stands for the root of
/// the index tree.
pub const SCRAPBOOK_ROOT: &'static str = "urn:scrapbook:root";

/// The redirect of a `content` value: `0;URL=` and the target, which is
/// the first capture group.
pub const REDIRECT_PATTERN: &'static str = "0;URL=(.+)";

/// The selector of a page's redirect `meta` tag.
pub const META_SELECTOR: &'static str = "meta[content]";

/// The text, or `None` when it is empty.
pub open spec fn spec_none_if_empty(s: Seq<char>) -> Option<Seq<char>> {
    if s.len() == 0 {
        None
    } else {
        Some(s)
    }
}

/// The text, or `None` when it is empty.
pub fn none_if_empty(s: &String) -> (res: Option<String>)
    ensures
        opt_view(res) == spec_none_if_empty(s@),
{
    if s.unicode_len() == 0 {
        None
    } else {
        Some(s.clone())
    }
}

/// The directory that holds a Scrapbook's `scrapbook.rdf`.
pub fn scrapbook_dir(file_path: &str) -> (res: Result<String, ImportError>)
    ensures
        match res {
            Ok(d) => spec_parent(file_path@) == Some(d@),
            Err(ImportError::NoParentFolder(p)) => spec_parent(file_path@) is None && p@ == file_path@,
            Err(_) => false,
        },
{
    match parent(file_path) {
        Some(d) => Ok(d),
        None => Err(ImportError::NoParentFolder(String::from_str(file_path))),
    }
}

/// The path of the saved page of an item: `data/<id>/index.html` under the
/// Scrapbook's directory.
pub open spec fn spec_index_html_path(scrapbook_dir: Seq<char>, id: Seq<char>) -> Seq<char> {
    spec_join(spec_join(spec_join(scrapbook_dir, "data"@), id), "index.html"@)
}

/// The path of the saved page of an item: `data/<id>/index.html` under the
/// Scrapbook's directory.
pub fn index_html_path(scrapbook_dir: &str, id: &str) -> (res: String)
    ensures
        res@ == spec_index_html_path(scrapbook_dir@, id@),
{
    let data = join(scrapbook_dir, "data");
    let item = join(data.as_str(), id);
    join(item.as_str(), "index.html")
}

/// Whether an item is a saved file, whose page redirects to the file.
pub open spec fn spec_is_file_item(d: RdfDescription) -> bool {
    d.item_type@ == "file"@
}

/// Whether an item is a saved file, whose page redirects to the file.
pub fn is_file_item(description: &RdfDescription) -> (res: bool)
    ensures
        res == spec_is_file_item(*description),
{
    text_is(description.item_type.as_str(), "file")
}

/// The node of a Scrapbook item, given the times its saved page was created
/// and modified.
pub open spec fn spec_item_record(
    file_id: i32,
    d: RdfDescription,
    created: Option<DateTime>,
    modified: Option<DateTime>,
) -> NodeRecordView {
    NodeRecordView {
        file_id: Some(file_id),
        node_type: NodeType::Scrapbook,
        title: spec_none_if_empty(d.title@),
        subtype: spec_none_if_empty(d.item_type@),
        url: spec_none_if_empty(d.source@),
        created,
        modified,
        original_id: Some(d.id@),
    }
}

/// The node of a Scrapbook item, given the times its saved page was created
/// and modified.
pub fn item_record(
    file_id: i32,
    description: &RdfDescription,
    created: Option<DateTime>,
    modified: Option<DateTime>,
) -> (res: NodeRecord)
    ensures
        res@ == spec_item_record(file_id, *description, created, modified),
{
    NodeRecord {
        file_id: Some(file_id),
        node_type: NodeType::Scrapbook,
        title: none_if_empty(&description.title),
        subtype: none_if_empty(&description.item_type),
        url: none_if_empty(&description.source),
        created,
        modified,
        original_id: Some(description.id.clone()),
    }
}

/// The redirect target of a `content` value: after the first `0;URL=`
/// that is followed by a character other than a line feed, the text up to
/// the next line feed or the end.
pub open spec fn spec_redirect_target(content: Seq<char>) -> Option<Seq<char>> {
    spec_regex_group(REDIRECT_PATTERN@, content, 1)
}

/// Reads the redirect target of a `content` value (`0;URL=<target>`).
pub fn redirect_target(content: &str) -> (res: Option<String>)
    ensures
        opt_view(res) == spec_redirect_target(content@),
{
    regex_group(REDIRECT_PATTERN, content, 1)
}

/// Why a saved file's redirect could not be followed, given the page's path
/// and content, if it cannot; `None` when it can.
pub open spec fn redirect_error(index_html_path: Seq<char>, html: Seq<char>, e: ImportError) -> bool {
    let meta = spec_first_attr(html, META_SELECTOR@, "content"@);
    if meta is None {
        e is NoMetaTag
    } else if meta->0 is None {
        e is NoContentAttribute
    } else {
        let content = meta->0->0;
        if spec_redirect_target(content) is None {
            e matches ImportError::UnexpectedContentValue(c) && c@ == content
        } else if spec_file_url(index_html_path) is None {
            e matches ImportError::NotAFileUrl(p) && p@ == index_html_path
        } else {
            let base = spec_file_url(index_html_path)->0;
            let target = spec_redirect_target(content)->0;
            if spec_url_join(base, target) is None {
                e matches ImportError::InvalidRedirect(t) && t@ == target
            } else {
                let url = spec_url_join(base, target)->0;
                e matches ImportError::NotAFileUrlPath(u) && u@ == url && spec_url_file_path(url) is None
            }
        }
    }
}

/// The path a saved file's page redirects to: the target of the `content` of
/// its first `meta` tag with a `content`, resolved against the page's own
/// `file:` URL.
pub open spec fn redirect_path(index_html_path: Seq<char>, html: Seq<char>) -> Option<Seq<char>> {
    let meta = spec_first_attr(html, META_SELECTOR@, "content"@);
    if meta is Some && meta->0 is Some && spec_redirect_target(meta->0->0) is Some && spec_file_url(
        index_html_path,
    ) is Some {
        let target = spec_redirect_target(meta->0->0)->0;
        match spec_url_join(spec_file_url(index_html_path)->0, target) {
            Some(url) => spec_url_file_path(url),
            None => None,
        }
    } else {
        None
    }
}

/// Follows the redirect of a saved file's page at `index_html_path`, whose
/// content is `html`, to the path of the file.
pub fn extract_redirect_path(index_html_path: &str, html: &str) -> (res: Result<String, ImportError>)
    ensures
        match res {
            Ok(p) => redirect_path(index_html_path@, html@) == Some(p@),
            Err(e) => redirect_path(index_html_path@, html@) is None && redirect_error(
                index_html_path@,
                html@,
                e,
            ),
        },
{
    let content = match first_attr(html, META_SELECTOR, "content") {
        None => {
            return Err(ImportError::NoMetaTag);
        },
        Some(None) => {
            return Err(ImportError::NoContentAttribute);
        },
        Some(Some(c)) => c,
    };
    let target = match redirect_target(content.as_str()) {
        Some(t) => t,
        None => {
            return Err(ImportError::UnexpectedContentValue(content));
        },
    };
    let base = match file_url(index_html_path) {
        Some(u) => u,
        None => {
            return Err(ImportError::NotAFileUrl(String::from_str(index_html_path)));
        },
    };
    let url = match url_join(base.as_str(), target.as_str()) {
        Ok(u) => u,
        Err(_) => {
            return Err(ImportError::InvalidRedirect(target));
        },
    };
    match url_file_path(url.as_str()) {
        Some(p) => Ok(p),
        None => Err(ImportError::NotAFileUrlPath(url)),
    }
}

/// The id the importer gave the item described as `about`: that of the last
/// item imported under it.
pub open spec fn spec_lookup(ids: Seq<(String, i32)>, about: Seq<char>) -> Option<i32>
    decreases ids.len(),
{
    if ids.len() == 0 {
        None
    } else if ids[ids.len() - 1].0@ == about {
        Some(ids[ids.len() - 1].1)
    } else {
        spec_lookup(ids.subrange(0, ids.len() - 1), about)
    }
}

/// The id the importer gave the item described as `about`: that of the last
/// item imported under it.
pub fn lookup(ids: &Vec<(String, i32)>, about: &str) -> (res: Option<i32>)
    ensures
        res == spec_lookup(ids@, about@),
{
    let mut i = ids.len();
    proof {
        assert(ids@.take(ids@.len() as int) =~= ids@);
    }
    while i > 0
        invariant
            i <= ids.len(),
            spec_lookup(ids@, about@) == spec_lookup(ids@.take(i as int), about@),
        decreases i,
    {
        proof {
            assert(ids@.take(i as int).subrange(0, i - 1) =~= ids@.take(i - 1));
            assert(ids@.take(i as int)[i - 1] == ids@[i - 1]);
        }
        if text_is(ids[i - 1].0.as_str(), about) {
            return Some(ids[i - 1].1);
        }
        i -= 1;
    }
    None
}

/// Whether a folder is the Scrapbook's top folder.
pub open spec fn is_root_sequence(s: RdfSequence) -> bool {
    s.about@ == SCRAPBOOK_ROOT@
}

/// Whether every item of a folder, and the folder itself, was imported.
pub open spec fn sequence_resolves(ids: Seq<(String, i32)>, s: RdfSequence) -> bool {
    is_root_sequence(s) || (spec_lookup(ids, s.about@) is Some && forall|k: int|
        0 <= k < s.items@.len() ==> spec_lookup(ids, (#[trigger] s.items@[k]).resource@) is Some)
}

/// The (child, parent) links of a folder whose items all resolve: one per
/// item, in order; none for the top folder, whose items stay under the root.
pub open spec fn sequence_links(ids: Seq<(String, i32)>, s: RdfSequence) -> Seq<(i32, i32)> {
    if is_root_sequence(s) {
        seq![]
    } else {
        s.items@.map_values(
            |li: RdfLi| (spec_lookup(ids, li.resource@)->0, spec_lookup(ids, s.about@)->0),
        )
    }
}

/// `e` is the error for a folder that does not resolve: the folder's own
/// resource when it was not imported, else the first item not imported.
pub open spec fn sequence_error(ids: Seq<(String, i32)>, s: RdfSequence, e: ImportError) -> bool {
    if spec_lookup(ids, s.about@) is None {
        e matches ImportError::MissingAbout(a) && a@ == s.about@
    } else {
        exists|k: int|
            0 <= k < s.items@.len() && spec_lookup(ids, (#[trigger] s.items@[k]).resource@) is None
                && (forall|j: int|
                0 <= j < k ==> spec_lookup(ids, (#[trigger] s.items@[j]).resource@) is Some)
                && (e matches ImportError::MissingResource(r) && r@ == s.items@[k].resource@)
    }
}

/// The links of a sequence of folders, in order.
pub open spec fn all_links(ids: Seq<(String, i32)>, seqs: Seq<RdfSequence>) -> Seq<(i32, i32)>
    decreases seqs.len(),
{
    if seqs.len() == 0 {
        seq![]
    } else {
        all_links(ids, seqs.subrange(0, seqs.len() - 1)) + sequence_links(ids, seqs[seqs.len() - 1])
    }
}

/// Adds the (child, parent) links of one folder.
pub fn folder_links(ids: &Vec<(String, i32)>, sequence: &RdfSequence, out: &mut Vec<(i32, i32)>) -> (res: Result<(), ImportError>)
    ensures
        match res {
            Ok(()) => sequence_resolves(ids@, *sequence) && final(out)@ == old(out)@ + sequence_links(
                ids@,
                *sequence,
            ),
            Err(e) => !sequence_resolves(ids@, *sequence) && sequence_error(ids@, *sequence, e),
        },
{
    proof {
        reveal_strlit("urn:scrapbook:root");
    }
    if text_is(sequence.about.as_str(), SCRAPBOOK_ROOT) {
        proof {
            assert(out@ + sequence_links(ids@, *sequence) =~= out@);
        }
        return Ok(());
    }
    let parent_id = match lookup(ids, sequence.about.as_str()) {
        Some(p) => p,
        None => {
            return Err(ImportError::MissingAbout(sequence.about.clone()));
        },
    };
    let mut children: Vec<i32> = Vec::new();
    let mut k: usize = 0;
    while k < sequence.items.len()
        invariant
            !is_root_sequence(*sequence),
            spec_lookup(ids@, sequence.about@) == Some(parent_id),
            k <= sequence.items.len(),
            children.len() == k,
            forall|j: int| 0 <= j < k ==> spec_lookup(ids@, (#[trigger] sequence.items@[j]).resource@) == Some(children@[j]),
        decreases sequence.items.len() - k,
    {
        match lookup(ids, sequence.items[k].resource.as_str()) {
            Some(c) => {
                children.push(c);
            },
            None => {
                proof {
                    assert(SCRAPBOOK_ROOT@ == "urn:scrapbook:root"@);
                    assert(!is_root_sequence(*sequence));
                    assert(spec_lookup(ids@, sequence.about@) is Some);
                    assert(spec_lookup(ids@, sequence.items@[k as int].resource@) is None);
                    assert(sequence_error(ids@, *sequence, ImportError::MissingResource(sequence.items@[k as int].resource)));
                }
                return Err(ImportError::MissingResource(sequence.items[k].resource.clone()));
            },
        }
        k += 1;
    }
    let ghost start = out@;
    let mut j: usize = 0;
    proof {
        assert(sequence_links(ids@, *sequence).take(0) =~= Seq::<(i32, i32)>::empty());
        assert(out@ =~= start + sequence_links(ids@, *sequence).take(0));
    }
    while j < children.len()
        invariant
            j <= children.len(),
            children.len() == sequence.items.len(),
            out@ == start + sequence_links(ids@, *sequence).take(j as int),
            sequence_links(ids@, *sequence).len() == children.len(),
            forall|m: int| 0 <= m < children.len() ==> sequence_links(ids@, *sequence)[m] == (children@[m], parent_id),
        decreases children.len() - j,
    {
        proof {
            assert(sequence_links(ids@, *sequence).take(j + 1) =~= sequence_links(ids@, *sequence).take(j as int).push((children@[j as int], parent_id)));
        }
        out.push((children[j], parent_id));
        j += 1;
    }
    proof {
        assert(sequence_links(ids@, *sequence).take(children.len() as int) =~= sequence_links(ids@, *sequence));
    }
    Ok(())
}

/// The (child, parent) links that place the imported items under their
/// folders, from the ids the importer gave each described resource, in
/// the order of the folders and their items; fails on the first folder that
/// names a resource that was not imported.
pub fn parent_links(ids: &Vec<(String, i32)>, sequences: &Vec<RdfSequence>) -> (res: Result<Vec<(i32, i32)>, ImportError>)
    ensures
        match res {
            Ok(links) => {
                &&& forall|i: int| 0 <= i < sequences@.len() ==> sequence_resolves(ids@, #[trigger] sequences@[i])
                &&& links@ == all_links(ids@, sequences@)
            },
            Err(e) => exists|i: int|
                0 <= i < sequences@.len() && !sequence_resolves(ids@, #[trigger] sequences@[i])
                    && sequence_error(ids@, sequences@[i], e) && forall|j: int|
                    0 <= j < i ==> sequence_resolves(ids@, #[trigger] sequences@[j]),
        },
{
    let mut links: Vec<(i32, i32)> = Vec::new();
    let mut i: usize = 0;
    proof {
        assert(sequences@.take(0) =~= Seq::<RdfSequence>::empty());
    }
    while i < sequences.len()
        invariant
            i <= sequences.len(),
            forall|k: int| 0 <= k < i ==> sequence_resolves(ids@, #[trigger] sequences@[k]),
            links@ == all_links(ids@, sequences@.take(i as int)),
        decreases sequences.len() - i,
    {
        proof {
            assert(sequences@.take(i + 1).subrange(0, i as int) =~= sequences@.take(i as int));
            assert(sequences@.take(i + 1)[i as int] == sequences@[i as int]);
        }
        match folder_links(ids, &sequences[i], &mut links) {
            Ok(()) => {},
            Err(e) => {
                return Err(e);
            },
        }
        i += 1;
    }
    proof {
        assert(sequences@.take(sequences@.len() as int) =~= sequences@);
    }
    Ok(links)
}

/// The node of a Scrapbook item: from the given file, of type Scrapbook,
/// with the given dates and the item's id as its original id. Its title,
/// subtype and url are the item's title, type and source where these are
/// not empty, and absent where they are.
pub proof fn lemma_item_record_fields(
    file_id: i32,
    d: RdfDescription,
    created: Option<DateTime>,
    modified: Option<DateTime>,
)
    ensures
        spec_item_record(file_id, d, created, modified).file_id == Some(file_id),
        spec_item_record(file_id, d, created, modified).node_type == NodeType::Scrapbook,
        d.title@.len() > 0 ==> spec_item_record(file_id, d, created, modified).title == Some(d.title@),
        d.title@.len() == 0 ==> spec_item_record(file_id, d, created, modified).title is None,
        d.item_type@.len() > 0 ==> spec_item_record(file_id, d, created, modified).subtype == Some(d.item_type@),
        d.item_type@.len() == 0 ==> spec_item_record(file_id, d, created, modified).subtype is None,
        d.source@.len() > 0 ==> spec_item_record(file_id, d, created, modified).url == Some(d.source@),
        d.source@.len() == 0 ==> spec_item_record(file_id, d, created, modified).url is None,
        spec_item_record(file_id, d, created, modified).created == created,
        spec_item_record(file_id, d, created, modified).modified == modified,
        spec_item_record(file_id, d, created, modified).original_id == Some(d.id@),
{
}

/// The id looked up for a resource is that of the last item imported under
/// it: some entry names the resource with that id and no later entry names
/// it; and the lookup fails exactly when no entry names the resource.
pub proof fn lemma_lookup_finds_last(ids: Seq<(String, i32)>, about: Seq<char>)
    ensures
        spec_lookup(ids, about) is None <==> forall|j: int| 0 <= j < ids.len() ==> (#[trigger] ids[j]).0@ != about,
        spec_lookup(ids, about) is Some ==> exists|j: int|
            0 <= j < ids.len() && (#[trigger] ids[j]).0@ == about && ids[j].1 == spec_lookup(ids, about)->0
                && forall|l: int| j < l < ids.len() ==> (#[trigger] ids[l]).0@ != about,
    decreases ids.len(),
{
    if ids.len() > 0 {
        let n = ids.len() - 1;
        let prev = ids.subrange(0, n);
        lemma_lookup_finds_last(prev, about);
        if ids[n].0@ != about {
            assert forall|j: int| 0 <= j < n implies ids[j] == prev[j] by {}
            if spec_lookup(prev, about) is Some {
                let j = choose|j: int|
                    0 <= j < prev.len() && (#[trigger] prev[j]).0@ == about && prev[j].1 == spec_lookup(prev, about)->0
                        && forall|l: int| j < l < prev.len() ==> (#[trigger] prev[l]).0@ != about;
                assert(ids[j] == prev[j]);
                assert forall|l: int| j < l < ids.len() implies (#[trigger] ids[l]).0@ != about by {
                    if l < n {
                        assert(ids[l] == prev[l]);
                    }
                }
            }
            if spec_lookup(ids, about) is None {
                assert forall|j: int| 0 <= j < ids.len() implies (#[trigger] ids[j]).0@ != about by {
                    if j < n {
                        assert(ids[j] == prev[j]);
                    }
                }
            }
        }
    }
}

/// A folder other than the top one, once all its items resolve, gives one
/// (child, parent) link per item, in order: the id of the item's resource
/// as child and the folder's id as parent. The top folder gives none. The
/// links of several folders are those of each folder, one folder after the
/// other.
pub proof fn lemma_folder_links_per_item(ids: Seq<(String, i32)>, s: RdfSequence, a: Seq<RdfSequence>, b: Seq<RdfSequence>)
    ensures
        s.about@ == SCRAPBOOK_ROOT@ ==> sequence_links(ids, s).len() == 0,
        s.about@ != SCRAPBOOK_ROOT@ ==> {
            &&& sequence_links(ids, s).len() == s.items@.len()
            &&& forall|k: int|
                0 <= k < s.items@.len() ==> (#[trigger] sequence_links(ids, s)[k]).0 == spec_lookup(
                    ids,
                    s.items@[k].resource@,
                )->0 && sequence_links(ids, s)[k].1 == spec_lookup(ids, s.about@)->0
        },
        all_links(ids, a + b) == all_links(ids, a) + all_links(ids, b),
    decreases b.len(),
{
    if b.len() == 0 {
        assert(a + b =~= a);
        assert(all_links(ids, b) =~= Seq::<(i32, i32)>::empty());
        assert(all_links(ids, a) + all_links(ids, b) =~= all_links(ids, a));
    } else {
        let b0 = b.subrange(0, b.len() - 1);
        lemma_folder_links_per_item(ids, s, a, b0);
        assert((a + b).subrange(0, (a + b).len() - 1) =~= a + b0);
        assert((a + b)[(a + b).len() - 1] == b[b.len() - 1]);
        assert(all_links(ids, a) + all_links(ids, b) =~= all_links(ids, a) + all_links(ids, b0) + sequence_links(
            ids,
            b[b.len() - 1],
        ));
    }
}

} // verus!
