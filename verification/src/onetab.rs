use vstd::prelude::*;

use crate::datetime::{parse_datetime, spec_parse_datetime, DateTime};
use crate::pattern::{regex_group, spec_regex_group};
use crate::text::opt_view;
use crate::record::{ImportError, NodeRecord, NodeRecordView};
use crate::types::NodeType;

verus! {

/// A text node of a OneTab export.
#[derive(Debug)]
pub struct OnetabString {
    pub string: String,
}

/// A saved tab: its URL, then its title.
#[derive(Debug)]
pub struct OnetabLink {
    pub children: (OnetabString, OnetabString),
}

/// A group of tabs saved at one time; its text starts with the date.
#[derive(Debug)]
pub struct OnetabDate {
    pub string: String,
    pub children: Vec<OnetabLink>,
}

/// A top-level block of a OneTab export.
#[derive(Debug)]
pub struct OnetabBlock {
    pub title: String,
    pub children: Vec<OnetabDate>,
}

/// The start of the text of a tab group: the OneTab marker and the date;
/// the date is the first capture group.
pub const ONETAB_DATE_PATTERN: &'static str = "^\\[\\[OneTab\\]\\] (\\d{4}-\\d{2}-\\d{2}_\\d{2}-\\d{2}-\\d{2})";

/// The chrono format of the date of a tab group.
pub const ONETAB_DATE_FORMAT: &'static str = "%Y-%m-%d_%H-%M-%S";

/// The date text at the start of a tab group's text, after the marker
/// `[[OneTab]] `; `None` when the text does not start that way.
pub open spec fn spec_onetab_date(s: Seq<char>) -> Option<Seq<char>> {
    spec_regex_group(ONETAB_DATE_PATTERN@, s, 1)
}

/// Reads the date text at the start of a tab group's text.
pub fn onetab_date(s: &str) -> (res: Option<String>)
    ensures
        opt_view(res) == spec_onetab_date(s@),
{
    regex_group(ONETAB_DATE_PATTERN, s, 1)
}

/// The date and time a tab group was saved, when its text reads.
pub open spec fn group_created(d: OnetabDate) -> Option<DateTime> {
    match spec_onetab_date(d.string@) {
        Some(t) => spec_parse_datetime(t, ONETAB_DATE_FORMAT@),
        None => None,
    }
}

/// `e` is the error for a tab group whose date does not read.
pub open spec fn group_error(d: OnetabDate, e: ImportError) -> bool {
    match spec_onetab_date(d.string@) {
        None => e matches ImportError::UnexpectedDateString(t) && t@ == d.string@,
        Some(date) => e matches ImportError::InvalidDate(t) && t@ == date,
    }
}

/// The node of a saved tab.
pub open spec fn link_record(file_id: i32, l: OnetabLink, created: DateTime) -> NodeRecordView {
    NodeRecordView {
        file_id: Some(file_id),
        node_type: NodeType::OneTab,
        title: Some(l.children.1.string@),
        subtype: None,
        url: Some(l.children.0.string@),
        created: Some(created),
        modified: None,
        original_id: None,
    }
}

/// The nodes of a sequence of saved tabs.
pub open spec fn links_records(file_id: i32, links: Seq<OnetabLink>, created: DateTime) -> Seq<NodeRecordView> {
    links.map_values(|l: OnetabLink| link_record(file_id, l, created))
}

/// The views of node records.
pub open spec fn record_views(rs: Seq<NodeRecord>) -> Seq<NodeRecordView> {
    rs.map_values(|r: NodeRecord| r@)
}

/// The tab groups of all blocks, in order.
pub open spec fn all_groups(blocks: Seq<OnetabBlock>) -> Seq<OnetabDate>
    decreases blocks.len(),
{
    if blocks.len() == 0 {
        seq![]
    } else {
        all_groups(blocks.subrange(0, blocks.len() - 1)) + blocks[blocks.len() - 1].children@
    }
}

/// The nodes of all tabs of a sequence of tab groups whose dates read.
pub open spec fn groups_records(file_id: i32, groups: Seq<OnetabDate>) -> Seq<NodeRecordView>
    decreases groups.len(),
{
    if groups.len() == 0 {
        seq![]
    } else {
        let last = groups[groups.len() - 1];
        groups_records(file_id, groups.subrange(0, groups.len() - 1)) + links_records(
            file_id,
            last.children@,
            group_created(last)->0,
        )
    }
}

/// The nodes of the saved tabs of a group, all saved at `created`.
pub fn links_nodes(file_id: i32, links: &Vec<OnetabLink>, created: DateTime, out: &mut Vec<NodeRecord>)
    ensures
        record_views(final(out)@) == record_views(old(out)@) + links_records(file_id, links@, created),
{
    let ghost start = record_views(out@);
    let mut i: usize = 0;
    proof {
        assert(record_views(out@) =~= start + links_records(file_id, links@.take(0), created));
    }
    while i < links.len()
        invariant
            i <= links.len(),
            record_views(out@) == start + links_records(file_id, links@.take(i as int), created),
        decreases links.len() - i,
    {
        let link = &links[i];
        let ghost before = record_views(out@);
        out.push(
            NodeRecord {
                file_id: Some(file_id),
                node_type: NodeType::OneTab,
                title: Some(link.children.1.string.clone()),
                subtype: None,
                url: Some(link.children.0.string.clone()),
                created: Some(created),
                modified: None,
                original_id: None,
            },
        );
        proof {
            assert(record_views(out@) =~= before.push(link_record(file_id, links@[i as int], created)));
            assert(links_records(file_id, links@.take(i + 1), created) =~= links_records(
                file_id,
                links@.take(i as int),
                created,
            ).push(link_record(file_id, links@[i as int], created)));
        }
        i += 1;
    }
    proof {
        assert(links@.take(links@.len() as int) =~= links@);
    }
}

/// Reads the date of a tab group and adds the nodes of its tabs.
pub fn group_nodes(file_id: i32, group: &OnetabDate, out: &mut Vec<NodeRecord>) -> (res: Result<(), ImportError>)
    ensures
        match res {
            Ok(()) => group_created(*group) is Some && record_views(final(out)@) == record_views(old(out)@)
                + links_records(file_id, group.children@, group_created(*group)->0),
            Err(e) => group_created(*group) is None && group_error(*group, e),
        },
{
    let date = match onetab_date(group.string.as_str()) {
        Some(d) => d,
        None => {
            return Err(ImportError::UnexpectedDateString(group.string.clone()));
        },
    };
    let created = match parse_datetime(date.as_str(), ONETAB_DATE_FORMAT) {
        Some(c) => c,
        None => {
            return Err(ImportError::InvalidDate(date));
        },
    };
    links_nodes(file_id, &group.children, created, out);
    Ok(())
}

/// Builds the nodes of all saved tabs of a OneTab export; fails with the
/// error of the first tab group whose date does not read.
pub fn import_onetab(file_id: i32, blocks: &Vec<OnetabBlock>) -> (res: Result<Vec<NodeRecord>, ImportError>)
    ensures
        match res {
            Ok(nodes) => {
                let gs = all_groups(blocks@);
                &&& forall|i: int| 0 <= i < gs.len() ==> (#[trigger] group_created(gs[i])) is Some
                &&& record_views(nodes@) == groups_records(file_id, gs)
            },
            Err(e) => {
                let gs = all_groups(blocks@);
                exists|i: int|
                    0 <= i < gs.len() && group_created(#[trigger] gs[i]) is None && group_error(gs[i], e)
                        && forall|j: int| 0 <= j < i ==> (#[trigger] group_created(gs[j])) is Some
            },
        },
{
    let mut out: Vec<NodeRecord> = Vec::new();
    let mut b: usize = 0;
    proof {
        assert(blocks@.take(0) =~= Seq::<OnetabBlock>::empty());
        assert(record_views(out@) =~= Seq::<NodeRecordView>::empty());
    }
    while b < blocks.len()
        invariant
            b <= blocks.len(),
            forall|i: int|
                0 <= i < all_groups(blocks@.take(b as int)).len() ==> (#[trigger] group_created(
                    all_groups(blocks@.take(b as int))[i],
                )) is Some,
            record_views(out@) == groups_records(file_id, all_groups(blocks@.take(b as int))),
        decreases blocks.len() - b,
    {
        let ghost done = all_groups(blocks@.take(b as int));
        let block = &blocks[b];
        proof {
            assert(blocks@.take(b + 1).subrange(0, b as int) =~= blocks@.take(b as int));
            assert(blocks@.take(b + 1)[b as int] == blocks@[b as int]);
        }
        let mut g: usize = 0;
        while g < block.children.len()
            invariant
                b < blocks.len(),
                block == &blocks@[b as int],
                g <= block.children.len(),
                done == all_groups(blocks@.take(b as int)),
                all_groups(blocks@.take(b + 1)) == done + block.children@,
                forall|i: int|
                    0 <= i < (done + block.children@.take(g as int)).len() ==> (#[trigger] group_created(
                        (done + block.children@.take(g as int))[i],
                    )) is Some,
                record_views(out@) == groups_records(file_id, done + block.children@.take(g as int)),
            decreases block.children.len() - g,
        {
            let ghost prefix = done + block.children@.take(g as int);
            let ghost group = block.children@[g as int];
            proof {
                assert((done + block.children@.take(g + 1)).subrange(0, prefix.len() as int) =~= prefix);
                assert((done + block.children@.take(g + 1))[prefix.len() as int] == group);
            }
            match group_nodes(file_id, &block.children[g], &mut out) {
                Ok(()) => {},
                Err(e) => {
                    proof {
                        lemma_all_groups_prefix(blocks@, b as int);
                        let gs = all_groups(blocks@);
                        let k = prefix.len() as int;
                        let whole = all_groups(blocks@.take(b as int)) + blocks@[b as int].children@;
                        assert(whole =~= done + block.children@);
                        assert(whole[k] == group);
                        assert(gs[k] == whole[k]);
                        assert forall|j: int| 0 <= j < k implies (#[trigger] group_created(gs[j])) is Some by {
                            assert(gs[j] == whole[j]);
                            assert(whole[j] == prefix[j]);
                            assert(group_created(prefix[j]) is Some);
                        }
                    }
                    return Err(e);
                },
            }
            proof {
                let next = done + block.children@.take(g + 1);
                assert(next =~= prefix.push(group));
                assert(next.subrange(0, next.len() - 1) =~= prefix);
                assert forall|i: int| 0 <= i < next.len() implies (#[trigger] group_created(next[i])) is Some by {
                    if i < prefix.len() {
                        assert(next[i] == prefix[i]);
                    }
                }
            }
            g += 1;
        }
        proof {
            assert(block.children@.take(block.children@.len() as int) =~= block.children@);
        }
        b += 1;
    }
    proof {
        assert(blocks@.take(blocks@.len() as int) =~= blocks@);
    }
    Ok(out)
}

/// The groups of the blocks before block `b`, followed by that block's
/// groups, begin the groups of all blocks.
proof fn lemma_all_groups_prefix(blocks: Seq<OnetabBlock>, b: int)
    requires
        0 <= b < blocks.len(),
    ensures
        all_groups(blocks).len() >= all_groups(blocks.take(b)).len() + blocks[b].children@.len(),
        forall|j: int|
            0 <= j < all_groups(blocks.take(b)).len() + blocks[b].children@.len() ==> all_groups(blocks)[j]
                == #[trigger] (all_groups(blocks.take(b)) + blocks[b].children@)[j],
    decreases blocks.len(),
{
    let n = blocks.len() - 1;
    let prev = blocks.subrange(0, n);
    if b == n {
        assert(prev =~= blocks.take(b));
    } else {
        assert(prev.take(b) =~= blocks.take(b));
        assert(prev[b] == blocks[b]);
        lemma_all_groups_prefix(prev, b);
    }
}

/// Each saved tab gives one node, in order: from the given file, of type
/// OneTab, titled by the tab's title (its second text), with the tab's URL
/// (its first text) and the time its group was saved. The nodes of the tab
/// groups of two parts of an export are those of the first part, then
/// those of the second.
pub proof fn lemma_tab_nodes(
    file_id: i32,
    links: Seq<OnetabLink>,
    created: DateTime,
    a: Seq<OnetabDate>,
    b: Seq<OnetabDate>,
)
    ensures
        links_records(file_id, links, created).len() == links.len(),
        forall|k: int|
            0 <= k < links.len() ==> {
                let r = #[trigger] links_records(file_id, links, created)[k];
                &&& r.file_id == Some(file_id)
                &&& r.node_type == NodeType::OneTab
                &&& r.title == Some(links[k].children.1.string@)
                &&& r.url == Some(links[k].children.0.string@)
                &&& r.created == Some(created)
                &&& r.subtype is None && r.modified is None && r.original_id is None
            },
        groups_records(file_id, a + b) == groups_records(file_id, a) + groups_records(file_id, b),
    decreases b.len(),
{
    if b.len() == 0 {
        assert(a + b =~= a);
        assert(groups_records(file_id, a) + groups_records(file_id, b) =~= groups_records(file_id, a));
    } else {
        let b0 = b.subrange(0, b.len() - 1);
        lemma_tab_nodes(file_id, links, created, a, b0);
        assert((a + b).subrange(0, (a + b).len() - 1) =~= a + b0);
        assert((a + b)[(a + b).len() - 1] == b[b.len() - 1]);
        let last = b[b.len() - 1];
        assert(groups_records(file_id, a) + groups_records(file_id, b) =~= groups_records(file_id, a)
            + groups_records(file_id, b0) + links_records(file_id, last.children@, group_created(last)->0));
    }
}

} // verus!
