use vstd::prelude::*;

use crate::datetime::{parse_datetime, spec_parse_datetime, DateTime};
use crate::record::{ImportError, NodeRecord};
use crate::text::{clone_opt, decimal, i64_to_decimal, opt_view, text_is};
use crate::types::NodeType;

verus! {

/// The chat a Telegram export belongs to.
#[derive(Debug)]
pub struct ChatMetadata {
    pub name: Option<String>,
    pub chat_type: String,
    pub id: i64,
}

/// A run of message text with its markup type (`link`, `plain`, ...).
#[derive(Debug)]
pub struct TextEntity {
    pub entity_type: String,
    pub text: String,
    pub href: Option<String>,
}

/// A message of a Telegram chat export.
#[derive(Debug)]
pub struct Message {
    pub id: i64,
    pub message_type: String,
    pub date: String,
    pub edited: Option<String>,
    pub text_entities: Vec<TextEntity>,
    pub photo: Option<String>,
    pub file: Option<String>,
}

/// A Telegram chat export.
#[derive(Debug)]
pub struct Chat {
    pub metadata: ChatMetadata,
    pub messages: Vec<Message>,
}

/// The node for a message, with the full text that its stored data holds
/// and the position of the message in its chat.
#[derive(Debug)]
pub struct MessageNode {
    pub record: NodeRecord,
    pub full_text: String,
    pub position: usize,
}

/// The format of the dates of a Telegram export.
pub const TELEGRAM_DATE_FORMAT: &'static str = "%Y-%m-%dT%H:%M:%S";

/// The text of all entities of a message, joined in order.
pub open spec fn spec_full_text(entities: Seq<TextEntity>) -> Seq<char>
    decreases entities.len(),
{
    if entities.len() == 0 {
        seq![]
    } else {
        spec_full_text(entities.subrange(0, entities.len() - 1)) + entities[entities.len() - 1].text@
    }
}

/// The link of a message: from the first entity that has one, its text when
/// it is a `link` entity, else its `href`.
pub open spec fn spec_message_url(entities: Seq<TextEntity>) -> Option<Seq<char>>
    decreases entities.len(),
{
    if entities.len() == 0 {
        None
    } else if entities[0].entity_type@ == "link"@ {
        Some(entities[0].text@)
    } else if entities[0].href is Some {
        opt_view(entities[0].href)
    } else {
        spec_message_url(entities.drop_first())
    }
}

/// The title of a message: its full text when it is not empty, else the
/// name of its file, else that of its photo.
pub open spec fn spec_message_title(m: Message) -> Option<Seq<char>> {
    let full = spec_full_text(m.text_entities@);
    if full.len() > 0 {
        Some(full)
    } else if m.file is Some {
        opt_view(m.file)
    } else {
        opt_view(m.photo)
    }
}

/// The record of a message node, given the dates it was created and last
/// modified.
pub open spec fn message_record_matches(
    r: NodeRecord,
    file_id: i32,
    m: Message,
    created: DateTime,
    modified: DateTime,
) -> bool {
    &&& r.file_id == Some(file_id)
    &&& r.node_type == NodeType::Telegram
    &&& opt_view(r.title) == spec_message_title(m)
    &&& opt_view(r.subtype) == Some(m.message_type@)
    &&& opt_view(r.url) == spec_message_url(m.text_entities@)
    &&& r.created == Some(created)
    &&& r.modified == Some(modified)
    &&& opt_view(r.original_id) == Some(decimal(m.id as int))
}

/// Joins the texts of the entities of a message.
pub fn full_text(entities: &Vec<TextEntity>) -> (res: String)
    ensures
        res@ == spec_full_text(entities@),
{
    let mut res = String::new();
    let mut i: usize = 0;
    proof {
        assert(entities@.take(0) =~= Seq::<TextEntity>::empty());
    }
    while i < entities.len()
        invariant
            i <= entities.len(),
            res@ == spec_full_text(entities@.take(i as int)),
        decreases entities.len() - i,
    {
        proof {
            assert(entities@.take(i + 1).subrange(0, i as int) =~= entities@.take(i as int));
        }
        res.append(entities[i].text.as_str());
        i += 1;
    }
    proof {
        assert(entities@.take(entities@.len() as int) =~= entities@);
    }
    res
}

/// The link of a message: from the first entity that has one, its text when
/// it is a `link` entity, else its `href`.
pub fn message_url(entities: &Vec<TextEntity>) -> (res: Option<String>)
    ensures
        opt_view(res) == spec_message_url(entities@),
{
    let mut i: usize = 0;
    proof {
        assert(entities@.skip(0) =~= entities@);
    }
    while i < entities.len()
        invariant
            i <= entities.len(),
            spec_message_url(entities@) == spec_message_url(entities@.skip(i as int)),
        decreases entities.len() - i,
    {
        proof {
            assert(entities@.skip(i as int).drop_first() =~= entities@.skip(i + 1));
            assert(entities@.skip(i as int)[0] == entities@[i as int]);
        }
        let e = &entities[i];
        if text_is(e.entity_type.as_str(), "link") {
            return Some(e.text.clone());
        }
        if e.href.is_some() {
            return clone_opt(&e.href);
        }
        i += 1;
    }
    proof {
        assert(entities@.skip(i as int) =~= Seq::<TextEntity>::empty());
    }
    None
}

/// The title of a message: its full text when it is not empty, else the
/// name of its file, else that of its photo.
pub fn message_title(message: &Message, full: &String) -> (res: Option<String>)
    requires
        full@ == spec_full_text(message.text_entities@),
    ensures
        opt_view(res) == spec_message_title(*message),
{
    if full.unicode_len() > 0 {
        Some(full.clone())
    } else if message.file.is_some() {
        clone_opt(&message.file)
    } else {
        clone_opt(&message.photo)
    }
}

/// Builds the node of a message from the dates read from its `date` and,
/// when it was edited, its `edited` text: an error names the first of these
/// texts that could not be read, and a message that was never edited counts
/// as last modified when it was created.
pub fn message_node(
    file_id: i32,
    position: usize,
    message: &Message,
    created: Option<DateTime>,
    edited: Option<DateTime>,
) -> (res: Result<MessageNode, ImportError>)
    ensures
        res matches Ok(n) ==> n.position == position,
        created is None ==> (res matches Err(ImportError::InvalidDate(t)) && t@ == message.date@),
        created is Some && message.edited is Some && edited is None ==> (res matches Err(
            ImportError::InvalidDate(t),
        ) && t@ == message.edited->0@),
        created is Some && (message.edited is None || edited is Some) ==> (res matches Ok(n) && {
            &&& n.full_text@ == spec_full_text(message.text_entities@)
            &&& message_record_matches(
                n.record,
                file_id,
                *message,
                created->0,
                if message.edited is Some {
                    edited->0
                } else {
                    created->0
                },
            )
        }),
{
    let created = match created {
        Some(c) => c,
        None => {
            return Err(ImportError::InvalidDate(message.date.clone()));
        },
    };
    let modified = match &message.edited {
        Some(text) => match edited {
            Some(e) => e,
            None => {
                return Err(ImportError::InvalidDate(text.clone()));
            },
        },
        None => created,
    };
    let full = full_text(&message.text_entities);
    let title = message_title(message, &full);
    let url = message_url(&message.text_entities);
    let record = NodeRecord {
        file_id: Some(file_id),
        node_type: NodeType::Telegram,
        title,
        subtype: Some(message.message_type.clone()),
        url,
        created: Some(created),
        modified: Some(modified),
        original_id: Some(i64_to_decimal(message.id)),
    };
    Ok(MessageNode { record, full_text: full, position })
}

/// The text of the first date of a message that does not read: its `date`,
/// else its `edited` text; `None` when both read.
pub open spec fn message_date_error(m: Message) -> Option<Seq<char>> {
    if spec_parse_datetime(m.date@, TELEGRAM_DATE_FORMAT@) is None {
        Some(m.date@)
    } else if m.edited is Some && spec_parse_datetime(m.edited->0@, TELEGRAM_DATE_FORMAT@) is None {
        Some(m.edited->0@)
    } else {
        None
    }
}

/// `n` is the node of the message `m`, whose dates read.
pub open spec fn message_node_matches(file_id: i32, m: Message, n: MessageNode) -> bool {
    let created = spec_parse_datetime(m.date@, TELEGRAM_DATE_FORMAT@)->0;
    &&& n.full_text@ == spec_full_text(m.text_entities@)
    &&& message_record_matches(
        n.record,
        file_id,
        m,
        created,
        if m.edited is Some {
            spec_parse_datetime(m.edited->0@, TELEGRAM_DATE_FORMAT@)->0
        } else {
            created
        },
    )
}

/// Reads the dates of the message at `position` of its chat and builds its
/// node.
pub fn message_record(file_id: i32, position: usize, message: &Message) -> (res: Result<MessageNode, ImportError>)
    ensures
        match res {
            Ok(n) => message_date_error(*message) is None && message_node_matches(file_id, *message, n)
                && n.position == position,
            Err(ImportError::InvalidDate(t)) => message_date_error(*message) == Some(t@),
            Err(_) => false,
        },
{
    let created = parse_datetime(message.date.as_str(), TELEGRAM_DATE_FORMAT);
    let edited = match &message.edited {
        Some(text) => parse_datetime(text.as_str(), TELEGRAM_DATE_FORMAT),
        None => None,
    };
    message_node(file_id, position, message, created, edited)
}

/// Whether a message is a service message, which carries nothing to index.
pub open spec fn is_service(m: Message) -> bool {
    m.message_type@ == "service"@
}

/// The positions, in order, of the messages of a chat that are indexed:
/// those that are not service messages.
pub open spec fn indexed_positions(messages: Seq<Message>) -> Seq<int>
    decreases messages.len(),
{
    if messages.len() == 0 {
        seq![]
    } else {
        let n = messages.len() - 1;
        let prev = indexed_positions(messages.subrange(0, n));
        if is_service(messages[n]) {
            prev
        } else {
            prev.push(n)
        }
    }
}

/// Builds the nodes of the messages of a chat export, skipping service
/// messages; each node records the position of its message. Fails with the
/// error of the first indexed message whose dates do not read.
pub fn import_chat(file_id: i32, chat: &Chat) -> (res: Result<Vec<MessageNode>, ImportError>)
    ensures
        match res {
            Ok(nodes) => {
                let ps = indexed_positions(chat.messages@);
                &&& nodes.len() == ps.len()
                &&& forall|k: int|
                    0 <= k < ps.len() ==> {
                        let m = chat.messages@[#[trigger] ps[k]];
                        &&& nodes@[k].position == ps[k]
                        &&& message_date_error(m) is None
                        &&& message_node_matches(file_id, m, nodes@[k])
                    }
            },
            Err(ImportError::InvalidDate(t)) => {
                let ps = indexed_positions(chat.messages@);
                exists|k: int|
                    0 <= k < ps.len() && message_date_error(chat.messages@[#[trigger] ps[k]]) == Some(t@)
                        && forall|j: int|
                        0 <= j < k ==> message_date_error(chat.messages@[#[trigger] ps[j]]) is None
            },
            Err(_) => false,
        },
{
    let ghost msgs = chat.messages@;
    let mut nodes: Vec<MessageNode> = Vec::new();
    let mut i: usize = 0;
    proof {
        assert(msgs.take(0) =~= Seq::<Message>::empty());
    }
    while i < chat.messages.len()
        invariant
            i <= chat.messages.len(),
            msgs == chat.messages@,
            nodes.len() == indexed_positions(msgs.take(i as int)).len(),
            forall|k: int| 0 <= k < nodes.len() ==> {
                let p = #[trigger] indexed_positions(msgs.take(i as int))[k];
                &&& 0 <= p < i
                &&& nodes@[k].position == p
                &&& message_date_error(msgs[p]) is None
                &&& message_node_matches(file_id, msgs[p], nodes@[k])
            },
        decreases chat.messages.len() - i,
    {
        let ghost before = indexed_positions(msgs.take(i as int));
        proof {
            assert(msgs.take(i + 1).subrange(0, i as int) =~= msgs.take(i as int));
            assert(msgs.take(i + 1)[i as int] == msgs[i as int]);
            lemma_positions_bounded(msgs.take(i as int));
        }
        let message = &chat.messages[i];
        if !text_is(message.message_type.as_str(), "service") {
            match message_record(file_id, i, message) {
                Ok(node) => {
                    nodes.push(node);
                    proof {
                        let after = indexed_positions(msgs.take(i + 1));
                        assert(after == before.push(i as int));
                        assert forall|k: int| 0 <= k < nodes.len() implies {
                            let p = #[trigger] after[k];
                            &&& 0 <= p < i + 1
                            &&& nodes@[k].position == p
                            &&& message_date_error(msgs[p]) is None
                            &&& message_node_matches(file_id, msgs[p], nodes@[k])
                        } by {
                            if k < before.len() {
                                assert(after[k] == before[k]);
                            }
                        }
                    }
                },
                Err(e) => {
                    proof {
                        lemma_positions_prefix(msgs, i as int);
                        let ps = indexed_positions(msgs);
                        let q = before.len() as int;
                        assert(ps[q] == i as int);
                        assert forall|j: int| 0 <= j < q implies message_date_error(msgs[#[trigger] ps[j]]) is None by {
                            assert(ps[j] == before[j]);
                        }
                    }
                    return Err(e);
                },
            }
        } else {
            proof {
                assert(indexed_positions(msgs.take(i + 1)) == before);
            }
        }
        i += 1;
    }
    proof {
        assert(msgs.take(msgs.len() as int) =~= msgs);
    }
    Ok(nodes)
}

proof fn lemma_positions_bounded(msgs: Seq<Message>)
    ensures
        forall|k: int|
            0 <= k < indexed_positions(msgs).len() ==> 0 <= #[trigger] indexed_positions(msgs)[k] < msgs.len(),
    decreases msgs.len(),
{
    if msgs.len() > 0 {
        let prev = msgs.subrange(0, msgs.len() - 1);
        lemma_positions_bounded(prev);
        let ps = indexed_positions(msgs);
        let pp = indexed_positions(prev);
        assert forall|k: int| 0 <= k < ps.len() implies 0 <= #[trigger] ps[k] < msgs.len() by {
            if k < pp.len() {
                assert(ps[k] == pp[k]);
            }
        }
    }
}

/// The positions of the indexed messages of a prefix, followed by that of
/// the next message when it is not a service message, begin the positions
/// of the whole chat.
proof fn lemma_positions_prefix(msgs: Seq<Message>, i: int)
    requires
        0 <= i < msgs.len(),
        !is_service(msgs[i]),
    ensures
        indexed_positions(msgs).len() > indexed_positions(msgs.take(i)).len(),
        forall|j: int|
            0 <= j < indexed_positions(msgs.take(i)).len() ==> indexed_positions(msgs)[j]
                == #[trigger] indexed_positions(msgs.take(i))[j],
        indexed_positions(msgs)[indexed_positions(msgs.take(i)).len() as int] == i,
    decreases msgs.len(),
{
    let n = msgs.len() - 1;
    let prev = msgs.subrange(0, n);
    if i == n {
        assert(prev =~= msgs.take(i));
    } else {
        assert(prev.take(i) =~= msgs.take(i));
        assert(prev[i] == msgs[i]);
        lemma_positions_prefix(prev, i);
    }
}

/// The full text of a message joins the texts of its entities: a single
/// entity gives its own text, and the entities of two parts give the full
/// texts of the parts one after the other.
pub proof fn lemma_full_text_joins(a: Seq<TextEntity>, b: Seq<TextEntity>, e: TextEntity)
    ensures
        spec_full_text(seq![e]) == e.text@,
        spec_full_text(a + b) == spec_full_text(a) + spec_full_text(b),
    decreases b.len(),
{
    assert(seq![e].subrange(0, 0) =~= Seq::<TextEntity>::empty());
    assert(spec_full_text(Seq::<TextEntity>::empty()) + e.text@ =~= e.text@);
    if b.len() == 0 {
        assert(a + b =~= a);
        assert(spec_full_text(a) + spec_full_text(b) =~= spec_full_text(a));
    } else {
        let b0 = b.subrange(0, b.len() - 1);
        lemma_full_text_joins(a, b0, e);
        assert((a + b).subrange(0, (a + b).len() - 1) =~= a + b0);
        assert((a + b)[(a + b).len() - 1] == b[b.len() - 1]);
        assert(spec_full_text(a) + spec_full_text(b) =~= spec_full_text(a) + spec_full_text(b0) + b[b.len()
            - 1].text@);
    }
}

/// The link of a message comes from the first entity that has one: of the
/// entities of two parts, the first part's link where it has one, else the
/// second part's.
pub proof fn lemma_message_url_first(a: Seq<TextEntity>, b: Seq<TextEntity>)
    ensures
        spec_message_url(a + b) == (if spec_message_url(a) is Some {
            spec_message_url(a)
        } else {
            spec_message_url(b)
        }),
    decreases a.len(),
{
    if a.len() == 0 {
        assert(a + b =~= b);
    } else {
        assert((a + b)[0] == a[0]);
        assert((a + b).drop_first() =~= a.drop_first() + b);
        lemma_message_url_first(a.drop_first(), b);
    }
}

/// The node of a message: from the given file, of type Telegram, with the
/// message's type as subtype and the given dates. Its title is the full text
/// of the message whenever that is not empty, whatever file or photo the
/// message carries; a message without text is titled by its file, and one
/// without text or file by its photo.
pub proof fn lemma_message_record_fields(r: NodeRecord, file_id: i32, m: Message, created: DateTime, modified: DateTime)
    requires
        message_record_matches(r, file_id, m, created, modified),
    ensures
        r.file_id == Some(file_id),
        r.node_type == NodeType::Telegram,
        spec_full_text(m.text_entities@).len() > 0 ==> opt_view(r.title) == Some(spec_full_text(m.text_entities@)),
        spec_full_text(m.text_entities@).len() == 0 && m.file is Some ==> opt_view(r.title) == opt_view(m.file),
        spec_full_text(m.text_entities@).len() == 0 && m.file is None ==> opt_view(r.title) == opt_view(m.photo),
        opt_view(r.subtype) == Some(m.message_type@),
        opt_view(r.url) == spec_message_url(m.text_entities@),
        r.created == Some(created),
        r.modified == Some(modified),
        opt_view(r.original_id) == Some(decimal(m.id as int)),
{
}

/// The indexed messages of a chat are exactly its messages that are not
/// service messages, in the chat's order: each position names such a
/// message, the positions increase, and every such message has its
/// position among them.
pub proof fn lemma_indexed_positions_exact(msgs: Seq<Message>)
    ensures
        forall|k: int|
            0 <= k < indexed_positions(msgs).len() ==> 0 <= #[trigger] indexed_positions(msgs)[k] < msgs.len()
                && msgs[indexed_positions(msgs)[k]].message_type@ != "service"@,
        forall|k: int, l: int|
            0 <= k < l < indexed_positions(msgs).len() ==> #[trigger] indexed_positions(msgs)[k]
                < #[trigger] indexed_positions(msgs)[l],
        forall|i: int|
            0 <= i < msgs.len() && (#[trigger] msgs[i]).message_type@ != "service"@ ==> indexed_positions(
                msgs,
            ).contains(i),
    decreases msgs.len(),
{
    if msgs.len() > 0 {
        let n = msgs.len() - 1;
        let prev = msgs.subrange(0, n);
        lemma_indexed_positions_exact(prev);
        let pp = indexed_positions(prev);
        let p = indexed_positions(msgs);
        assert forall|k: int| 0 <= k < pp.len() implies msgs[pp[k]] == prev[pp[k]] by {}
        assert forall|i: int|
            0 <= i < msgs.len() && (#[trigger] msgs[i]).message_type@ != "service"@ implies p.contains(i) by {
            if i < n {
                assert(msgs[i] == prev[i]);
                assert(pp.contains(i));
                let k = choose|k: int| 0 <= k < pp.len() && pp[k] == i;
                assert(p[k] == pp[k]);
            } else {
                assert(p[p.len() - 1] == i);
            }
        }
    }
}

} // verus!
