use std::collections::HashMap;

use vstd::prelude::*;

use crate::datetime::DateTime;
use crate::types::{NodeType, PathBufSql};

verus! {

broadcast use vstd::std_specs::hash::group_hash_axioms;

/// One row of the node query: a node with the ids of its children.
pub struct NodeFlat {
    pub id: i32,
    pub file_id: Option<i32>,
    pub file_path: Option<PathBufSql>,
    pub node_type: NodeType,
    pub title: Option<String>,
    pub subtype: Option<String>,
    pub url: Option<String>,
    pub icon: Option<String>,
    pub created: Option<DateTime>,
    pub modified: Option<DateTime>,
    pub original_id: Option<String>,
    pub parent_id: Option<i32>,
    pub children: Vec<i32>,
}

/// A node with its children expanded into subtrees.
pub struct NodeTree {
    pub id: i32,
    pub file_id: Option<i32>,
    pub file_path: Option<PathBufSql>,
    pub node_type: NodeType,
    pub title: Option<String>,
    pub subtype: Option<String>,
    pub url: Option<String>,
    pub icon: Option<String>,
    pub created: Option<DateTime>,
    pub modified: Option<DateTime>,
    pub original_id: Option<String>,
    pub parent_id: Option<i32>,
    pub children: Vec<NodeTree>,
}

/// Every field of the tree node but its children is the flat node's.
pub open spec fn same_fields(n: NodeFlat, t: NodeTree) -> bool {
    &&& t.id == n.id
    &&& t.file_id == n.file_id
    &&& t.file_path == n.file_path
    &&& t.node_type == n.node_type
    &&& t.title == n.title
    &&& t.subtype == n.subtype
    &&& t.url == n.url
    &&& t.icon == n.icon
    &&& t.created == n.created
    &&& t.modified == n.modified
    &&& t.original_id == n.original_id
    &&& t.parent_id == n.parent_id
}

/// Each node of the map is held under its own id.
pub open spec fn keyed_by_id(m: Map<i32, NodeFlat>) -> bool {
    forall|k: i32| #[trigger] m.contains_key(k) ==> m[k].id == k
}

/// `t` is the expansion of the node that `m` holds under `id`: its fields
/// are that node's and its children are the expansions of the node's child
/// ids.
pub open spec fn tree_matches(m: Map<i32, NodeFlat>, id: i32, t: NodeTree) -> bool
    decreases t,
{
    &&& m.contains_key(id)
    &&& same_fields(m[id], t)
    &&& forest_matches(m, m[id].children@, t.children@)
}

/// `t` is the expansion of the flat node `n`: its fields are `n`'s and its
/// children are the expansions, in `m`, of `n`'s child ids.
pub open spec fn node_matches(m: Map<i32, NodeFlat>, n: NodeFlat, t: NodeTree) -> bool {
    &&& same_fields(n, t)
    &&& forest_matches(m, n.children@, t.children@)
}

/// `f` is the sequence of the expansions, in `m`, of `ids`.
pub open spec fn forest_matches(m: Map<i32, NodeFlat>, ids: Seq<i32>, f: Seq<NodeTree>) -> bool
    decreases f,
{
    if f.len() == 0 {
        ids.len() == 0
    } else {
        &&& ids.len() == f.len()
        &&& forest_matches(m, ids.subrange(0, ids.len() - 1), f.subrange(0, f.len() - 1))
        &&& tree_matches(m, ids[ids.len() - 1], f[f.len() - 1])
    }
}

/// The ids of a tree in depth-first order.
pub open spec fn tree_ids(t: NodeTree) -> Seq<i32>
    decreases t,
{
    seq![t.id] + forest_ids(t.children@)
}

/// The ids of a forest in depth-first order.
pub open spec fn forest_ids(f: Seq<NodeTree>) -> Seq<i32>
    decreases f,
{
    if f.len() == 0 {
        seq![]
    } else {
        forest_ids(f.subrange(0, f.len() - 1)) + tree_ids(f[f.len() - 1])
    }
}

/// The ids can be expanded in `m` into a forest in which no node occurs
/// twice.
pub open spec fn has_forest(m: Map<i32, NodeFlat>, ids: Seq<i32>) -> bool {
    exists|f: Seq<NodeTree>| forest_matches(m, ids, f) && forest_ids(f).no_duplicates()
}

/// `m` is `m0` without the entries whose keys are in `ids`.
pub open spec fn map_without(m0: Map<i32, NodeFlat>, m: Map<i32, NodeFlat>, ids: Seq<i32>) -> bool {
    &&& forall|x: i32| #[trigger] m.contains_key(x) <==> (m0.contains_key(x) && !ids.contains(x))
    &&& forall|x: i32| #[trigger] m.contains_key(x) ==> m[x] == m0[x]
}

/// `m2` holds every entry of `m1` under each of `ids`.
pub open spec fn agree_on(m1: Map<i32, NodeFlat>, m2: Map<i32, NodeFlat>, ids: Seq<i32>) -> bool {
    forall|x: i32| #[trigger] ids.contains(x) && m1.contains_key(x) ==> m2.contains_key(x) && m2[x] == m1[x]
}

proof fn lemma_forest_ids_push(f: Seq<NodeTree>, t: NodeTree)
    ensures
        forest_ids(f.push(t)) == forest_ids(f) + tree_ids(t),
{
    assert(f.push(t).subrange(0, f.len() as int) =~= f);
}

proof fn lemma_forest_ids_concat(a: Seq<NodeTree>, b: Seq<NodeTree>)
    ensures
        forest_ids(a + b) == forest_ids(a) + forest_ids(b),
    decreases b.len(),
{
    if b.len() == 0 {
        assert(a + b =~= a);
        assert(forest_ids(b) =~= seq![]);
        assert(forest_ids(a) + forest_ids(b) =~= forest_ids(a));
    } else {
        let b1 = b.subrange(0, b.len() - 1);
        let t = b[b.len() - 1];
        assert((a + b).subrange(0, (a + b).len() - 1) =~= a + b1);
        lemma_forest_ids_concat(a, b1);
        assert(forest_ids(a + b) == forest_ids(a + b1) + tree_ids(t));
        assert(forest_ids(a) + forest_ids(b) =~= forest_ids(a) + forest_ids(b1) + tree_ids(t));
    }
}

proof fn lemma_forest_push(m: Map<i32, NodeFlat>, ids: Seq<i32>, f: Seq<NodeTree>, id: i32, t: NodeTree)
    requires
        forest_matches(m, ids, f),
        tree_matches(m, id, t),
    ensures
        forest_matches(m, ids.push(id), f.push(t)),
{
    assert(ids.push(id).subrange(0, ids.len() as int) =~= ids);
    assert(f.push(t).subrange(0, f.len() as int) =~= f);
}

/// Matching in one map carries over to another that agrees with it on the
/// ids of the expansion.
proof fn lemma_tree_transfer(m1: Map<i32, NodeFlat>, m2: Map<i32, NodeFlat>, id: i32, t: NodeTree)
    requires
        keyed_by_id(m1),
        tree_matches(m1, id, t),
        agree_on(m1, m2, tree_ids(t)),
    ensures
        tree_matches(m2, id, t),
    decreases t,
{
    assert(tree_ids(t) == seq![t.id] + forest_ids(t.children@));
    assert(tree_ids(t)[0] == t.id);
    assert(tree_ids(t).contains(t.id));
    assert forall|x: i32| #[trigger] forest_ids(t.children@).contains(x) implies tree_ids(t).contains(x) by {
        let j = choose|j: int| 0 <= j < forest_ids(t.children@).len() && forest_ids(t.children@)[j] == x;
        assert(tree_ids(t)[j + 1] == x);
    }
    lemma_forest_transfer(m1, m2, m1[id].children@, t.children@);
}

proof fn lemma_forest_transfer(m1: Map<i32, NodeFlat>, m2: Map<i32, NodeFlat>, ids: Seq<i32>, f: Seq<NodeTree>)
    requires
        keyed_by_id(m1),
        forest_matches(m1, ids, f),
        agree_on(m1, m2, forest_ids(f)),
    ensures
        forest_matches(m2, ids, f),
    decreases f,
{
    if f.len() > 0 {
        let f1 = f.subrange(0, f.len() - 1);
        let t = f[f.len() - 1];
        let fi = forest_ids(f);
        assert(fi == forest_ids(f1) + tree_ids(t));
        assert forall|x: i32| #[trigger] forest_ids(f1).contains(x) implies fi.contains(x) by {
            let j = choose|j: int| 0 <= j < forest_ids(f1).len() && forest_ids(f1)[j] == x;
            assert(fi[j] == x);
        }
        assert forall|x: i32| #[trigger] tree_ids(t).contains(x) implies fi.contains(x) by {
            let j = choose|j: int| 0 <= j < tree_ids(t).len() && tree_ids(t)[j] == x;
            assert(fi[forest_ids(f1).len() + j] == x);
        }
        lemma_forest_transfer(m1, m2, ids.subrange(0, ids.len() - 1), f1);
        lemma_tree_transfer(m1, m2, ids[ids.len() - 1], t);
    }
}

/// Every id of an expansion is a key of the map.
proof fn lemma_tree_ids_in(m: Map<i32, NodeFlat>, id: i32, t: NodeTree)
    requires
        keyed_by_id(m),
        tree_matches(m, id, t),
    ensures
        tree_ids(t)[0] == id,
        forall|x: i32| #[trigger] tree_ids(t).contains(x) ==> m.contains_key(x),
    decreases t,
{
    lemma_forest_ids_in(m, m[id].children@, t.children@);
    assert(tree_ids(t) == seq![t.id] + forest_ids(t.children@));
    assert forall|x: i32| #[trigger] tree_ids(t).contains(x) implies m.contains_key(x) by {
        let j = choose|j: int| 0 <= j < tree_ids(t).len() && tree_ids(t)[j] == x;
        if j > 0 {
            assert(forest_ids(t.children@)[j - 1] == x);
            assert(forest_ids(t.children@).contains(x));
        }
    }
}

proof fn lemma_forest_ids_in(m: Map<i32, NodeFlat>, ids: Seq<i32>, f: Seq<NodeTree>)
    requires
        keyed_by_id(m),
        forest_matches(m, ids, f),
    ensures
        forall|x: i32| #[trigger] forest_ids(f).contains(x) ==> m.contains_key(x),
    decreases f,
{
    if f.len() > 0 {
        let f1 = f.subrange(0, f.len() - 1);
        let t = f[f.len() - 1];
        lemma_forest_ids_in(m, ids.subrange(0, ids.len() - 1), f1);
        lemma_tree_ids_in(m, ids[ids.len() - 1], t);
        assert forall|x: i32| #[trigger] forest_ids(f).contains(x) implies m.contains_key(x) by {
            let j = choose|j: int| 0 <= j < forest_ids(f).len() && forest_ids(f)[j] == x;
            assert(forest_ids(f) == forest_ids(f1) + tree_ids(t));
            if j < forest_ids(f1).len() {
                assert(forest_ids(f1)[j] == x);
                assert(forest_ids(f1).contains(x));
            } else {
                assert(tree_ids(t)[j - forest_ids(f1).len()] == x);
                assert(tree_ids(t).contains(x));
            }
        }
    }
}

/// The ids of an expansion are determined by the map and the root ids.
proof fn lemma_tree_ids_unique(m: Map<i32, NodeFlat>, id: i32, t1: NodeTree, t2: NodeTree)
    requires
        tree_matches(m, id, t1),
        tree_matches(m, id, t2),
    ensures
        tree_ids(t1) == tree_ids(t2),
    decreases t1,
{
    lemma_forest_ids_unique(m, m[id].children@, t1.children@, t2.children@);
}

proof fn lemma_forest_ids_unique(m: Map<i32, NodeFlat>, ids: Seq<i32>, f1: Seq<NodeTree>, f2: Seq<NodeTree>)
    requires
        forest_matches(m, ids, f1),
        forest_matches(m, ids, f2),
    ensures
        forest_ids(f1) == forest_ids(f2),
    decreases f1,
{
    if f1.len() > 0 {
        lemma_forest_ids_unique(m, ids.subrange(0, ids.len() - 1), f1.subrange(0, f1.len() - 1), f2.subrange(0, f2.len() - 1));
        lemma_tree_ids_unique(m, ids[ids.len() - 1], f1[f1.len() - 1], f2[f2.len() - 1]);
    }
}


proof fn lemma_forest_concat(m: Map<i32, NodeFlat>, ia: Seq<i32>, a: Seq<NodeTree>, ib: Seq<i32>, b: Seq<NodeTree>)
    requires
        ia.len() == a.len(),
    ensures
        forest_matches(m, ia + ib, a + b) <==> (forest_matches(m, ia, a) && forest_matches(m, ib, b)),
    decreases b.len(),
{
    if b.len() == 0 {
        assert(a + b =~= a);
        if ib.len() == 0 {
            assert(ia + ib =~= ia);
        } else {
            if a.len() > 0 {
                assert((ia + ib).len() != (a + b).len());
            } else {
                assert((a + b).len() == 0);
            }
        }
    } else if ib.len() != b.len() {
        assert((ia + ib).len() != (a + b).len());
    } else {
        let ib1 = ib.subrange(0, ib.len() - 1);
        let b1 = b.subrange(0, b.len() - 1);
        assert((ia + ib).subrange(0, (ia + ib).len() - 1) =~= ia + ib1);
        assert((a + b).subrange(0, (a + b).len() - 1) =~= a + b1);
        assert((ia + ib)[(ia + ib).len() - 1] == ib[ib.len() - 1]);
        assert((a + b)[(a + b).len() - 1] == b[b.len() - 1]);
        lemma_forest_concat(m, ia, a, ib1, b1);
    }
}

proof fn lemma_no_dup_concat(a: Seq<i32>, b: Seq<i32>)
    ensures
        (a + b).no_duplicates() <==> (a.no_duplicates() && b.no_duplicates() && forall|x: i32|
            #[trigger] a.contains(x) ==> !b.contains(x)),
{
    let c = a + b;
    if c.no_duplicates() {
        assert forall|i: int, j: int| 0 <= i < a.len() && 0 <= j < a.len() && i != j implies a[i] != a[j] by {
            assert(c[i] == a[i] && c[j] == a[j]);
        }
        assert forall|i: int, j: int| 0 <= i < b.len() && 0 <= j < b.len() && i != j implies b[i] != b[j] by {
            assert(c[a.len() + i] == b[i] && c[a.len() + j] == b[j]);
        }
        assert forall|x: i32| #[trigger] a.contains(x) implies !b.contains(x) by {
            let i = choose|i: int| 0 <= i < a.len() && a[i] == x;
            if b.contains(x) {
                let j = choose|j: int| 0 <= j < b.len() && b[j] == x;
                assert(c[i] == c[a.len() + j]);
            }
        }
    }
    if a.no_duplicates() && b.no_duplicates() && forall|x: i32| #[trigger] a.contains(x) ==> !b.contains(x) {
        assert forall|i: int, j: int| 0 <= i < c.len() && 0 <= j < c.len() && i != j implies c[i] != c[j] by {
            if i < a.len() && j >= a.len() {
                assert(a.contains(c[i]));
                assert(b[j - a.len()] == c[j]);
            } else if j < a.len() && i >= a.len() {
                assert(a.contains(c[j]));
                assert(b[i - a.len()] == c[i]);
            } else if i >= a.len() {
                assert(b[i - a.len()] == c[i] && b[j - a.len()] == c[j]);
            }
        }
    }
}

/// Splits an expansion into its first tree and the rest.
proof fn lemma_forest_first(m: Map<i32, NodeFlat>, ids: Seq<i32>, f: Seq<NodeTree>)
    requires
        forest_matches(m, ids, f),
        ids.len() > 0,
    ensures
        f.len() == ids.len(),
        tree_matches(m, ids[0], f[0]),
        forest_matches(m, ids.drop_first(), f.drop_first()),
        forest_ids(f) == tree_ids(f[0]) + forest_ids(f.drop_first()),
{
    let one = seq![ids[0]];
    let t = seq![f[0]];
    assert(f.len() == ids.len());
    assert(one + ids.drop_first() =~= ids);
    assert(t + f.drop_first() =~= f);
    lemma_forest_concat(m, one, t, ids.drop_first(), f.drop_first());
    assert(t.subrange(0, 0) =~= Seq::<NodeTree>::empty());
    assert(one.subrange(0, 0) =~= Seq::<i32>::empty());
    lemma_forest_ids_concat(t, f.drop_first());
    assert(forest_ids(t.subrange(0, 0)) =~= Seq::<i32>::empty());
    assert(forest_ids(t) =~= tree_ids(f[0]));
}

/// What an expansion of the remaining ids gives for the next one: it is in
/// the map, and its children can be expanded once it is taken out.
proof fn lemma_has_forest_next(m: Map<i32, NodeFlat>, ids: Seq<i32>)
    requires
        keyed_by_id(m),
        has_forest(m, ids),
        ids.len() > 0,
    ensures
        m.contains_key(ids[0]),
        has_forest(m.remove(ids[0]), m[ids[0]].children@),
{
    let g = choose|g: Seq<NodeTree>| forest_matches(m, ids, g) && forest_ids(g).no_duplicates();
    lemma_forest_first(m, ids, g);
    let id = ids[0];
    let t = g[0];
    let kids = t.children@;
    assert(tree_ids(t) == seq![t.id] + forest_ids(kids));
    lemma_no_dup_concat(tree_ids(t), forest_ids(g.drop_first()));
    lemma_no_dup_concat(seq![t.id], forest_ids(kids));
    assert(t.id == id);
    assert(seq![t.id][0] == id);
    assert(seq![t.id].contains(id));
    let m1 = m.remove(id);
    assert(agree_on(m, m1, forest_ids(kids)));
    lemma_forest_transfer(m, m1, m[id].children@, kids);
    assert(forest_matches(m1, m[id].children@, kids) && forest_ids(kids).no_duplicates());
}

/// The entries of the ids still to expand survive the removal of an
/// expanded tree whose ids are disjoint from them.
proof fn lemma_rest_kept(
    cur: Map<i32, NodeFlat>,
    cur2: Map<i32, NodeFlat>,
    id: i32,
    first: Seq<i32>,
    kids: Seq<i32>,
    rest: Seq<i32>,
)
    requires
        first == seq![id] + kids,
        (first + rest).no_duplicates(),
        map_without(cur.remove(id), cur2, kids),
    ensures
        agree_on(cur, cur2, rest),
{
    lemma_no_dup_concat(first, rest);
    assert forall|x: i32| #[trigger] rest.contains(x) && cur.contains_key(x) implies cur2.contains_key(x)
        && cur2[x] == cur[x] by {
        assert(!first.contains(x));
        if x == id {
            assert(first[0] == x);
        }
        if kids.contains(x) {
            let j = choose|j: int| 0 <= j < kids.len() && kids[j] == x;
            assert(first[j + 1] == x);
        }
        assert(cur.remove(id).contains_key(x));
    }
}

/// Expands `ids` into subtrees, taking each expanded node out of `map`.
fn build_forest(ids: &Vec<i32>, map: &mut HashMap<i32, NodeFlat>) -> (res: Option<Vec<NodeTree>>)
    requires
        keyed_by_id(old(map)@),
    ensures
        res is Some <==> has_forest(old(map)@, ids@),
        res matches Some(f) ==> {
            &&& forest_matches(old(map)@, ids@, f@)
            &&& forest_ids(f@).no_duplicates()
            &&& map_without(old(map)@, final(map)@, forest_ids(f@))
        },
    decreases old(map)@.len(),
{
    let ghost m0 = map@;
    let mut forest: Vec<NodeTree> = Vec::new();
    let mut k: usize = 0;
    proof {
        assert(ids@.take(0) =~= Seq::<i32>::empty());
        assert(ids@.skip(0) =~= ids@);
        assert(forest_ids(forest@) =~= Seq::<i32>::empty());
    }
    while k < ids.len()
        invariant
            k <= ids.len(),
            keyed_by_id(m0),
            m0.dom().finite(),
            m0 == old(map)@,
            forest_matches(m0, ids@.take(k as int), forest@),
            forest_ids(forest@).no_duplicates(),
            map_without(m0, map@, forest_ids(forest@)),
            has_forest(m0, ids@) ==> has_forest(map@, ids@.skip(k as int)),
        decreases ids.len() - k,
    {
        let id = ids[k];
        let ghost cur = map@;
        proof {
            assert(keyed_by_id(cur));
            if has_forest(m0, ids@) {
                assert(ids@.skip(k as int)[0] == id);
                lemma_has_forest_next(cur, ids@.skip(k as int));
            }
        }
        match map.remove(&id) {
            None => {
                return None;
            },
            Some(node) => {
                let ghost n = node;
                let ghost cur1 = map@;
                proof {
                    assert(cur1 == cur.remove(id));
                    assert(keyed_by_id(cur1));
                    assert(cur.dom().subset_of(m0.dom()));
                    vstd::set_lib::lemma_len_subset(cur.dom(), m0.dom());
                    assert(cur1.dom() =~= cur.dom().remove(id));
                }
                let NodeFlat {
                    id: nid,
                    file_id,
                    file_path,
                    node_type,
                    title,
                    subtype,
                    url,
                    icon,
                    created,
                    modified,
                    original_id,
                    parent_id,
                    children,
                } = node;
                let kids = build_forest(&children, map);
                match kids {
                    None => {
                        return None;
                    },
                    Some(kids) => {
                        let t = NodeTree {
                            id: nid,
                            file_id,
                            file_path,
                            node_type,
                            title,
                            subtype,
                            url,
                            icon,
                            created,
                            modified,
                            original_id,
                            parent_id,
                            children: kids,
                        };
                        proof {
                            lemma_step(m0, ids@, k as int, forest@, cur, n, t, map@);
                        }
                        forest.push(t);
                    },
                }
            },
        }
        k += 1;
    }
    proof {
        assert(ids@.take(ids@.len() as int) =~= ids@);
        assert(forest_matches(m0, ids@, forest@) && forest_ids(forest@).no_duplicates());
    }
    Some(forest)
}

proof fn lemma_step(
    m0: Map<i32, NodeFlat>,
    ids: Seq<i32>,
    k: int,
    forest: Seq<NodeTree>,
    cur: Map<i32, NodeFlat>,
    n: NodeFlat,
    t: NodeTree,
    cur2: Map<i32, NodeFlat>,
)
    requires
        0 <= k < ids.len(),
        keyed_by_id(m0),
        forest_matches(m0, ids.take(k), forest),
        forest_ids(forest).no_duplicates(),
        map_without(m0, cur, forest_ids(forest)),
        has_forest(m0, ids) ==> has_forest(cur, ids.skip(k)),
        cur.contains_key(ids[k]),
        cur[ids[k]] == n,
        same_fields(n, t),
        forest_matches(cur.remove(ids[k]), n.children@, t.children@),
        forest_ids(t.children@).no_duplicates(),
        map_without(cur.remove(ids[k]), cur2, forest_ids(t.children@)),
    ensures
        forest_matches(m0, ids.take(k + 1), forest.push(t)),
        forest_ids(forest.push(t)).no_duplicates(),
        map_without(m0, cur2, forest_ids(forest.push(t))),
        has_forest(m0, ids) ==> has_forest(cur2, ids.skip(k + 1)),
{
    let id = ids[k];
    let cur1 = cur.remove(id);
    let kids = t.children@;
    assert(keyed_by_id(cur));
    assert(keyed_by_id(cur1));
    assert(n.id == id);
    // the new tree matches in m0
    assert(agree_on(cur1, m0, forest_ids(kids)));
    lemma_forest_transfer(cur1, m0, n.children@, kids);
    assert(tree_matches(m0, id, t));
    assert(ids.take(k + 1) =~= ids.take(k).push(id));
    lemma_forest_push(m0, ids.take(k), forest, id, t);
    // ids stay distinct
    lemma_forest_ids_push(forest, t);
    assert(tree_ids(t) == seq![t.id] + forest_ids(kids));
    lemma_forest_ids_in(cur1, n.children@, kids);
    lemma_no_dup_concat(seq![id], forest_ids(kids));
    assert forall|x: i32| #[trigger] forest_ids(forest).contains(x) implies !tree_ids(t).contains(x) by {
        assert(!cur.contains_key(x));
        if tree_ids(t).contains(x) {
            let j = choose|j: int| 0 <= j < tree_ids(t).len() && tree_ids(t)[j] == x;
            if j > 0 {
                assert(forest_ids(kids)[j - 1] == x);
                assert(forest_ids(kids).contains(x));
            }
        }
    }
    lemma_no_dup_concat(forest_ids(forest), tree_ids(t));
    // what is left of the map
    let all = forest_ids(forest.push(t));
    assert(all == forest_ids(forest) + (seq![id] + forest_ids(kids)));
    assert forall|x: i32| #[trigger] cur2.contains_key(x) <==> (m0.contains_key(x) && !all.contains(x)) by {
        if all.contains(x) {
            let j = choose|j: int| 0 <= j < all.len() && all[j] == x;
            let lf = forest_ids(forest).len();
            if j < lf {
                assert(forest_ids(forest)[j] == x);
                assert(forest_ids(forest).contains(x));
            } else if j == lf {
                assert(x == id);
            } else {
                assert(forest_ids(kids)[j - lf - 1] == x);
                assert(forest_ids(kids).contains(x));
            }
        }
        if m0.contains_key(x) && !all.contains(x) {
            if forest_ids(forest).contains(x) {
                let j = choose|j: int| 0 <= j < forest_ids(forest).len() && forest_ids(forest)[j] == x;
                assert(all[j] == x);
            }
            if x == id {
                assert(all[forest_ids(forest).len() as int] == x);
            }
            if forest_ids(kids).contains(x) {
                let j = choose|j: int| 0 <= j < forest_ids(kids).len() && forest_ids(kids)[j] == x;
                assert(all[forest_ids(forest).len() + 1 + j] == x);
            }
        }
    }
    assert(map_without(m0, cur2, all));
    // the rest can still be expanded
    if has_forest(m0, ids) {
        let rest = ids.skip(k);
        let g = choose|g: Seq<NodeTree>| forest_matches(cur, rest, g) && forest_ids(g).no_duplicates();
        lemma_forest_first(cur, rest, g);
        let g0 = g[0];
        let gr = g.drop_first();
        assert(rest.drop_first() =~= ids.skip(k + 1));
        assert(tree_ids(g0) == seq![g0.id] + forest_ids(g0.children@));
        lemma_no_dup_concat(tree_ids(g0), forest_ids(gr));
        // the kids have the ids of the witness's children
        assert(agree_on(cur1, cur, forest_ids(kids)));
        lemma_forest_transfer(cur1, cur, n.children@, kids);
        lemma_forest_ids_unique(cur, n.children@, kids, g0.children@);
        assert(g0.id == id);
        assert(forest_ids(kids) == forest_ids(g0.children@));
        lemma_rest_kept(cur, cur2, id, tree_ids(g0), forest_ids(kids), forest_ids(gr));
        assert(agree_on(cur, cur2, forest_ids(gr)));
        lemma_forest_transfer(cur, cur2, ids.skip(k + 1), gr);
        assert(forest_matches(cur2, ids.skip(k + 1), gr) && forest_ids(gr).no_duplicates());
    }
}

/// The nodes of the rows that are not the root, each under its id; a later
/// row wins over an earlier one with the same id.
pub open spec fn rows_map(rows: Seq<NodeFlat>) -> Map<i32, NodeFlat>
    decreases rows.len(),
{
    if rows.len() == 0 {
        Map::empty()
    } else {
        let last = rows[rows.len() - 1];
        let prev = rows_map(rows.subrange(0, rows.len() - 1));
        if last.node_type == NodeType::Root {
            prev
        } else {
            prev.insert(last.id, last)
        }
    }
}

/// The last row whose node is the root, if any.
pub open spec fn last_root(rows: Seq<NodeFlat>) -> Option<NodeFlat>
    decreases rows.len(),
{
    if rows.len() == 0 {
        None
    } else {
        let last = rows[rows.len() - 1];
        if last.node_type == NodeType::Root {
            Some(last)
        } else {
            last_root(rows.subrange(0, rows.len() - 1))
        }
    }
}

proof fn lemma_rows_map_keyed(rows: Seq<NodeFlat>)
    ensures
        keyed_by_id(rows_map(rows)),
    decreases rows.len(),
{
    if rows.len() > 0 {
        lemma_rows_map_keyed(rows.subrange(0, rows.len() - 1));
    }
}

impl NodeFlat {
    /// Expands this node into a tree, taking each of its descendants out of
    /// `node_by_id`, which holds each node under its id.
    pub fn into_tree(self, node_by_id: &mut HashMap<i32, NodeFlat>) -> (res: NodeTree)
        requires
            keyed_by_id(old(node_by_id)@),
            has_forest(old(node_by_id)@, self.children@),
        ensures
            node_matches(old(node_by_id)@, self, res),
            forest_ids(res.children@).no_duplicates(),
            map_without(old(node_by_id)@, final(node_by_id)@, forest_ids(res.children@)),
    {
        let NodeFlat {
            id,
            file_id,
            file_path,
            node_type,
            title,
            subtype,
            url,
            icon,
            created,
            modified,
            original_id,
            parent_id,
            children,
        } = self;
        let kids = build_forest(&children, node_by_id);
        let kids = kids.unwrap();
        NodeTree {
            id,
            file_id,
            file_path,
            node_type,
            title,
            subtype,
            url,
            icon,
            created,
            modified,
            original_id,
            parent_id,
            children: kids,
        }
    }
}

/// Builds the node tree from the rows of the node query: the trees of the
/// children of the root row, in order. `None` when there is no root row, or
/// when a child id names no node or a node already placed in the tree.
pub fn get_node_tree(rows: Vec<NodeFlat>) -> (res: Option<Vec<NodeTree>>)
    ensures
        res is Some <==> (last_root(rows@) is Some && has_forest(
            rows_map(rows@),
            last_root(rows@)->0.children@,
        )),
        res matches Some(f) ==> {
            &&& forest_matches(rows_map(rows@), last_root(rows@)->0.children@, f@)
            &&& forest_ids(f@).no_duplicates()
        },
{
    let ghost rs = rows@;
    let mut root_node: Option<NodeFlat> = None;
    let mut nodes_by_id: HashMap<i32, NodeFlat> = HashMap::new();
    proof {
        assert(rs.take(0) =~= Seq::<NodeFlat>::empty());
        assert(nodes_by_id@ =~= rows_map(rs.take(0)));
    }
    for node in it: rows.into_iter()
        invariant
            it.seq() == rs,
            nodes_by_id@ == rows_map(rs.take(it.index() as int)),
            root_node == last_root(rs.take(it.index() as int)),
    {
        proof {
            let i = it.index() as int;
            assert(rs.take(i + 1).subrange(0, i) =~= rs.take(i));
            assert(rs.take(i + 1)[i] == node);
        }
        if node.node_type == NodeType::Root {
            root_node = Some(node);
        } else {
            nodes_by_id.insert(node.id, node);
        }
    }
    proof {
        assert(rs.take(rs.len() as int) =~= rs);
        lemma_rows_map_keyed(rs);
    }
    match root_node {
        None => None,
        Some(root) => build_forest(&root.children, &mut nodes_by_id),
    }
}

/// A tree built from a flat node carries that node's fields: its id, file,
/// file path, type, title, subtype, url, icon, dates, original id and
/// parent are the node's, and it has one subtree per child id of the node.
pub proof fn lemma_tree_keeps_node_fields(m: Map<i32, NodeFlat>, n: NodeFlat, t: NodeTree)
    requires
        node_matches(m, n, t),
    ensures
        t.id == n.id,
        t.file_id == n.file_id,
        t.file_path == n.file_path,
        t.node_type == n.node_type,
        t.title == n.title,
        t.subtype == n.subtype,
        t.url == n.url,
        t.icon == n.icon,
        t.created == n.created,
        t.modified == n.modified,
        t.original_id == n.original_id,
        t.parent_id == n.parent_id,
        t.children@.len() == n.children@.len(),
{
    lemma_forest_keeps_row_fields(m, n.children@, t.children@);
}

/// Every tree of a forest built from child ids carries the fields of the
/// node held under its id, and its own subtrees are built, in turn, from
/// that node's child ids: the `i`-th tree has the id `ids[i]` names, and
/// that node's file, file path, type, title, subtype, url, icon, dates,
/// original id and parent.
pub proof fn lemma_forest_keeps_row_fields(m: Map<i32, NodeFlat>, ids: Seq<i32>, f: Seq<NodeTree>)
    requires
        forest_matches(m, ids, f),
    ensures
        f.len() == ids.len(),
        forall|i: int|
            0 <= i < f.len() ==> {
                &&& m.contains_key(ids[i])
                &&& (#[trigger] f[i]).id == m[ids[i]].id
                &&& f[i].file_id == m[ids[i]].file_id
                &&& f[i].file_path == m[ids[i]].file_path
                &&& f[i].node_type == m[ids[i]].node_type
                &&& f[i].title == m[ids[i]].title
                &&& f[i].subtype == m[ids[i]].subtype
                &&& f[i].url == m[ids[i]].url
                &&& f[i].icon == m[ids[i]].icon
                &&& f[i].created == m[ids[i]].created
                &&& f[i].modified == m[ids[i]].modified
                &&& f[i].original_id == m[ids[i]].original_id
                &&& f[i].parent_id == m[ids[i]].parent_id
                &&& forest_matches(m, m[ids[i]].children@, f[i].children@)
            },
    decreases f.len(),
{
    if f.len() > 0 {
        let k = f.len() - 1;
        let f0 = f.subrange(0, k);
        let ids0 = ids.subrange(0, k);
        lemma_forest_keeps_row_fields(m, ids0, f0);
        assert(tree_matches(m, ids[k], f[k]));
        assert(m.contains_key(ids[k]) && same_fields(m[ids[k]], f[k]));
        assert forall|i: int| 0 <= i < k implies f[i] == f0[i] && ids[i] == ids0[i] by {}
    }
}

/// The node map of the rows holds, under each id, the last row with that id
/// that is not the root.
pub proof fn lemma_rows_map_holds_last_rows(rows: Seq<NodeFlat>)
    ensures
        forall|k: i32| #[trigger]
            rows_map(rows).contains_key(k) ==> exists|j: int|
                0 <= j < rows.len() && rows[j] == rows_map(rows)[k] && rows[j].id == k && rows[j].node_type
                    != NodeType::Root && forall|l: int|
                    j < l < rows.len() && rows[l].id == k ==> rows[l].node_type == NodeType::Root,
        forall|j: int|
            0 <= j < rows.len() && rows[j].node_type != NodeType::Root ==> rows_map(rows).contains_key(
                #[trigger] rows[j].id,
            ),
    decreases rows.len(),
{
    if rows.len() > 0 {
        let n = rows.len() - 1;
        let prev = rows.subrange(0, n);
        lemma_rows_map_holds_last_rows(prev);
        let last = rows[n];
        assert forall|k: i32| #[trigger] rows_map(rows).contains_key(k) implies exists|j: int|
            0 <= j < rows.len() && rows[j] == rows_map(rows)[k] && rows[j].id == k && rows[j].node_type
                != NodeType::Root && forall|l: int|
                j < l < rows.len() && rows[l].id == k ==> rows[l].node_type == NodeType::Root by {
            if last.node_type != NodeType::Root && k == last.id {
                assert(rows[n] == rows_map(rows)[k]);
            } else {
                assert(rows_map(prev).contains_key(k));
                let j = choose|j: int|
                    0 <= j < prev.len() && prev[j] == rows_map(prev)[k] && prev[j].id == k && prev[j].node_type
                        != NodeType::Root && forall|l: int|
                        j < l < prev.len() && prev[l].id == k ==> prev[l].node_type == NodeType::Root;
                assert(rows[j] == prev[j]);
                assert forall|l: int| j < l < rows.len() && rows[l].id == k implies rows[l].node_type
                    == NodeType::Root by {
                    if l < n {
                        assert(rows[l] == prev[l]);
                    }
                }
            }
        }
        assert forall|j: int|
            0 <= j < rows.len() && rows[j].node_type != NodeType::Root implies rows_map(rows).contains_key(
                #[trigger] rows[j].id,
            ) by {
            if j < n {
                assert(rows[j] == prev[j]);
            }
        }
    }
}

/// Each top-level tree of the node tree built from the rows carries the
/// fields of a row: the last row, not the root, whose id is the root's
/// child id at that place.
pub proof fn lemma_node_tree_keeps_row_fields(rows: Seq<NodeFlat>, f: Seq<NodeTree>)
    requires
        last_root(rows) is Some,
        forest_matches(rows_map(rows), last_root(rows)->0.children@, f),
    ensures
        f.len() == last_root(rows)->0.children@.len(),
        forall|i: int|
            0 <= i < f.len() ==> exists|j: int|
                0 <= j < rows.len() && rows[j].node_type != NodeType::Root && rows[j].id == last_root(
                    rows,
                )->0.children@[i] && (#[trigger] f[i]).id == rows[j].id && f[i].file_id == rows[j].file_id
                    && f[i].file_path == rows[j].file_path && f[i].node_type == rows[j].node_type && f[i].title
                    == rows[j].title && f[i].subtype == rows[j].subtype && f[i].url == rows[j].url && f[i].icon
                    == rows[j].icon && f[i].created == rows[j].created && f[i].modified == rows[j].modified
                    && f[i].original_id == rows[j].original_id && f[i].parent_id == rows[j].parent_id,
{
    let ids = last_root(rows)->0.children@;
    let m = rows_map(rows);
    lemma_forest_keeps_row_fields(m, ids, f);
    lemma_rows_map_holds_last_rows(rows);
    assert forall|i: int| 0 <= i < f.len() implies exists|j: int|
        0 <= j < rows.len() && rows[j].node_type != NodeType::Root && rows[j].id == ids[i] && (
        #[trigger] f[i]).id == rows[j].id && f[i].file_id == rows[j].file_id && f[i].file_path
            == rows[j].file_path && f[i].node_type == rows[j].node_type && f[i].title == rows[j].title
            && f[i].subtype == rows[j].subtype && f[i].url == rows[j].url && f[i].icon == rows[j].icon
            && f[i].created == rows[j].created && f[i].modified == rows[j].modified && f[i].original_id
            == rows[j].original_id && f[i].parent_id == rows[j].parent_id by {
        let t = f[i];
        assert(m.contains_key(ids[i]));
        let j = choose|j: int|
            0 <= j < rows.len() && rows[j] == m[ids[i]] && rows[j].id == ids[i] && rows[j].node_type
                != NodeType::Root && forall|l: int|
                j < l < rows.len() && rows[l].id == ids[i] ==> rows[l].node_type == NodeType::Root;
        assert(rows[j] == m[ids[i]]);
    }
}

/// The root of the node tree is the last root row: there is none exactly
/// when no row is the root, and otherwise it is a root row after which no
/// row is the root.
pub proof fn lemma_root_is_last_root_row(rows: Seq<NodeFlat>)
    ensures
        last_root(rows) is None <==> forall|j: int| 0 <= j < rows.len() ==> (#[trigger] rows[j]).node_type
            != NodeType::Root,
        last_root(rows) is Some ==> exists|j: int|
            0 <= j < rows.len() && rows[j] == last_root(rows)->0 && (#[trigger] rows[j]).node_type == NodeType::Root
                && forall|l: int| j < l < rows.len() ==> (#[trigger] rows[l]).node_type != NodeType::Root,
    decreases rows.len(),
{
    if rows.len() > 0 {
        let n = rows.len() - 1;
        let prev = rows.subrange(0, n);
        lemma_root_is_last_root_row(prev);
        if rows[n].node_type != NodeType::Root {
            assert forall|j: int| 0 <= j < n implies rows[j] == prev[j] by {}
            if last_root(prev) is Some {
                let j = choose|j: int|
                    0 <= j < prev.len() && prev[j] == last_root(prev)->0 && (#[trigger] prev[j]).node_type
                        == NodeType::Root && forall|l: int| j < l < prev.len() ==> (#[trigger] prev[l]).node_type
                        != NodeType::Root;
                assert(rows[j] == prev[j]);
                assert forall|l: int| j < l < rows.len() implies (#[trigger] rows[l]).node_type != NodeType::Root by {
                    if l < n {
                        assert(rows[l] == prev[l]);
                    }
                }
            } else {
                assert forall|j: int| 0 <= j < rows.len() implies (#[trigger] rows[j]).node_type != NodeType::Root by {
                    if j < n {
                        assert(rows[j] == prev[j]);
                    }
                }
            }
        }
    }
}

} // verus!
