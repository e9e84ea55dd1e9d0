use std::collections::HashMap;

use indexref::node_tree::{get_node_tree, NodeFlat, NodeTree};
use indexref::types::NodeType;

fn flat(id: i32, node_type: NodeType, title: &str, children: Vec<i32>) -> NodeFlat {
    NodeFlat {
        id,
        file_id: Some(7),
        file_path: None,
        node_type,
        title: Some(title.to_string()),
        subtype: None,
        url: None,
        icon: None,
        created: None,
        modified: None,
        original_id: None,
        parent_id: None,
        children,
    }
}

fn shape(t: &NodeTree) -> String {
    let kids: Vec<String> = t.children.iter().map(shape).collect();
    if kids.is_empty() {
        format!("{}", t.id)
    } else {
        format!("{}({})", t.id, kids.join(","))
    }
}

fn forest_shape(f: &[NodeTree]) -> String {
    f.iter().map(shape).collect::<Vec<_>>().join(",")
}

#[test]
fn tree_is_built_from_root_children_in_order() {
    let rows = vec![
        flat(2, NodeType::Telegram, "a", vec![4, 3]),
        flat(1, NodeType::Root, "root", vec![2, 5]),
        flat(3, NodeType::Telegram, "c", vec![]),
        flat(4, NodeType::Telegram, "d", vec![6]),
        flat(5, NodeType::Scrapbook, "e", vec![]),
        flat(6, NodeType::Scrapbook, "f", vec![]),
    ];
    let tree = get_node_tree(rows).expect("well-formed rows");
    assert_eq!(forest_shape(&tree), "2(4(6),3),5");
    assert_eq!(tree[0].title.as_deref(), Some("a"));
    assert_eq!(tree[0].file_id, Some(7));
    assert_eq!(tree[1].node_type, NodeType::Scrapbook);
}

#[test]
fn tree_without_root_is_refused() {
    let rows = vec![flat(2, NodeType::Telegram, "a", vec![])];
    assert!(get_node_tree(rows).is_none());
}

#[test]
fn tree_with_unknown_child_is_refused() {
    let rows = vec![flat(1, NodeType::Root, "root", vec![2]), flat(2, NodeType::Telegram, "a", vec![9])];
    assert!(get_node_tree(rows).is_none());
}

#[test]
fn tree_with_shared_child_is_refused() {
    let rows = vec![
        flat(1, NodeType::Root, "root", vec![2, 3]),
        flat(2, NodeType::Telegram, "a", vec![3]),
        flat(3, NodeType::Telegram, "b", vec![]),
    ];
    assert!(get_node_tree(rows).is_none());
}

#[test]
fn tree_with_cycle_is_refused() {
    let rows = vec![
        flat(1, NodeType::Root, "root", vec![2]),
        flat(2, NodeType::Telegram, "a", vec![3]),
        flat(3, NodeType::Telegram, "b", vec![2]),
    ];
    assert!(get_node_tree(rows).is_none());
}

#[test]
fn later_rows_win() {
    let rows = vec![
        flat(1, NodeType::Root, "old root", vec![]),
        flat(2, NodeType::Telegram, "old", vec![]),
        flat(2, NodeType::Telegram, "new", vec![]),
        flat(1, NodeType::Root, "root", vec![2]),
    ];
    let tree = get_node_tree(rows).expect("well-formed rows");
    assert_eq!(forest_shape(&tree), "2");
    assert_eq!(tree[0].title.as_deref(), Some("new"));
}

#[test]
fn empty_root_gives_empty_forest() {
    let rows = vec![flat(1, NodeType::Root, "root", vec![])];
    assert_eq!(get_node_tree(rows).map(|f| f.len()), Some(0));
}

#[test]
fn into_tree_takes_descendants_out_of_the_map() {
    let mut map = HashMap::new();
    map.insert(2, flat(2, NodeType::OneTab, "a", vec![3]));
    map.insert(3, flat(3, NodeType::OneTab, "b", vec![]));
    map.insert(4, flat(4, NodeType::OneTab, "c", vec![]));
    let tree = flat(1, NodeType::Root, "root", vec![2]).into_tree(&mut map);
    assert_eq!(shape(&tree), "1(2(3))");
    assert_eq!(map.len(), 1);
    assert!(map.contains_key(&4));
}
