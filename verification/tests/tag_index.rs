use masonry::stone::{Stone, StoneTree};
use masonry::tags::TagIndex;

#[test]
fn a_new_index_lists_nothing() {
    let index = TagIndex::new();
    assert!(index.get("meta").is_none());
    assert!(index.get("").is_none());
}

#[test]
fn insert_lists_in_the_order_of_the_calls() {
    let mut index = TagIndex::new();
    index.insert("color", 4);
    index.insert("meta", 0);
    index.insert("color", 2);
    index.insert("color", 9);
    assert_eq!(index.get("color"), Some(&vec![4, 2, 9]));
    assert_eq!(index.get("meta"), Some(&vec![0]));
    assert!(index.get("style").is_none());
}

#[test]
fn tags_are_told_apart_exactly() {
    let mut index = TagIndex::new();
    index.insert("meta", 1);
    assert!(index.get("Meta").is_none());
    assert!(index.get("meta ").is_none());
    assert!(index.get("met").is_none());
    assert_eq!(index.get("meta"), Some(&vec![1]));
}

#[test]
fn build_lists_every_tag_in_document_order() {
    let tree = StoneTree::from_nodes(vec![
        Some(Stone::tagged("color", 1u8)),
        Some(Stone::tagged("meta", 2u8)),
        Some(Stone::tagged("color", 3u8)),
        Some(Stone::tagged("style", 4u8)),
        Some(Stone::tagged("color", 5u8)),
    ]);
    let index = TagIndex::build(&tree);
    assert_eq!(index.get("color"), Some(&vec![0, 2, 4]));
    assert_eq!(index.get("meta"), Some(&vec![1]));
    assert_eq!(index.get("style"), Some(&vec![3]));
    assert!(index.get("import").is_none());
}

#[test]
fn build_passes_over_untagged_stones_and_absent_slots() {
    let tree = StoneTree::from_nodes(vec![
        Some(Stone::untagged(1u8)),
        None,
        Some(Stone::tagged("meta", 2u8)),
        None,
        Some(Stone::untagged(3u8)),
        Some(Stone::tagged("meta", 4u8)),
    ]);
    let index = TagIndex::build(&tree);
    assert_eq!(index.get("meta"), Some(&vec![2, 5]));
    assert!(index.get("").is_none());
}

#[test]
fn build_of_an_empty_tree_lists_nothing() {
    let tree: StoneTree<u8> = StoneTree::new();
    let index = TagIndex::build(&tree);
    assert!(index.get("meta").is_none());
}

#[test]
fn build_does_not_list_a_removed_stone() {
    let mut tree = StoneTree::new();
    tree.push(Stone::tagged("meta", 1u8)).unwrap();
    tree.push(Stone::tagged("meta", 2u8)).unwrap();
    tree.remove(0);
    let index = TagIndex::build(&tree);
    assert_eq!(index.get("meta"), Some(&vec![1]));
}
