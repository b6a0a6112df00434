use std::collections::HashSet;

use masonry::removal::{add_all, apply_removals, union_all};
use masonry::stone::{Stone, StoneTree};

fn set(items: &[usize]) -> HashSet<usize> {
    items.iter().cloned().collect()
}

fn numbered(n: u32) -> StoneTree<u32> {
    let mut tree = StoneTree::new();
    for i in 0..n {
        tree.push(Stone::untagged(i * 10)).unwrap();
    }
    tree
}

#[test]
fn add_all_unites_in_place() {
    let mut all = set(&[1, 2]);
    add_all(&mut all, &set(&[2, 5]));
    assert_eq!(all, set(&[1, 2, 5]));
    add_all(&mut all, &set(&[]));
    assert_eq!(all, set(&[1, 2, 5]));
}

#[test]
fn union_all_is_the_union_of_the_four() {
    let all = union_all(&set(&[4]), &set(&[0, 1]), &set(&[1, 7]), &set(&[2]));
    assert_eq!(all, set(&[0, 1, 2, 4, 7]));
}

#[test]
fn union_all_of_nothing_is_nothing() {
    let all = union_all(&set(&[]), &set(&[]), &set(&[]), &set(&[]));
    assert!(all.is_empty());
}

#[test]
fn union_all_does_not_depend_on_the_order() {
    let a = set(&[3, 1]);
    let b = set(&[1]);
    let c = set(&[9]);
    let d = set(&[]);
    assert_eq!(union_all(&a, &b, &c, &d), union_all(&d, &c, &b, &a));
    assert_eq!(union_all(&a, &b, &c, &d), union_all(&b, &a, &d, &c));
}

#[test]
fn apply_removals_takes_out_and_compacts() {
    let mut tree = numbered(5);
    apply_removals(&mut tree, &set(&[1, 3]));
    assert_eq!(tree.len(), 3);
    assert_eq!(tree.get(0).unwrap().payload, 0);
    assert_eq!(tree.get(1).unwrap().payload, 20);
    assert_eq!(tree.get(2).unwrap().payload, 40);
    assert!(tree.is_sealed());
}

#[test]
fn apply_removals_with_nothing_to_remove_only_compacts() {
    let mut tree = numbered(3);
    tree.remove(1);
    apply_removals(&mut tree, &set(&[]));
    assert_eq!(tree.len(), 2);
    assert_eq!(tree.get(0).unwrap().payload, 0);
    assert_eq!(tree.get(1).unwrap().payload, 20);
}

#[test]
fn apply_removals_passes_over_what_is_not_there() {
    let mut tree = numbered(4);
    tree.remove(2);
    apply_removals(&mut tree, &set(&[2, 4, 1000, usize::MAX]));
    assert_eq!(tree.len(), 3);
    assert_eq!(tree.get(0).unwrap().payload, 0);
    assert_eq!(tree.get(1).unwrap().payload, 10);
    assert_eq!(tree.get(2).unwrap().payload, 30);
}

#[test]
fn a_stone_named_by_two_masons_is_taken_out_once() {
    let mut together = numbered(4);
    apply_removals(&mut together, &union_all(&set(&[2]), &set(&[2, 3]), &set(&[]), &set(&[2])));
    let mut single = numbered(4);
    apply_removals(&mut single, &set(&[2, 3]));
    assert_eq!(together.nodes(), single.nodes());
    assert_eq!(together.len(), 2);
}

#[test]
fn stones_that_stay_keep_their_content_and_get_distinct_indices() {
    let mut tree = StoneTree::new();
    for name in ["a", "b", "c", "d", "e", "f"] {
        tree.push(Stone::tagged(name, name.to_uppercase())).unwrap();
    }
    let before = tree.clone();
    let gone = set(&[0, 3, 4]);
    apply_removals(&mut tree, &gone);
    let mut next = 0;
    for index in 0..before.len() {
        if gone.contains(&index) {
            continue;
        }
        assert_eq!(tree.get(next), before.get(index));
        next += 1;
    }
    assert_eq!(tree.len(), next);
    assert_eq!(next, 3);
}

#[test]
fn removing_one_by_one_is_removing_the_set() {
    let mut one_by_one = numbered(6);
    for index in [4usize, 1, 4, 9, 1] {
        one_by_one.remove(index);
    }
    one_by_one.clean();
    let mut at_once = numbered(6);
    apply_removals(&mut at_once, &set(&[1, 4, 9]));
    assert_eq!(one_by_one.nodes(), at_once.nodes());
}
