//! Taking the used-up stones out of a tree.
//!
//! Masons report the stones they have used up; nothing leaves the tree while
//! they work. When all have reported, the reports are united, every stone in
//! the union is marked absent, and the tree is compacted once.
use std::collections::HashSet;
use vstd::prelude::*;
use vstd::std_specs::hash::*;
use crate::stone::compacted;
use crate::stone::without_slot;
use crate::stone::Stone;
use crate::stone::StoneTree;

verus! {

broadcast use group_hash_axioms;

/// What is left of `nodes` once every slot whose index is in `consumed` is
/// marked absent. Indices outside the arena count for nothing.
pub open spec fn without_all<T>(nodes: Seq<Option<Stone<T>>>, consumed: Set<usize>) -> Seq<
    Option<Stone<T>>,
> {
    Seq::new(
        nodes.len(),
        |i: int|
            if consumed.contains(i as usize) {
                None
            } else {
                nodes[i]
            },
    )
}

/// What is left of `nodes` once the slots named by `indices` are marked
/// absent one after another, in the order of `indices`.
pub open spec fn without_each<T>(nodes: Seq<Option<Stone<T>>>, indices: Seq<usize>) -> Seq<
    Option<Stone<T>>,
>
    decreases indices.len(),
{
    if indices.len() == 0 {
        nodes
    } else {
        without_slot(without_each(nodes, indices.drop_last()), indices.last() as int)
    }
}

/// The index that compaction gives to slot `index` of `nodes`: the number
/// of stones in the slots before it.
pub open spec fn new_index<T>(nodes: Seq<Option<Stone<T>>>, index: int) -> nat {
    compacted(nodes.take(index)).len()
}

/// Puts every index of `more` into `all`.
pub fn add_all(all: &mut HashSet<usize>, more: &HashSet<usize>)
    ensures
        final(all)@ == old(all)@.union(more@),
{
    let ghost before = all@;
    for index in it: more.iter()
        invariant
            it.seq().unref().to_set() == more@,
            all@ == before.union(it.seq().unref().take(it.index()).to_set()),
            it.index() == it.seq().len() ==> all@ == before.union(more@),
    {
        proof {
            let seen = it.seq().unref();
            seen.take(it.index()).lemma_push_to_set_commute(*index);
            assert(seen.take(seen.len() as int) == seen);
        }
        all.insert(*index);
    }
}

/// The union of what four masons report.
pub fn union_all(
    first: &HashSet<usize>,
    second: &HashSet<usize>,
    third: &HashSet<usize>,
    fourth: &HashSet<usize>,
) -> (all: HashSet<usize>)
    ensures
        all@ == first@.union(second@).union(third@).union(fourth@),
{
    let mut all: HashSet<usize> = HashSet::new();
    add_all(&mut all, first);
    add_all(&mut all, second);
    add_all(&mut all, third);
    add_all(&mut all, fourth);
    all
}

/// Takes the stones named by `consumed` out of `tree`: marks each of them
/// absent where the tree still holds it, then compacts the tree once.
///
/// An index that names no stone, because its slot is absent already or lies
/// outside the arena, is passed over.
pub fn apply_removals<T>(tree: &mut StoneTree<T>, consumed: &HashSet<usize>)
    ensures
        final(tree)@ == compacted(without_all(old(tree)@, consumed@)),
        final(tree).sealed(),
{
    let ghost before = tree@;
    proof {
        tree.lemma_indexable();
    }
    for index in it: consumed.iter()
        invariant
            before.len() <= usize::MAX,
            it.seq().unref().to_set() == consumed@,
            tree@ == without_all(before, it.seq().unref().take(it.index()).to_set()),
            it.index() == it.seq().len() ==> tree@ == without_all(before, consumed@),
    {
        proof {
            let seen = it.seq().unref();
            seen.take(it.index()).lemma_push_to_set_commute(*index);
            assert(seen.take(seen.len() as int) == seen);
            let marked = seen.take(it.index()).to_set();
            assert(without_slot(without_all(before, marked), *index as int) == without_all(
                before,
                marked.insert(*index),
            ));
        }
        if tree.is_present(*index) {
            tree.remove(*index);
        }
    }
    tree.clean();
}

/// Whether slot `index` of `nodes` holds a stone that `consumed` does not
/// name.
pub open spec fn survives<T>(nodes: Seq<Option<Stone<T>>>, consumed: Set<usize>, index: int) -> bool {
    0 <= index < nodes.len() && nodes[index] is Some && !consumed.contains(index as usize)
}

/// Taking the same stone out twice leaves the tree as taking it out once
/// does.
pub proof fn lemma_remove_twice<T>(nodes: Seq<Option<Stone<T>>>, index: int)
    ensures
        without_slot(without_slot(nodes, index), index) == without_slot(nodes, index),
{
}

/// Taking stones out one after another comes to the same as taking out the
/// set of them at once: neither the order of the indices nor an index that
/// comes up more than once makes a difference.
pub proof fn lemma_without_each<T>(nodes: Seq<Option<Stone<T>>>, indices: Seq<usize>)
    requires
        nodes.len() <= usize::MAX,
    ensures
        without_each(nodes, indices) == without_all(nodes, indices.to_set()),
    decreases indices.len(),
{
    if indices.len() > 0 {
        let front = indices.drop_last();
        lemma_without_each(nodes, front);
        assert(indices == front.push(indices.last()));
        front.lemma_push_to_set_commute(indices.last());
        assert(without_slot(without_all(nodes, front.to_set()), indices.last() as int)
            == without_all(nodes, front.to_set().insert(indices.last())));
    }
}

proof fn lemma_compacted_split<T>(nodes: Seq<Option<Stone<T>>>, index: int, upto: int)
    requires
        0 <= index < upto <= nodes.len(),
        nodes[index] is Some,
    ensures
        compacted(nodes.take(upto)) == compacted(nodes.take(index)).push(nodes[index]) + compacted(
            nodes.subrange(index + 1, upto),
        ),
{
    let holds = |slot: Option<Stone<T>>| slot is Some;
    let front = nodes.take(index);
    let back = nodes.subrange(index + 1, upto);
    assert(nodes.take(upto) == front.push(nodes[index]) + back);
    Seq::filter_distributes_over_add(front.push(nodes[index]), back, holds);
    front.lemma_filter_push(nodes[index], holds);
}

/// Compaction keeps every stone that is left, whole and in its order: it
/// stands at its new index, and of two such stones the earlier one gets the
/// lower index, so that no two share one.
pub proof fn lemma_compaction_keeps_stones<T>(nodes: Seq<Option<Stone<T>>>, consumed: Set<usize>)
    requires
        nodes.len() <= usize::MAX,
    ensures
        ({
            let left = without_all(nodes, consumed);
            let after = compacted(left);
            &&& forall|i: int| #[trigger]
                survives(nodes, consumed, i) ==> new_index(left, i) < after.len() && after[new_index(
                    left,
                    i,
                ) as int] == nodes[i]
            &&& forall|i: int, j: int|
                #![trigger survives(nodes, consumed, i), survives(nodes, consumed, j)]
                survives(nodes, consumed, i) && survives(nodes, consumed, j) && i < j ==> new_index(
                    left,
                    i,
                ) < new_index(left, j)
        }),
{
    let left = without_all(nodes, consumed);
    let after = compacted(left);
    assert forall|i: int| #[trigger] survives(nodes, consumed, i) implies new_index(left, i)
        < after.len() && after[new_index(left, i) as int] == nodes[i] by {
        lemma_compacted_split(left, i, left.len() as int);
        assert(left.take(left.len() as int) == left);
    }
    assert forall|i: int, j: int|
        #![trigger survives(nodes, consumed, i), survives(nodes, consumed, j)]
        survives(nodes, consumed, i) && survives(nodes, consumed, j) && i < j implies new_index(
        left,
        i,
    ) < new_index(left, j) by {
        lemma_compacted_split(left, i, j);
    }
}

} // verus!
