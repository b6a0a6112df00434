//! The stone tree: an arena of stones addressed by index.
//!
//! A slot of the arena either holds a stone or is absent. Taking a stone out
//! leaves its slot absent and every other index as it was; compaction drops
//! the absent slots and renumbers the stones that are left.
use vstd::prelude::*;

verus! {

/// A node of the document: the tag it was given when the document was read,
/// if any, and whatever else the document says about it.
#[derive(Clone, Debug, PartialEq, Eq)]
pub struct Stone<T> {
    pub tag: Option<String>,
    pub payload: T,
}

impl<T> Stone<T> {
    /// Whether the stone carries exactly the tag `tag`.
    pub open spec fn has_tag(self, tag: Seq<char>) -> bool {
        self.tag matches Some(t) && t@ == tag
    }

    /// A stone with the given tag.
    pub fn tagged(tag: &str, payload: T) -> (stone: Self)
        ensures
            stone.has_tag(tag@),
            stone.payload == payload,
    {
        Stone { tag: Some(tag.to_owned()), payload }
    }

    /// A stone without a tag.
    pub fn untagged(payload: T) -> (stone: Self)
        ensures
            stone.tag is None,
            stone.payload == payload,
    {
        Stone { tag: None, payload }
    }
}

/// What is left of `nodes` once the slot at `index` is marked absent.
/// An index outside the arena changes nothing.
pub open spec fn without_slot<T>(nodes: Seq<Option<Stone<T>>>, index: int) -> Seq<Option<Stone<T>>> {
    if 0 <= index < nodes.len() {
        nodes.update(index, None)
    } else {
        nodes
    }
}

/// The stones of `nodes` in their order, with the absent slots dropped.
pub open spec fn compacted<T>(nodes: Seq<Option<Stone<T>>>) -> Seq<Option<Stone<T>>> {
    nodes.filter(|slot: Option<Stone<T>>| slot is Some)
}

/// An arena of stones.
///
/// The view is the sequence of slots. An index names a stone from the moment
/// the stone is added until the next compaction, which renumbers the stones:
/// an index taken before it means nothing after it. Once a tree has been
/// compacted it is sealed and takes no new stones, so an index that
/// compaction has freed is not given to another stone.
#[derive(Clone, Debug)]
pub struct StoneTree<T> {
    nodes: Vec<Option<Stone<T>>>,
    sealed: bool,
}

impl<T> View for StoneTree<T> {
    type V = Seq<Option<Stone<T>>>;

    closed spec fn view(&self) -> Seq<Option<Stone<T>>> {
        self.nodes@
    }
}

impl<T> StoneTree<T> {
    /// Whether the tree has been compacted since it was made.
    pub closed spec fn sealed(&self) -> bool {
        self.sealed
    }

    /// Whether slot `index` exists and holds a stone.
    pub open spec fn present(&self, index: int) -> bool {
        0 <= index < self@.len() && self@[index] is Some
    }

    /// The arena has no more slots than an index can name.
    pub proof fn lemma_indexable(&self)
        ensures
            self@.len() <= usize::MAX,
    {
        assert(self.nodes.len() <= usize::MAX);
    }

    /// An empty tree.
    pub fn new() -> (tree: Self)
        ensures
            tree@ == Seq::<Option<Stone<T>>>::empty(),
            !tree.sealed(),
    {
        StoneTree { nodes: Vec::new(), sealed: false }
    }

    /// The tree whose slots are `nodes`, in that order.
    pub fn from_nodes(nodes: Vec<Option<Stone<T>>>) -> (tree: Self)
        ensures
            tree@ == nodes@,
            !tree.sealed(),
    {
        StoneTree { nodes, sealed: false }
    }

    /// The number of slots, absent ones included.
    pub fn len(&self) -> (n: usize)
        ensures
            n == self@.len(),
    {
        self.nodes.len()
    }

    /// Whether the tree has been compacted since it was made.
    pub fn is_sealed(&self) -> (sealed: bool)
        ensures
            sealed == self.sealed(),
    {
        self.sealed
    }

    /// The slots of the arena.
    pub fn nodes(&self) -> (nodes: &Vec<Option<Stone<T>>>)
        ensures
            nodes@ == self@,
    {
        &self.nodes
    }

    /// The stone at `index`, if the slot exists and is not absent.
    pub fn get(&self, index: usize) -> (stone: Option<&Stone<T>>)
        ensures
            self.present(index as int) ==> stone == Some(&self@[index as int]->0),
            !self.present(index as int) ==> stone is None,
    {
        if index < self.nodes.len() {
            self.nodes[index].as_ref()
        } else {
            None
        }
    }

    /// Whether slot `index` exists and holds a stone.
    pub fn is_present(&self, index: usize) -> (present: bool)
        ensures
            present == self.present(index as int),
    {
        index < self.nodes.len() && self.nodes[index].is_some()
    }

    /// Adds a stone in a new slot at the end of the arena and returns its
    /// index. A sealed tree takes no stone: it hands the stone back.
    pub fn push(&mut self, stone: Stone<T>) -> (added: Result<usize, Stone<T>>)
        ensures
            final(self).sealed() == old(self).sealed(),
            !old(self).sealed() ==> added == Ok::<usize, Stone<T>>(old(self)@.len() as usize)
                && final(self)@ == old(self)@.push(Some(stone)),
            old(self).sealed() ==> added == Err::<usize, Stone<T>>(stone) && final(self)@ == old(self)@,
    {
        if self.sealed {
            Err(stone)
        } else {
            let index = self.nodes.len();
            self.nodes.push(Some(stone));
            Ok(index)
        }
    }

    /// The stone at `index`, to be changed in place, if the slot exists and
    /// is not absent. Whatever is done to the stone, the slot keeps holding
    /// one and no other slot changes.
    pub fn get_mut(&mut self, index: usize) -> (stone: Option<&mut Stone<T>>)
        ensures
            final(self).sealed() == old(self).sealed(),
            match stone {
                Some(held) => old(self).present(index as int) && *held == old(self)@[index as int]->0
                    && final(self)@ == old(self)@.update(index as int, Some(*final(held))),
                None => !old(self).present(index as int) && final(self)@ == old(self)@,
            },
    {
        if index < self.nodes.len() {
            self.nodes[index].as_mut()
        } else {
            None
        }
    }

    /// Marks the stone at `index` absent. Where the slot is absent already,
    /// or `index` is outside the arena, nothing changes. No other slot is
    /// touched, and no index moves.
    pub fn remove(&mut self, index: usize)
        ensures
            final(self)@ == without_slot(old(self)@, index as int),
            final(self).sealed() == old(self).sealed(),
    {
        if index < self.nodes.len() {
            self.nodes.set(index, None);
        }
    }

    /// Compacts the arena: drops the absent slots and renumbers the stones
    /// that are left, in their order, from zero. Seals the tree.
    pub fn clean(&mut self)
        ensures
            final(self)@ == compacted(old(self)@),
            final(self)@.len() <= old(self)@.len(),
            forall|i: int| 0 <= i < final(self)@.len() ==> final(self)@[i] is Some,
            final(self).sealed(),
    {
        let mut kept: Vec<Option<Stone<T>>> = Vec::new();
        let mut rest: Vec<Option<Stone<T>>> = Vec::new();
        std::mem::swap(&mut self.nodes, &mut rest);
        let ghost before = rest@;
        let n = rest.len();
        let mut i: usize = 0;
        while i < n
            invariant
                i <= n,
                rest@.len() == n,
                before.len() == n,
                forall|j: int| i <= j < n ==> rest@[j] == before[j],
                kept@ == compacted(before.take(i as int)),
            decreases n - i,
        {
            let slot = rest[i].take();
            proof {
                assert(before.take(i as int + 1) == before.take(i as int).push(before[i as int]));
                before.take(i as int).lemma_filter_push(before[i as int], |slot: Option<Stone<T>>| slot is Some);
            }
            if slot.is_some() {
                kept.push(slot);
            }
            i = i + 1;
        }
        proof {
            assert(before.take(n as int) == before);
            let holds = |slot: Option<Stone<T>>| slot is Some;
            before.lemma_filter_len(holds);
            assert forall|i: int| 0 <= i < kept@.len() implies kept@[i] is Some by {
                before.lemma_filter_pred(holds, i);
            }
        }
        self.nodes = kept;
        self.sealed = true;
    }
}

} // verus!
