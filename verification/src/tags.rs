//! The tag index: for every tag, the stones that carry it.
use vstd::prelude::*;
use crate::stone::Stone;
use crate::stone::StoneTree;

verus! {

/// Whether slot `index` of `nodes` holds a stone that carries `tag`.
pub open spec fn carries<T>(nodes: Seq<Option<Stone<T>>>, tag: Seq<char>, index: int) -> bool {
    0 <= index < nodes.len() && (nodes[index] matches Some(stone) && stone.has_tag(tag))
}

/// The indices below `upto`, in ascending order, of the stones of `nodes`
/// that carry `tag`.
pub open spec fn tagged_below<T>(nodes: Seq<Option<Stone<T>>>, tag: Seq<char>, upto: int) -> Seq<
    usize,
> {
    Seq::new(upto as nat, |i: int| i as usize).filter(|i: usize| carries(nodes, tag, i as int))
}

/// The indices, in ascending order, of the stones of `nodes` that carry
/// `tag`: the order in which the document names them.
pub open spec fn tagged<T>(nodes: Seq<Option<Stone<T>>>, tag: Seq<char>) -> Seq<usize> {
    tagged_below(nodes, tag, nodes.len() as int)
}

/// One more slot adds its index to the list of a tag exactly where the slot
/// holds a stone with that tag.
pub proof fn lemma_tagged_step<T>(nodes: Seq<Option<Stone<T>>>, tag: Seq<char>, upto: int)
    requires
        0 <= upto < usize::MAX,
    ensures
        tagged_below(nodes, tag, upto + 1) == if carries(nodes, tag, upto) {
            tagged_below(nodes, tag, upto).push(upto as usize)
        } else {
            tagged_below(nodes, tag, upto)
        },
{
    let wanted = |i: usize| carries(nodes, tag, i as int);
    let below = Seq::new(upto as nat, |i: int| i as usize);
    assert(Seq::new((upto + 1) as nat, |i: int| i as usize) == below.push(upto as usize));
    below.lemma_filter_push(upto as usize, wanted);
}

proof fn lemma_tagged_below_in_order<T>(nodes: Seq<Option<Stone<T>>>, tag: Seq<char>, upto: int)
    requires
        0 <= upto <= nodes.len() <= usize::MAX,
    ensures
        forall|k: int|
            0 <= k < tagged_below(nodes, tag, upto).len() ==> (#[trigger] tagged_below(
                nodes,
                tag,
                upto,
            )[k]) < upto && carries(nodes, tag, tagged_below(nodes, tag, upto)[k] as int),
        forall|i: int|
            0 <= i < upto && #[trigger] carries(nodes, tag, i) ==> tagged_below(
                nodes,
                tag,
                upto,
            ).contains(i as usize),
        forall|j: int, k: int|
            0 <= j < k < tagged_below(nodes, tag, upto).len() ==> tagged_below(nodes, tag, upto)[j]
                < tagged_below(nodes, tag, upto)[k],
    decreases upto,
{
    let list = tagged_below(nodes, tag, upto);
    if upto > 0 {
        let shorter = tagged_below(nodes, tag, upto - 1);
        lemma_tagged_below_in_order(nodes, tag, upto - 1);
        lemma_tagged_step(nodes, tag, upto - 1);
        assert forall|i: int| 0 <= i < upto && #[trigger] carries(nodes, tag, i) implies list.contains(
            i as usize,
        ) by {
            if i < upto - 1 {
                let k = choose|k: int| 0 <= k < shorter.len() && shorter[k] == i as usize;
                assert(list[k] == i as usize);
            } else {
                assert(list[list.len() - 1] == i as usize);
            }
        }
    }
}

/// The list of a tag names the stones that carry the tag, all of them, each
/// once, and in ascending order of their indices.
pub proof fn lemma_tagged_in_order<T>(nodes: Seq<Option<Stone<T>>>, tag: Seq<char>)
    requires
        nodes.len() <= usize::MAX,
    ensures
        forall|k: int|
            0 <= k < tagged(nodes, tag).len() ==> carries(
                nodes,
                tag,
                (#[trigger] tagged(nodes, tag)[k]) as int,
            ),
        forall|i: int| #[trigger] carries(nodes, tag, i) ==> tagged(nodes, tag).contains(i as usize),
        forall|j: int, k: int|
            0 <= j < k < tagged(nodes, tag).len() ==> tagged(nodes, tag)[j] < tagged(nodes, tag)[k],
{
    lemma_tagged_below_in_order(nodes, tag, nodes.len() as int);
}

#[derive(Debug)]
struct TagEntry {
    tag: String,
    indices: Vec<usize>,
}

/// For every tag, the indices of the stones that carry it, in the order of
/// the document.
///
/// The view maps a tag to its indices. A tag that no stone carries has no
/// entry; [`TagIndex::listed`] reads such a tag as an empty list.
#[derive(Debug)]
pub struct TagIndex {
    entries: Vec<TagEntry>,
}

impl View for TagIndex {
    type V = Map<Seq<char>, Seq<usize>>;

    closed spec fn view(&self) -> Map<Seq<char>, Seq<usize>> {
        Map::new(
            |tag: Seq<char>| self.holds(tag),
            |tag: Seq<char>| self.entries[self.position(tag)].indices@,
        )
    }
}

impl TagIndex {
    #[verifier::type_invariant]
    spec fn tags_differ(self) -> bool {
        forall|i: int, j: int|
            0 <= i < j < self.entries.len() ==> self.entries[i].tag@ != self.entries[j].tag@
    }

    spec fn holds(self, tag: Seq<char>) -> bool {
        exists|k: int| 0 <= k < self.entries.len() && #[trigger] self.entries[k].tag@ == tag
    }

    spec fn position(self, tag: Seq<char>) -> int {
        choose|k: int| 0 <= k < self.entries.len() && #[trigger] self.entries[k].tag@ == tag
    }

    /// The indices listed under `tag`; none where the tag has no entry.
    pub open spec fn listed(&self, tag: Seq<char>) -> Seq<usize> {
        if self@.dom().contains(tag) {
            self@[tag]
        } else {
            Seq::empty()
        }
    }

    /// Whether none of the tags in `tags` lists a stone.
    pub open spec fn lacks(&self, tags: Set<Seq<char>>) -> bool {
        forall|tag: Seq<char>| tags.contains(tag) ==> #[trigger] self.listed(tag).len() == 0
    }

    /// An index without entries.
    pub fn new() -> (index: Self)
        ensures
            index@ == Map::<Seq<char>, Seq<usize>>::empty(),
    {
        TagIndex { entries: Vec::new() }
    }

    fn find(&self, key: &String) -> (found: Option<usize>)
        ensures
            match found {
                Some(k) => k < self.entries.len() && self.entries[k as int].tag@ == key@,
                None => !self.holds(key@),
            },
    {
        let mut k: usize = 0;
        while k < self.entries.len()
            invariant
                k <= self.entries.len(),
                forall|j: int| 0 <= j < k ==> self.entries[j].tag@ != key@,
            decreases self.entries.len() - k,
        {
            if self.entries[k].tag == *key {
                return Some(k);
            }
            k = k + 1;
        }
        None
    }

    /// The indices listed under `tag`, where the tag has an entry.
    pub fn get(&self, tag: &str) -> (indices: Option<&Vec<usize>>)
        ensures
            match indices {
                Some(list) => self@.dom().contains(tag@) && list@ == self@[tag@],
                None => !self@.dom().contains(tag@),
            },
    {
        proof {
            use_type_invariant(self);
        }
        let key = tag.to_owned();
        match self.find(&key) {
            Some(k) => Some(&self.entries[k].indices),
            None => None,
        }
    }

    proof fn lemma_position(self, k: int)
        requires
            self.tags_differ(),
            0 <= k < self.entries.len(),
        ensures
            self.holds(self.entries[k].tag@),
            self.position(self.entries[k].tag@) == k,
            self@.dom().contains(self.entries[k].tag@),
            self@[self.entries[k].tag@] == self.entries[k].indices@,
    {
    }

    /// Lists `index` under `tag`, after the indices that the tag lists
    /// already.
    pub fn insert(&mut self, tag: &str, index: usize)
        ensures
            final(self)@ == old(self)@.insert(tag@, old(self).listed(tag@).push(index)),
    {
        proof {
            use_type_invariant(&*self);
        }
        let ghost before = *self;
        let key = tag.to_owned();
        let found = self.find(&key);
        let mut entries: Vec<TagEntry> = Vec::new();
        std::mem::swap(&mut self.entries, &mut entries);
        match found {
            Some(k) => {
                entries[k].indices.push(index);
                self.entries = entries;
                proof {
                    before.lemma_position(k as int);
                    assert forall|t: Seq<char>| self.holds(t) == before.holds(t) by {
                        if before.holds(t) {
                            let j = before.position(t);
                            assert(self.entries[j].tag@ == t);
                        }
                        if self.holds(t) {
                            let j = self.position(t);
                            assert(before.entries[j].tag@ == t);
                        }
                    }
                    assert forall|t: Seq<char>| self.holds(t) implies #[trigger] self@[t] == before@.insert(
                        tag@,
                        before.listed(tag@).push(index),
                    )[t] by {
                        let j = self.position(t);
                        self.lemma_position(j);
                        before.lemma_position(j);
                    }
                }
            },
            None => {
                let mut indices: Vec<usize> = Vec::new();
                indices.push(index);
                entries.push(TagEntry { tag: key, indices });
                self.entries = entries;
                proof {
                    let last = before.entries.len() as int;
                    assert(self.entries[last].tag@ == tag@);
                    assert forall|t: Seq<char>| self.holds(t) == (before.holds(t) || t == tag@) by {
                        if before.holds(t) {
                            let j = before.position(t);
                            assert(self.entries[j].tag@ == t);
                        }
                        if self.holds(t) {
                            let j = self.position(t);
                            if j < last {
                                assert(before.entries[j].tag@ == t);
                            }
                        }
                    }
                    assert forall|t: Seq<char>| self.holds(t) implies #[trigger] self@[t] == before@.insert(
                        tag@,
                        before.listed(tag@).push(index),
                    )[t] by {
                        let j = self.position(t);
                        self.lemma_position(j);
                        if j < last {
                            before.lemma_position(j);
                        }
                    }
                }
            },
        }
    }

    /// The index of a tree: one walk over the slots in ascending order, in
    /// which every stone that carries a tag is listed under it.
    pub fn build<T>(tree: &StoneTree<T>) -> (index: Self)
        ensures
            forall|tag: Seq<char>| #[trigger] index.listed(tag) == tagged(tree@, tag),
            forall|tag: Seq<char>| #[trigger]
                index@.dom().contains(tag) <==> tagged(tree@, tag).len() > 0,
    {
        let mut index = TagIndex::new();
        let n = tree.len();
        let mut i: usize = 0;
        while i < n
            invariant
                i <= n,
                n == tree@.len(),
                forall|tag: Seq<char>| #[trigger] index.listed(tag) == tagged_below(tree@, tag, i as int),
                forall|tag: Seq<char>| #[trigger]
                    index@.dom().contains(tag) <==> tagged_below(tree@, tag, i as int).len() > 0,
            decreases n - i,
        {
            let ghost before = index;
            match tree.get(i) {
                Some(stone) => {
                    match &stone.tag {
                        Some(tag) => {
                            index.insert(tag.as_str(), i);
                        },
                        None => {},
                    }
                },
                None => {},
            }
            proof {
                assert forall|tag: Seq<char>| #[trigger]
                    index.listed(tag) == tagged_below(tree@, tag, i as int + 1) by {
                    lemma_tagged_step(tree@, tag, i as int);
                    assert(before.listed(tag) == tagged_below(tree@, tag, i as int));
                }
                assert forall|tag: Seq<char>| #[trigger]
                    index@.dom().contains(tag) <==> tagged_below(tree@, tag, i as int + 1).len()
                        > 0 by {
                    lemma_tagged_step(tree@, tag, i as int);
                    assert(before.listed(tag) == tagged_below(tree@, tag, i as int));
                }
            }
            i = i + 1;
        }
        index
    }
}

} // verus!
