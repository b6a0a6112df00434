//! Masons: the passes that work on a stone tree.
use std::collections::HashSet;
use vstd::prelude::*;
use vstd::std_specs::hash::*;
use crate::removal::union_all;
use crate::stone::StoneTree;
use crate::tags::TagIndex;

verus! {

broadcast use group_hash_axioms;

/// The tag of the stones that say something about the document itself.
pub const META: &'static str = "meta";

/// A pass over the stone tree.
///
/// A mason recognises its stones by their tags. It may change the stones
/// and what it keeps to itself; it leaves the index alone, takes no stone
/// out, and says in its result which stones it is done with.
///
/// What `handle_stones` promises is proved of the masons of this crate. Of
/// a mason written elsewhere it is taken on trust.
pub trait StoneMason<T> {
    /// The tags of the stones that this mason works on. A mason that does
    /// not say counts as working on every tag.
    open spec fn claimed_tags(&self) -> Set<Seq<char>> {
        Set::full()
    }

    /// Works on the stones of `tree` that `tags` lists under this mason's
    /// tags, and returns the indices of the stones that it has used up.
    ///
    /// A mason that finds none of its tags in `tags` uses up nothing and
    /// leaves the tree as it is.
    fn handle_stones(&mut self, tree: &mut StoneTree<T>, tags: &TagIndex) -> (consumed: HashSet<
        usize,
    >)
        ensures
            tags.lacks(old(self).claimed_tags()) ==> consumed@ == Set::<usize>::empty()
                && *final(tree) == *old(tree),
    ;
}

/// Puts into `consumed` every index that `tags` lists under `tag`.
pub fn add_listed(consumed: &mut HashSet<usize>, tags: &TagIndex, tag: &str)
    ensures
        final(consumed)@ == old(consumed)@.union(tags.listed(tag@).to_set()),
{
    let ghost before = consumed@;
    match tags.get(tag) {
        Some(list) => {
            let mut i: usize = 0;
            while i < list.len()
                invariant
                    i <= list.len(),
                    consumed@ == before.union(list@.take(i as int).to_set()),
                decreases list.len() - i,
            {
                proof {
                    assert(list@.take(i + 1) == list@.take(i as int).push(list@[i as int]));
                    list@.take(i as int).lemma_push_to_set_commute(list@[i as int]);
                }
                consumed.insert(list[i]);
                i = i + 1;
            }
            assert(list@.take(list.len() as int) == list@);
        },
        None => {},
    }
}

/// The mason for the settings of a document: a mason for the controls, and
/// after it the rule that every stone tagged [`META`] is used up.
pub struct SettingsMason<C> {
    pub control: C,
}

impl<C> SettingsMason<C> {
    /// The settings mason that works with the given control mason.
    pub fn new(control: C) -> (mason: Self)
        ensures
            mason.control == control,
    {
        SettingsMason { control }
    }
}

impl<T, C: StoneMason<T>> StoneMason<T> for SettingsMason<C> {
    open spec fn claimed_tags(&self) -> Set<Seq<char>> {
        self.control.claimed_tags().insert(META@)
    }

    fn handle_stones(&mut self, tree: &mut StoneTree<T>, tags: &TagIndex) -> (consumed: HashSet<
        usize,
    >)
        ensures
            tags.listed(META@).to_set().subset_of(consumed@),
    {
        let mut consumed = self.control.handle_stones(tree, tags);
        add_listed(&mut consumed, tags, META);
        consumed
    }
}

/// The mason that runs the whole work on a document: the masons for
/// imports, settings, colours and styles, one after another.
///
/// Imports come first, so that the other masons see the document with
/// everything that it draws in.
pub struct MetaMason<I, C, K, S> {
    pub import: I,
    pub settings: SettingsMason<C>,
    pub color: K,
    pub style: S,
}

impl<I, C, K, S> MetaMason<I, C, K, S> {
    /// The mason that runs the four given masons; the control mason
    /// becomes part of a [`SettingsMason`].
    pub fn new(import: I, control: C, color: K, style: S) -> (mason: Self)
        ensures
            mason.import == import,
            mason.settings.control == control,
            mason.color == color,
            mason.style == style,
    {
        MetaMason { import, settings: SettingsMason::new(control), color, style }
    }
}

impl<T, I: StoneMason<T>, C: StoneMason<T>, K: StoneMason<T>, S: StoneMason<T>> StoneMason<
    T,
> for MetaMason<I, C, K, S> {
    open spec fn claimed_tags(&self) -> Set<Seq<char>> {
        self.import.claimed_tags().union(self.settings.claimed_tags()).union(
            self.color.claimed_tags(),
        ).union(self.style.claimed_tags())
    }

    /// Runs the four masons in their order on the same tree and index and
    /// unites what they report ([`union_all`]). Nothing is taken out of the
    /// tree here: that is left to [`apply_removals`](crate::removal::apply_removals).
    fn handle_stones(&mut self, tree: &mut StoneTree<T>, tags: &TagIndex) -> (consumed: HashSet<
        usize,
    >)
        ensures
            tags.listed(META@).to_set().subset_of(consumed@),
    {
        let from_import = self.import.handle_stones(tree, tags);
        let from_settings = self.settings.handle_stones(tree, tags);
        let from_color = self.color.handle_stones(tree, tags);
        let from_style = self.style.handle_stones(tree, tags);
        union_all(&from_import, &from_settings, &from_color, &from_style)
    }
}

} // verus!
